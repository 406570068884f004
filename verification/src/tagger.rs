use vstd::prelude::*;

use crate::text::{
    collapse_spec, collapse_ws, contains_str, copy_str, has_sub, is_ws, is_ws_spec, join,
    join_spec, str_eq, to_lower, to_upper, trim, trim_spec, unicode_lower, unicode_upper,
    utf8_width, views,
};

verus! {

/// Maps a category name to a list of substring patterns for matching.
#[derive(Debug, Clone)]
pub struct CategoryRule {
    pub category: String,
    pub patterns: Vec<String>,
}

/// The text that tagging matches on: remittance lines, creditor, debtor and
/// note joined by spaces, upper-cased, with white space collapsed.
pub open spec fn normalize_spec(
    remittance_info: Seq<String>,
    creditor_name: Seq<char>,
    debtor_name: Seq<char>,
    note: Seq<char>,
) -> Seq<char> {
    collapse_spec(
        unicode_upper(
            join_spec(views(remittance_info) + seq![creditor_name, debtor_name, note], " "@),
        ),
    )
}

/// Normalize concatenates remittance info, creditor name, debtor name, and note
/// into a trimmed uppercase single-spaced string for pattern matching.
pub fn normalize(
    remittance_info: &[String],
    creditor_name: &str,
    debtor_name: &str,
    note: &str,
) -> (r: String)
    ensures
        r@ == normalize_spec(remittance_info@, creditor_name@, debtor_name@, note@),
{
    let mut parts: Vec<String> = Vec::new();
    let mut i: usize = 0;
    while i < remittance_info.len()
        invariant
            i <= remittance_info@.len(),
            views(parts@) == views(remittance_info@.take(i as int)),
        decreases remittance_info.len() - i,
    {
        let ghost before = parts@;
        parts.push(copy_str(remittance_info[i].as_str()));
        assert(views(parts@) =~= views(before).push(remittance_info@[i as int]@));
        assert(views(remittance_info@.take(i + 1)) =~= views(remittance_info@.take(i as int)).push(remittance_info@[i as int]@));
        i = i + 1;
    }
    let ghost before = parts@;
    parts.push(copy_str(creditor_name));
    parts.push(copy_str(debtor_name));
    parts.push(copy_str(note));
    assert(views(parts@) =~= views(before) + seq![creditor_name@, debtor_name@, note@]);
    assert(views(remittance_info@.take(remittance_info@.len() as int)) =~= views(remittance_info@));
    assert(views(parts@) =~= views(remittance_info@) + seq![creditor_name@, debtor_name@, note@]);
    let joined = join(&parts, " ");
    let upper = to_upper(joined.as_str());
    collapse_spaces(upper.as_str())
}

/// The words of `s` joined by single spaces.
pub fn collapse_spaces(s: &str) -> (r: String)
    ensures
        r@ == collapse_spec(s@),
{
    collapse_ws(s)
}

/// Some non-empty pattern of the rule, upper-cased, occurs in `normalized`.
pub open spec fn rule_matches(normalized: Seq<char>, rule: CategoryRule) -> bool {
    exists|j: int|
        0 <= j < rule.patterns@.len() && rule.patterns@[j]@.len() > 0 && has_sub(
            normalized,
            unicode_upper(#[trigger] rule.patterns@[j]@),
        )
}

/// The position of the first rule from `i` on that matches.
pub open spec fn first_matching_rule(normalized: Seq<char>, rules: Seq<CategoryRule>, i: int) -> Option<int>
    decreases rules.len() - i,
{
    if i < 0 || i >= rules.len() {
        None
    } else if rule_matches(normalized, rules[i]) {
        Some(i)
    } else {
        first_matching_rule(normalized, rules, i + 1)
    }
}

/// The category `match_category` returns.
pub open spec fn match_category_spec(normalized: Seq<char>, rules: Seq<CategoryRule>) -> Seq<char> {
    if normalized.len() == 0 {
        "uncategorized"@
    } else {
        match first_matching_rule(normalized, rules, 0) {
            Some(i) => rules[i].category@,
            None => "uncategorized"@,
        }
    }
}

fn rule_hits(normalized: &str, rule: &CategoryRule) -> (r: bool)
    ensures
        r == rule_matches(normalized@, *rule),
{
    let mut j: usize = 0;
    while j < rule.patterns.len()
        invariant
            j <= rule.patterns@.len(),
            forall|k: int|
                0 <= k < j ==> !(rule.patterns@[k]@.len() > 0 && has_sub(
                    normalized@,
                    unicode_upper(#[trigger] rule.patterns@[k]@),
                )),
        decreases rule.patterns.len() - j,
    {
        let p = &rule.patterns[j];
        if !p.as_str().is_empty() {
            let up = to_upper(p.as_str());
            if contains_str(normalized, up.as_str()) {
                return true;
            }
        }
        j = j + 1;
    }
    false
}

proof fn lemma_first_matching_skip(normalized: Seq<char>, rules: Seq<CategoryRule>, i: int)
    requires
        0 <= i <= rules.len(),
        forall|k: int| 0 <= k < i ==> !rule_matches(normalized, #[trigger] rules[k]),
    ensures
        first_matching_rule(normalized, rules, 0) == first_matching_rule(normalized, rules, i),
    decreases i,
{
    if i > 0 {
        lemma_first_matching_skip(normalized, rules, i - 1);
    }
}

/// Returns the first matching category from rules, or "uncategorized" if none match.
pub fn match_category(normalized: &str, rules: &[CategoryRule]) -> (r: String)
    ensures
        r@ == match_category_spec(normalized@, rules@),
{
    if normalized.is_empty() {
        return copy_str("uncategorized");
    }
    let mut i: usize = 0;
    while i < rules.len()
        invariant
            i <= rules@.len(),
            normalized@.len() > 0,
            forall|k: int| 0 <= k < i ==> !rule_matches(normalized@, #[trigger] rules@[k]),
        decreases rules.len() - i,
    {
        if rule_hits(normalized, &rules[i]) {
            proof {
                lemma_first_matching_skip(normalized@, rules@, i as int);
            }
            return copy_str(rules[i].category.as_str());
        }
        i = i + 1;
    }
    proof {
        lemma_first_matching_skip(normalized@, rules@, rules@.len() as int);
    }
    copy_str("uncategorized")
}

// ---------------------------------------------------------------------------
// Words and suggested patterns
// ---------------------------------------------------------------------------

/// Splitting state: the finished words and the word being read.
pub open spec fn word_state(s: Seq<char>) -> (Seq<Seq<char>>, Seq<char>)
    decreases s.len(),
{
    if s.len() == 0 {
        (Seq::<Seq<char>>::empty(), Seq::<char>::empty())
    } else {
        let st = word_state(s.drop_last());
        let c = s.last();
        if is_ws_spec(c) {
            if st.1.len() > 0 {
                (st.0.push(st.1), Seq::<char>::empty())
            } else {
                st
            }
        } else {
            (st.0, st.1.push(c))
        }
    }
}

/// The maximal runs of non-white-space characters of `s` (`split_whitespace`).
pub open spec fn words_spec(s: Seq<char>) -> Seq<Seq<char>> {
    let st = word_state(s);
    if st.1.len() > 0 {
        st.0.push(st.1)
    } else {
        st.0
    }
}

/// The words of `s`.
pub fn words(s: &str) -> (r: Vec<String>)
    ensures
        views(r@) == words_spec(s@),
{
    let v = crate::text::chars_of(s);
    let mut done: Vec<String> = Vec::new();
    let mut cur: Vec<char> = Vec::new();
    let mut i: usize = 0;
    while i < v.len()
        invariant
            i <= v.len(),
            v@ == s@,
            (views(done@), cur@) == word_state(v@.take(i as int)),
        decreases v.len() - i,
    {
        assert(v@.take(i + 1).drop_last() =~= v@.take(i as int));
        let c = v[i];
        if is_ws(c) {
            if cur.len() > 0 {
                let w = crate::text::string_of(&cur);
                done.push(w);
                assert(views(done@) =~= word_state(v@.take(i as int)).0.push(cur@));
                cur = Vec::new();
            }
        } else {
            cur.push(c);
        }
        i = i + 1;
    }
    assert(v@.take(v.len() as int) =~= v@);
    if cur.len() > 0 {
        let w = crate::text::string_of(&cur);
        done.push(w);
        assert(views(done@) =~= word_state(s@).0.push(cur@));
    }
    done
}

/// Common banking words that never make a good pattern.
pub open spec fn is_banking_word(w: Seq<char>) -> bool {
    ||| w == "PAIEMENT"@
    ||| w == "CB"@
    ||| w == "VIR"@
    ||| w == "VIREMENT"@
    ||| w == "PRELEVEMENT"@
    ||| w == "PRLV"@
    ||| w == "CARTE"@
    ||| w == "PAR"@
    ||| w == "DE"@
    ||| w == "DU"@
    ||| w == "LE"@
    ||| w == "LA"@
    ||| w == "AU"@
}

fn banking_word(w: &str) -> (r: bool)
    ensures
        r == is_banking_word(w@),
{
    str_eq(w, "PAIEMENT") || str_eq(w, "CB") || str_eq(w, "VIR") || str_eq(w, "VIREMENT")
        || str_eq(w, "PRELEVEMENT") || str_eq(w, "PRLV") || str_eq(w, "CARTE") || str_eq(w, "PAR")
        || str_eq(w, "DE") || str_eq(w, "DU") || str_eq(w, "LE") || str_eq(w, "LA") || str_eq(
        w,
        "AU",
    )
}

/// A word is distinctive: not a banking word and at least three bytes long.
pub open spec fn distinctive(w: Seq<char>) -> bool {
    !is_banking_word(w) && crate::text::utf8_len(w) >= 3
}

/// The position of the first distinctive word from `i` on.
pub open spec fn first_distinctive(ws: Seq<Seq<char>>, i: int) -> Option<int>
    decreases ws.len() - i,
{
    if i < 0 || i >= ws.len() {
        None
    } else if distinctive(ws[i]) {
        Some(i)
    } else {
        first_distinctive(ws, i + 1)
    }
}

/// The pattern suggested for a description key: its first distinctive word,
/// lower-cased, else the whole key lower-cased.
pub open spec fn suggest_pattern_spec(key: Seq<char>) -> Seq<char> {
    match first_distinctive(words_spec(key), 0) {
        Some(i) => unicode_lower(words_spec(key)[i]),
        None => unicode_lower(key),
    }
}

fn char_width(c: char) -> (r: u64)
    ensures
        r == utf8_width(c),
{
    let u = c as u32;
    if u < 0x80 {
        1
    } else if u < 0x800 {
        2
    } else if u < 0x10000 {
        3
    } else {
        4
    }
}

/// `str::len`: the number of bytes of the UTF-8 encoding, here capped at 3.
fn byte_len_at_least_3(s: &str) -> (r: bool)
    ensures
        r == (crate::text::utf8_len(s@) >= 3),
{
    let v = crate::text::chars_of(s);
    let mut n: u64 = 0;
    let mut i: usize = 0;
    while i < v.len()
        invariant
            i <= v.len(),
            v@ == s@,
            n == crate::text::utf8_len(v@.take(i as int)),
            n < 3,
        decreases v.len() - i,
    {
        assert(v@.take(i + 1).drop_last() =~= v@.take(i as int));
        n = n + char_width(v[i]);
        if n >= 3 {
            proof {
                lemma_utf8_len_prefix(v@, i + 1);
            }
            return true;
        }
        i = i + 1;
    }
    assert(v@.take(v.len() as int) =~= v@);
    false
}

proof fn lemma_utf8_len_prefix(s: Seq<char>, i: int)
    requires
        0 <= i <= s.len(),
    ensures
        crate::text::utf8_len(s) >= crate::text::utf8_len(s.take(i)),
    decreases s.len() - i,
{
    if i < s.len() {
        lemma_utf8_len_prefix(s, i + 1);
        assert(s.take(i + 1).drop_last() =~= s.take(i));
    } else {
        assert(s.take(i) =~= s);
    }
}

proof fn lemma_first_distinctive_skip(ws: Seq<Seq<char>>, i: int)
    requires
        0 <= i <= ws.len(),
        forall|k: int| 0 <= k < i ==> !distinctive(#[trigger] ws[k]),
    ensures
        first_distinctive(ws, 0) == first_distinctive(ws, i),
    decreases i,
{
    if i > 0 {
        lemma_first_distinctive_skip(ws, i - 1);
    }
}

/// Extracts the most distinctive word from a description key
/// to use as a default tag pattern. Skips common banking prefixes.
pub fn suggest_pattern(key: &str) -> (r: String)
    ensures
        r@ == suggest_pattern_spec(key@),
{
    let ws = words(key);
    let ghost wv = views(ws@);
    let mut i: usize = 0;
    while i < ws.len()
        invariant
            i <= ws@.len(),
            wv == views(ws@),
            wv == words_spec(key@),
            forall|k: int| 0 <= k < i ==> !distinctive(#[trigger] wv[k]),
        decreases ws.len() - i,
    {
        let w = ws[i].as_str();
        assert(w@ == wv[i as int]);
        if !banking_word(w) && byte_len_at_least_3(w) {
            proof {
                lemma_first_distinctive_skip(wv, i as int);
            }
            return to_lower(w);
        }
        i = i + 1;
    }
    proof {
        lemma_first_distinctive_skip(wv, wv.len() as int);
    }
    to_lower(key)
}

/// The normalized text is single-spaced and trimmed.
pub proof fn law_normalize_single_spaced(
    remittance_info: Seq<String>,
    creditor_name: Seq<char>,
    debtor_name: Seq<char>,
    note: Seq<char>,
)
    ensures
        crate::text::single_spaced(normalize_spec(remittance_info, creditor_name, debtor_name, note)),
{
    crate::text::law_collapse_single_spaced(
        unicode_upper(join_spec(views(remittance_info) + seq![creditor_name, debtor_name, note], " "@)),
    );
}

proof fn lemma_first_matching_rule_in(normalized: Seq<char>, rules: Seq<CategoryRule>, i: int)
    ensures
        first_matching_rule(normalized, rules, i) matches Some(k) ==> 0 <= k < rules.len() && rule_matches(
            normalized,
            rules[k],
        ),
    decreases rules.len() - i,
{
    if 0 <= i < rules.len() && !rule_matches(normalized, rules[i]) {
        lemma_first_matching_rule_in(normalized, rules, i + 1);
    }
}

/// Tagging gives the category of a rule with a pattern that occurs in the
/// text, or `uncategorized`.
pub proof fn law_match_category_result(normalized: Seq<char>, rules: Seq<CategoryRule>)
    ensures
        match_category_spec(normalized, rules) == "uncategorized"@ || exists|k: int|
            0 <= k < rules.len() && rule_matches(normalized, #[trigger] rules[k]) && match_category_spec(
                normalized,
                rules,
            ) == rules[k].category@,
{
    lemma_first_matching_rule_in(normalized, rules, 0);
}

/// A rule's pattern that occurs in the text, upper-cased, decides the
/// category when no pattern of an earlier rule occurs: any of the rule's
/// non-empty patterns will do, not a particular one.
pub proof fn law_match_category_any_pattern(normalized: Seq<char>, rules: Seq<CategoryRule>, i: int, j: int)
    requires
        normalized.len() > 0,
        0 <= i < rules.len(),
        0 <= j < rules[i].patterns@.len(),
        rules[i].patterns@[j]@.len() > 0,
        has_sub(normalized, unicode_upper(rules[i].patterns@[j]@)),
        forall|k: int, p: int|
            0 <= k < i && 0 <= p < rules[k].patterns@.len() ==> !((#[trigger] rules[k].patterns@[p])@.len() > 0
                && has_sub(normalized, unicode_upper(rules[k].patterns@[p]@))),
    ensures
        match_category_spec(normalized, rules) == rules[i].category@,
{
    assert forall|k: int| 0 <= k < i implies !rule_matches(normalized, #[trigger] rules[k]) by {
        if rule_matches(normalized, rules[k]) {
            let p = choose|p: int|
                0 <= p < rules[k].patterns@.len() && rules[k].patterns@[p]@.len() > 0 && has_sub(
                    normalized,
                    unicode_upper(#[trigger] rules[k].patterns@[p]@),
                );
            assert(!(rules[k].patterns@[p]@.len() > 0 && has_sub(normalized, unicode_upper(rules[k].patterns@[p]@))));
        }
    }
    lemma_first_matching_skip(normalized, rules, i);
    assert(rule_matches(normalized, rules[i]));
}

/// When no non-empty pattern of any rule occurs in the text, upper-cased,
/// the transaction stays `uncategorized`.
pub proof fn law_match_category_none(normalized: Seq<char>, rules: Seq<CategoryRule>)
    requires
        forall|k: int, p: int|
            0 <= k < rules.len() && 0 <= p < rules[k].patterns@.len() ==> !((#[trigger] rules[k].patterns@[p])@.len()
                > 0 && has_sub(normalized, unicode_upper(rules[k].patterns@[p]@))),
    ensures
        match_category_spec(normalized, rules) == "uncategorized"@,
{
    assert forall|k: int| 0 <= k < rules.len() implies !rule_matches(normalized, #[trigger] rules[k]) by {
        if rule_matches(normalized, rules[k]) {
            let p = choose|p: int|
                0 <= p < rules[k].patterns@.len() && rules[k].patterns@[p]@.len() > 0 && has_sub(
                    normalized,
                    unicode_upper(#[trigger] rules[k].patterns@[p]@),
                );
            assert(!(rules[k].patterns@[p]@.len() > 0 && has_sub(normalized, unicode_upper(rules[k].patterns@[p]@))));
        }
    }
    lemma_first_matching_skip(normalized, rules, rules.len() as int);
}

/// The common banking words that a suggested pattern skips.
pub open spec fn skipped_words() -> Seq<Seq<char>> {
    seq![
        "PAIEMENT"@, "CB"@, "VIR"@, "VIREMENT"@, "PRELEVEMENT"@, "PRLV"@, "CARTE"@, "PAR"@, "DE"@, "DU"@, "LE"@,
        "LA"@, "AU"@,
    ]
}

proof fn lemma_banking_listed(w: Seq<char>)
    ensures
        is_banking_word(w) <==> skipped_words().contains(w),
{
    let l = skipped_words();
    if is_banking_word(w) {
        if w == "PAIEMENT"@ { assert(l[0] == w); }
        else if w == "CB"@ { assert(l[1] == w); }
        else if w == "VIR"@ { assert(l[2] == w); }
        else if w == "VIREMENT"@ { assert(l[3] == w); }
        else if w == "PRELEVEMENT"@ { assert(l[4] == w); }
        else if w == "PRLV"@ { assert(l[5] == w); }
        else if w == "CARTE"@ { assert(l[6] == w); }
        else if w == "PAR"@ { assert(l[7] == w); }
        else if w == "DE"@ { assert(l[8] == w); }
        else if w == "DU"@ { assert(l[9] == w); }
        else if w == "LE"@ { assert(l[10] == w); }
        else if w == "LA"@ { assert(l[11] == w); }
        else { assert(l[12] == w); }
    }
    if l.contains(w) {
        let k = choose|k: int| 0 <= k < l.len() && l[k] == w;
        assert(0 <= k < 13);
    }
}

/// The pattern suggested for a key is its first word that is neither one of
/// the common banking words nor shorter than three bytes, lower-cased;
/// earlier words are all skipped ones.
pub proof fn law_suggest_skips_banking_words(key: Seq<char>, m: int)
    requires
        0 <= m < words_spec(key).len(),
        !skipped_words().contains(words_spec(key)[m]),
        crate::text::utf8_len(words_spec(key)[m]) >= 3,
        forall|k: int|
            0 <= k < m ==> skipped_words().contains(#[trigger] words_spec(key)[k]) || crate::text::utf8_len(
                words_spec(key)[k],
            ) < 3,
    ensures
        suggest_pattern_spec(key) == unicode_lower(words_spec(key)[m]),
{
    let ws = words_spec(key);
    lemma_banking_listed(ws[m]);
    assert forall|k: int| 0 <= k < m implies !distinctive(#[trigger] ws[k]) by {
        lemma_banking_listed(ws[k]);
    }
    lemma_first_distinctive_skip(ws, m);
}

} // verus!
