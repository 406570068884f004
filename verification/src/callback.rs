use vstd::prelude::*;

use crate::text::{chars_of, first_index, lemma_first_index, lemma_first_index_found, string_of};

verus! {

/// What the bank's redirect brought back: the authorization code, or an
/// error description.
#[derive(Debug, Clone)]
pub struct CallbackResult {
    pub code: Option<String>,
    pub error: Option<String>,
}

pub open spec fn is_char(c: char) -> spec_fn(char) -> bool {
    |x: char| x == c
}

/// `s` cut at every `sep`, the pieces in order (`str::split`).
pub open spec fn split_by(s: Seq<char>, sep: char) -> Seq<Seq<char>>
    decreases s.len(),
{
    if s.len() == 0 {
        seq![Seq::<char>::empty()]
    } else {
        let ps = split_by(s.drop_last(), sep);
        if s.last() == sep {
            ps.push(Seq::<char>::empty())
        } else {
            ps.update(ps.len() - 1, ps.last().push(s.last()))
        }
    }
}

/// A `name=value` pair's name (all of it without `=`) and value (after the
/// first `=`, none without one).
pub open spec fn pair_name(p: Seq<char>) -> Seq<char> {
    match first_index(p, is_char('=')) {
        Some(e) => p.take(e),
        None => p,
    }
}

pub open spec fn pair_value(p: Seq<char>) -> Option<Seq<char>> {
    match first_index(p, is_char('=')) {
        Some(e) => Some(p.skip(e + 1)),
        None => None,
    }
}

/// The first pair named `param` decides: its value, if it has one.
pub open spec fn find_param(pairs: Seq<Seq<char>>, param: Seq<char>) -> Option<Option<Seq<char>>>
    decreases pairs.len(),
{
    if pairs.len() == 0 {
        None
    } else if pair_name(pairs[0]) == param {
        Some(pair_value(pairs[0]))
    } else {
        find_param(pairs.drop_first(), param)
    }
}

/// The query of a URL: after the first `?`, up to the first `#`.
pub open spec fn url_query(url: Seq<char>) -> Option<Seq<char>> {
    match first_index(url, is_char('?')) {
        Some(q) => {
            let rest = url.skip(q + 1);
            Some(
                match first_index(rest, is_char('#')) {
                    Some(f) => rest.take(f),
                    None => rest,
                },
            )
        },
        None => None,
    }
}

/// The value of query parameter `param` in a URL.
pub open spec fn query_param_spec(url: Seq<char>, param: Seq<char>) -> Option<Seq<char>> {
    match url_query(url) {
        Some(q) => match find_param(split_by(q, '&'), param) {
            Some(v) => v,
            None => None,
        },
        None => None,
    }
}

fn find_char(v: &Vec<char>, from: usize, c: char) -> (r: Option<usize>)
    requires
        from <= v@.len(),
    ensures
        match r {
            Some(j) => from <= j < v@.len() && v@[j as int] == c && first_index(v@.skip(from as int), is_char(c))
                == Some(j - from),
            None => first_index(v@.skip(from as int), is_char(c)) is None,
        },
{
    let ghost s = v@.skip(from as int);
    let ghost p = is_char(c);
    let mut i: usize = from;
    while i < v.len()
        invariant
            from <= i <= v@.len(),
            s == v@.skip(from as int),
            p == is_char(c),
            forall|k: int| 0 <= k < i - from ==> !p(#[trigger] s[k]),
        decreases v.len() - i,
    {
        if v[i] == c {
            proof {
                assert(s[i - from] == v@[i as int]);
                lemma_first_index(s, p, i - from);
            }
            return Some(i);
        }
        assert(s[i - from] == v@[i as int]);
        i = i + 1;
    }
    proof {
        lemma_first_index(s, p, i - from);
    }
    None
}

fn copy_range(v: &Vec<char>, from: usize, to: usize) -> (r: Vec<char>)
    requires
        from <= to <= v@.len(),
    ensures
        r@ == v@.subrange(from as int, to as int),
{
    let mut out: Vec<char> = Vec::new();
    let mut i: usize = from;
    while i < to
        invariant
            from <= i <= to <= v@.len(),
            out@ == v@.subrange(from as int, i as int),
        decreases to - i,
    {
        out.push(v[i]);
        i = i + 1;
        assert(out@ =~= v@.subrange(from as int, i as int));
    }
    out
}

proof fn lemma_split_step(s: Seq<char>, sep: char, i: int)
    requires
        0 <= i < s.len(),
    ensures
        split_by(s.take(i + 1), sep) == if s[i] == sep {
            split_by(s.take(i), sep).push(Seq::<char>::empty())
        } else {
            split_by(s.take(i), sep).update(
                split_by(s.take(i), sep).len() - 1,
                split_by(s.take(i), sep).last().push(s[i]),
            )
        },
{
    assert(s.take(i + 1).drop_last() =~= s.take(i));
    assert(s.take(i + 1).last() == s[i]);
}

proof fn lemma_split_nonempty(s: Seq<char>, sep: char)
    ensures
        split_by(s, sep).len() >= 1,
    decreases s.len(),
{
    if s.len() > 0 {
        lemma_split_nonempty(s.drop_last(), sep);
    }
}

/// The pieces of `q` between `&`s.
fn split_pairs(q: &Vec<char>) -> (r: Vec<Vec<char>>)
    ensures
        r@.len() == split_by(q@, '&').len(),
        forall|k: int| 0 <= k < r@.len() ==> (#[trigger] r@[k])@ == split_by(q@, '&')[k],
{
    let mut pairs: Vec<Vec<char>> = Vec::new();
    let mut cur: Vec<char> = Vec::new();
    let mut i: usize = 0;
    assert(q@.take(0) =~= Seq::<char>::empty());
    while i < q.len()
        invariant
            i <= q@.len(),
            pairs@.len() + 1 == split_by(q@.take(i as int), '&').len(),
            forall|k: int| 0 <= k < pairs@.len() ==> (#[trigger] pairs@[k])@ == split_by(q@.take(i as int), '&')[k],
            cur@ == split_by(q@.take(i as int), '&').last(),
        decreases q.len() - i,
    {
        proof {
            lemma_split_step(q@, '&', i as int);
            lemma_split_nonempty(q@.take(i as int), '&');
        }
        if q[i] == '&' {
            let done = cur;
            pairs.push(done);
            cur = Vec::new();
        } else {
            cur.push(q[i]);
        }
        i = i + 1;
    }
    assert(q@.take(q@.len() as int) =~= q@);
    let ghost before = pairs@;
    pairs.push(cur);
    proof {
        assert forall|k: int| 0 <= k < pairs@.len() implies (#[trigger] pairs@[k])@ == split_by(q@, '&')[k] by {
            if k < before.len() {
                assert(pairs@[k] == before[k]);
            }
        }
    }
    pairs
}

fn chars_eq(a: &Vec<char>, b: &Vec<char>) -> (r: bool)
    ensures
        r == (a@ == b@),
{
    if a.len() != b.len() {
        return false;
    }
    let mut i: usize = 0;
    while i < a.len()
        invariant
            i <= a@.len(),
            a@.len() == b@.len(),
            forall|k: int| 0 <= k < i ==> a@[k] == b@[k],
        decreases a.len() - i,
    {
        if a[i] != b[i] {
            return false;
        }
        i = i + 1;
    }
    assert(a@ =~= b@);
    true
}

/// The value of query parameter `param` in a URL: after the first `?` and
/// before any `#`, the first `&`-separated pair whose name is `param`.
pub fn parse_query_param(url: &str, param: &str) -> (r: Option<String>)
    ensures
        match r {
            Some(v) => query_param_spec(url@, param@) == Some(v@),
            None => query_param_spec(url@, param@) is None,
        },
{
    let u = chars_of(url);
    let pv = chars_of(param);
    let qr = find_char(&u, 0, '?');
    assert(u@.skip(0) =~= u@);
    assert(first_index(u@, is_char('?')) == first_index(u@.skip(0), is_char('?')));
    let qpos = match qr {
        Some(q) => q,
        None => {
            return None;
        },
    };
    let start = qpos + 1;
    let end = match find_char(&u, start, '#') {
        Some(f) => f,
        None => u.len(),
    };
    let query = copy_range(&u, start, end);
    proof {
        let rest = url@.skip(start as int);
        match first_index(rest, is_char('#')) {
            Some(f) => {
                lemma_first_index_found(rest, is_char('#'));
                assert(query@ =~= rest.take(f));
            },
            None => {
                assert(query@ =~= rest);
            },
        }
        assert(u@ == url@);
        assert(first_index(url@, is_char('?')) == Some(qpos as int));
        assert(url_query(url@) == Some(query@));
    }
    let pairs = split_pairs(&query);
    let ghost all = split_by(query@, '&');
    let mut k: usize = 0;
    assert(all.skip(0) =~= all);
    while k < pairs.len()
        invariant
            k <= pairs@.len(),
            pairs@.len() == all.len(),
            forall|j: int| 0 <= j < pairs@.len() ==> (#[trigger] pairs@[j])@ == all[j],
            find_param(all, param@) == find_param(all.skip(k as int), param@),
            pv@ == param@,
            all == split_by(query@, '&'),
            url_query(url@) == Some(query@),
        decreases pairs.len() - k,
    {
        let p = &pairs[k];
        assert(all.skip(k as int)[0] == all[k as int]);
        let eq = find_char(p, 0, '=');
        assert(p@.skip(0) =~= p@);
        assert(first_index(p@, is_char('=')) == first_index(p@.skip(0), is_char('=')));
        let name = match eq {
            Some(e) => copy_range(p, 0, e),
            None => copy_range(p, 0, p.len()),
        };
        proof {
            match first_index(p@, is_char('=')) {
                Some(e) => {
                    lemma_first_index_found(p@, is_char('='));
                    assert(name@ =~= p@.take(e));
                },
                None => {
                    assert(name@ =~= p@);
                },
            }
        }
        if chars_eq(&name, &pv) {
            match eq {
                Some(e) => {
                    let v = copy_range(p, e + 1, p.len());
                    proof {
                        lemma_first_index_found(p@, is_char('='));
                        assert(v@ =~= p@.skip(e + 1));
                    }
                    return Some(string_of(&v));
                },
                None => {
                    return None;
                },
            }
        }
        assert(all.skip(k as int).drop_first() =~= all.skip(k + 1));
        k = k + 1;
    }
    None
}

/// The code and error that the redirect URL carries.
pub fn callback_result(url: &str) -> (r: CallbackResult)
    ensures
        match r.code {
            Some(c) => query_param_spec(url@, "code"@) == Some(c@),
            None => query_param_spec(url@, "code"@) is None,
        },
        match r.error {
            Some(e) => query_param_spec(url@, "error"@) == Some(e@),
            None => query_param_spec(url@, "error"@) is None,
        },
{
    CallbackResult { code: parse_query_param(url, "code"), error: parse_query_param(url, "error") }
}

} // verus!
