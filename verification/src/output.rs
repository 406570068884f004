use vstd::prelude::*;
use vstd::string::StringSliceAdditionalSpecFns;
use vstd::utf8::{decode_utf8, encode_utf8, encode_utf8_decode_utf8, is_char_boundary};

use crate::text::{chars_of, concat, copy_str, push_char, push_str, views};

verus! {

/// The UTF-8 bytes of a text.
pub open spec fn bytes_of(s: Seq<char>) -> Seq<u8> {
    encode_utf8(s)
}

/// The text of a byte range of a string (the range lies on character
/// boundaries).
pub open spec fn byte_slice(s: Seq<char>, from: int, to: int) -> Seq<char> {
    decode_utf8(bytes_of(s).subrange(from, to))
}

/// The IBAN is cut only on character boundaries.
pub open spec fn display_name_defined(alias: Seq<char>, iban: Seq<char>) -> bool {
    alias.len() > 0 && bytes_of(iban).len() > 9 ==> is_char_boundary(bytes_of(iban), 4) && is_char_boundary(
        bytes_of(iban),
        bytes_of(iban).len() - 5,
    )
}

/// The number of bytes of a text's UTF-8 encoding (`str::len`).
pub fn byte_count(s: &str) -> (r: usize)
    ensures
        r == bytes_of(s@).len(),
{
    s.as_bytes().len()
}

pub open spec fn display_name_spec(alias: Seq<char>, iban: Seq<char>) -> Seq<char> {
    if alias.len() == 0 {
        iban
    } else {
        let n = bytes_of(iban).len() as int;
        let suffix = if n > 9 {
            byte_slice(iban, 0, 4) + "..."@ + byte_slice(iban, n - 5, n)
        } else {
            iban
        };
        alias + " ("@ + suffix + ")"@
    }
}

/// Whether the account's name can be formed (`display_name_defined`).
pub fn display_name_accepts(alias: &str, iban: &str) -> (r: bool)
    ensures
        r == display_name_defined(alias@, iban@),
{
    let n = byte_count(iban);
    !(!alias.is_empty() && n > 9) || (iban.is_char_boundary(4) && iban.is_char_boundary(n - 5))
}

/// Returns a human-friendly account label.
///
/// With alias: `"principal (FR76...65133)"`. Without: full IBAN.
pub fn account_display_name(alias: &str, iban: &str) -> (r: String)
    requires
        display_name_defined(alias@, iban@),
    ensures
        r@ == display_name_spec(alias@, iban@),
{
    if alias.is_empty() {
        return copy_str(iban);
    }
    let n = byte_count(iban);
    let mut r = concat(alias, " (");
    if n > 9 {
        let (head, _) = iban.split_at(4);
        let (_, tail) = iban.split_at(n - 5);
        proof {
            encode_utf8_decode_utf8(head@);
            encode_utf8_decode_utf8(tail@);
        }
        push_str(&mut r, head);
        push_str(&mut r, "...");
        push_str(&mut r, tail);
    } else {
        push_str(&mut r, iban);
    }
    push_str(&mut r, ")");
    r
}

/// The IBAN is cut only on a character boundary.
pub open spec fn iban_suffix_defined(iban: Seq<char>, n: usize) -> bool {
    bytes_of(iban).len() > n ==> is_char_boundary(bytes_of(iban), bytes_of(iban).len() - n)
}

pub open spec fn iban_suffix_spec(iban: Seq<char>, n: usize) -> Seq<char> {
    let len = bytes_of(iban).len() as int;
    if len <= n {
        iban
    } else {
        "..."@ + byte_slice(iban, len - n, len)
    }
}

/// Whether the IBAN can be cut `n` bytes from its end (`iban_suffix_defined`).
pub fn iban_suffix_accepts(iban: &str, n: usize) -> (r: bool)
    ensures
        r == iban_suffix_defined(iban@, n),
{
    let len = byte_count(iban);
    len <= n || iban.is_char_boundary(len - n)
}

/// Returns the last `n` bytes of an IBAN, prefixed with `"..."`.
pub fn iban_suffix(iban: &str, n: usize) -> (r: String)
    requires
        iban_suffix_defined(iban@, n),
    ensures
        r@ == iban_suffix_spec(iban@, n),
{
    let len = byte_count(iban);
    if len <= n {
        return copy_str(iban);
    }
    let (_, tail) = iban.split_at(len - n);
    proof {
        encode_utf8_decode_utf8(tail@);
    }
    concat("...", tail)
}

/// Printer formats output as table (borderless), JSON, or CSV.
pub struct Printer {
    pub json: bool,
    pub csv: bool,
}

/// A field needs quoting when it holds a comma, a quote or a line break.
pub open spec fn needs_quoting(field: Seq<char>) -> bool {
    field.contains(',') || field.contains('"') || field.contains('\n') || field.contains('\r')
}

/// The field with each quote doubled.
pub open spec fn double_quotes(field: Seq<char>) -> Seq<char>
    decreases field.len(),
{
    if field.len() == 0 {
        Seq::<char>::empty()
    } else {
        let rest = double_quotes(field.drop_last());
        if field.last() == '"' {
            rest + seq!['"', '"']
        } else {
            rest.push(field.last())
        }
    }
}

pub open spec fn escape_csv_spec(field: Seq<char>) -> Seq<char> {
    if needs_quoting(field) {
        seq!['"'] + double_quotes(field) + seq!['"']
    } else {
        field
    }
}

/// One CSV field: quoted, with quotes doubled, when it holds a comma, a quote
/// or a line break.
pub fn escape_csv_field(field: &str) -> (r: String)
    ensures
        r@ == escape_csv_spec(field@),
{
    let cs = chars_of(field);
    let mut quote = false;
    let mut body = String::new();
    let mut i: usize = 0;
    while i < cs.len()
        invariant
            i <= cs@.len(),
            cs@ == field@,
            body@ == double_quotes(field@.take(i as int)),
            quote == (field@.take(i as int).contains(',') || field@.take(i as int).contains('"')
                || field@.take(i as int).contains('\n') || field@.take(i as int).contains('\r')),
        decreases cs.len() - i,
    {
        let c = cs[i];
        let ghost pre = field@.take(i as int);
        let ghost post = field@.take(i + 1);
        proof {
            assert(post.drop_last() =~= pre);
            assert(post.last() == c);
            assert forall|x: char| post.contains(x) <==> (pre.contains(x) || x == c) by {
                if post.contains(x) {
                    let j = choose|j: int| 0 <= j < post.len() && post[j] == x;
                    if j < pre.len() {
                        assert(pre[j] == x);
                    }
                }
                if pre.contains(x) {
                    let j = choose|j: int| 0 <= j < pre.len() && pre[j] == x;
                    assert(post[j] == x);
                }
                if x == c {
                    assert(post[i as int] == x);
                }
            }
        }
        if c == ',' || c == '"' || c == '\n' || c == '\r' {
            quote = true;
        }
        if c == '"' {
            push_char(&mut body, '"');
            push_char(&mut body, '"');
        } else {
            push_char(&mut body, c);
        }
        i = i + 1;
    }
    assert(field@.take(cs@.len() as int) =~= field@);
    if quote {
        let mut r = String::new();
        push_char(&mut r, '"');
        push_str(&mut r, body.as_str());
        push_char(&mut r, '"');
        assert(r@ =~= seq!['"'] + double_quotes(field@) + seq!['"']);
        r
    } else {
        proof {
            lemma_double_quotes_plain(field@);
        }
        copy_str(field)
    }
}

proof fn lemma_double_quotes_plain(s: Seq<char>)
    requires
        !s.contains('"'),
    ensures
        double_quotes(s) == s,
    decreases s.len(),
{
    if s.len() > 0 {
        assert(!s.drop_last().contains('"')) by {
            if s.drop_last().contains('"') {
                let j = choose|j: int| 0 <= j < s.drop_last().len() && s.drop_last()[j] == '"';
                assert(s[j] == '"');
            }
        }
        lemma_double_quotes_plain(s.drop_last());
        assert(s.last() != '"') by {
            assert(s[s.len() - 1] == s.last());
        }
        assert(s.drop_last().push(s.last()) =~= s);
    }
}

/// The escaped fields, separated by commas.
pub open spec fn csv_fields(fields: Seq<Seq<char>>) -> Seq<char>
    decreases fields.len(),
{
    if fields.len() == 0 {
        Seq::<char>::empty()
    } else if fields.len() == 1 {
        escape_csv_spec(fields[0])
    } else {
        csv_fields(fields.drop_last()) + ","@ + escape_csv_spec(fields.last())
    }
}

/// One CSV line: the escaped fields separated by commas, then a newline.
pub open spec fn csv_line(fields: Seq<Seq<char>>) -> Seq<char> {
    csv_fields(fields) + "\n"@
}

/// Appends one CSV record to `w`.
pub fn write_csv_record(w: &mut String, fields: &[String])
    ensures
        final(w)@ == old(w)@ + csv_line(views(fields@)),
{
    let ghost start = w@;
    let mut idx: usize = 0;
    while idx < fields.len()
        invariant
            idx <= fields@.len(),
            w@ == start + csv_fields(views(fields@).take(idx as int)),
        decreases fields.len() - idx,
    {
        let ghost pre = views(fields@).take(idx as int);
        let ghost post = views(fields@).take(idx + 1);
        proof {
            assert(post.drop_last() =~= pre);
            assert(post.last() == fields@[idx as int]@);
        }
        if idx > 0 {
            push_str(w, ",");
        }
        let e = escape_csv_field(fields[idx].as_str());
        push_str(w, e.as_str());
        proof {
            if idx == 0 {
                assert(pre.len() == 0);
                assert(w@ =~= start + csv_fields(post));
            } else {
                assert(w@ =~= start + csv_fields(post));
            }
        }
        idx = idx + 1;
    }
    assert(views(fields@).take(fields@.len() as int) =~= views(fields@));
    push_str(w, "\n");
    assert(w@ =~= start + csv_line(views(fields@)));
}

/// The CSV text of a header line and rows.
pub open spec fn csv_text(headers: Seq<Seq<char>>, rows: Seq<Seq<Seq<char>>>) -> Seq<char>
    decreases rows.len(),
{
    if rows.len() == 0 {
        csv_line(headers)
    } else {
        csv_text(headers, rows.drop_last()) + csv_line(rows.last())
    }
}

pub open spec fn row_views(rows: Seq<Vec<String>>) -> Seq<Seq<Seq<char>>> {
    rows.map_values(|r: Vec<String>| views(r@))
}

/// The borderless table that `tabled` renders for a header row and data
/// rows.
pub uninterp spec fn table_text(headers: Seq<Seq<char>>, rows: Seq<Seq<Seq<char>>>) -> Seq<char>;

/// Calls `tabled`'s `Builder` (one record for the headers, then one per
/// row), builds the table in the blank style and formats it. Claimed: the
/// text depends on the cells alone; what it looks like is left to `tabled`.
#[verifier::external_body]
fn render_table(headers: Vec<String>, rows: Vec<Vec<String>>) -> (r: String)
    ensures
        r@ == table_text(views(headers@), row_views(rows@)),
{
    let mut builder = tabled::builder::Builder::default();
    builder.push_record(headers);
    for row in rows {
        builder.push_record(row);
    }
    let mut table = builder.build();
    table.with(tabled::settings::Style::blank());
    format!("{table}")
}

impl Printer {
    /// Appends headers and rows as a borderless table to `w`.
    pub fn print_table_to(&self, w: &mut String, headers: Vec<String>, rows: Vec<Vec<String>>)
        ensures
            final(w)@ == old(w)@ + table_text(views(headers@), row_views(rows@)),
    {
        let t = render_table(headers, rows);
        push_str(w, t.as_str());
    }

    /// What `print_table` appends: CSV when the printer is in CSV mode,
    /// else the borderless table.
    pub open spec fn table_output(&self, headers: Seq<Seq<char>>, rows: Seq<Seq<Seq<char>>>) -> Seq<char> {
        if self.csv {
            csv_text(headers, rows)
        } else {
            table_text(headers, rows)
        }
    }

    /// Appends headers and rows to `w`, as CSV in CSV mode and as a table
    /// otherwise.
    pub fn print_table(&self, w: &mut String, headers: Vec<String>, rows: Vec<Vec<String>>)
        ensures
            final(w)@ == old(w)@ + self.table_output(views(headers@), row_views(rows@)),
    {
        if self.csv {
            self.print_csv_to(w, headers, rows)
        } else {
            self.print_table_to(w, headers, rows)
        }
    }

    /// `print_table`, then, when the footer is not empty, a blank line and
    /// the footer on a line of its own.
    pub fn print_table_with_footer(&self, w: &mut String, headers: Vec<String>, rows: Vec<Vec<String>>, footer: &str)
        ensures
            final(w)@ == old(w)@ + self.table_output(views(headers@), row_views(rows@)) + (if footer@.len() > 0 {
                "\n"@ + footer@ + "\n"@
            } else {
                Seq::<char>::empty()
            }),
    {
        self.print_table(w, headers, rows);
        if !footer.is_empty() {
            push_str(w, "\n");
            push_str(w, footer);
            push_str(w, "\n");
        }
    }

    /// Appends headers and rows as CSV to `w`.
    pub fn print_csv_to(&self, w: &mut String, headers: Vec<String>, rows: Vec<Vec<String>>)
        ensures
            final(w)@ == old(w)@ + csv_text(views(headers@), row_views(rows@)),
    {
        let ghost start = w@;
        write_csv_record(w, headers.as_slice());
        let mut i: usize = 0;
        while i < rows.len()
            invariant
                i <= rows@.len(),
                w@ == start + csv_text(views(headers@), row_views(rows@).take(i as int)),
            decreases rows.len() - i,
        {
            let ghost before = w@;
            write_csv_record(w, rows[i].as_slice());
            proof {
                let pre = row_views(rows@).take(i as int);
                let post = row_views(rows@).take(i + 1);
                assert(post.drop_last() =~= pre);
                assert(post.last() == views(rows@[i as int]@));
                assert(w@ =~= start + csv_text(views(headers@), post));
            }
            i = i + 1;
        }
        assert(row_views(rows@).take(rows@.len() as int) =~= row_views(rows@));
    }
}

} // verus!
