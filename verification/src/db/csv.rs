//! CSV lines: fields separated by commas; a field holding a comma, a quote
//! or a newline is put in quotes, with each quote inside doubled.
use vstd::prelude::*;
use crate::db::types::DbType;
use crate::http::is_white_space;
use crate::text::{
    chars_of, decimal_value, digits_len, is_digit, lemma_digits_prefix, rest_is, string_from_chars,
};

verus! {

/// The field must be put in quotes.
pub open spec fn needs_quote(f: Seq<char>) -> bool {
    f.contains(',') || f.contains('"') || f.contains('\n')
}

/// The field with each quote doubled.
pub open spec fn escape_quotes(f: Seq<char>) -> Seq<char>
    decreases f.len(),
{
    if f.len() == 0 {
        Seq::empty()
    } else {
        escape_quotes(f.drop_last()) + if f.last() == '"' {
            seq!['"', '"']
        } else {
            seq![f.last()]
        }
    }
}

/// The field as written in a line.
pub open spec fn encode_field(f: Seq<char>) -> Seq<char> {
    if needs_quote(f) {
        seq!['"'] + escape_quotes(f) + seq!['"']
    } else {
        f
    }
}

/// The fields written as one line, without its newline.
pub open spec fn csv_text(fields: Seq<Seq<char>>) -> Seq<char>
    decreases fields.len(),
{
    if fields.len() == 0 {
        Seq::empty()
    } else if fields.len() == 1 {
        encode_field(fields[0])
    } else {
        csv_text(fields.drop_last()) + seq![','] + encode_field(fields.last())
    }
}

/// The characters of the strings.
pub open spec fn texts(v: Seq<String>) -> Seq<Seq<char>> {
    v.map_values(|s: String| s@)
}

/// Appends the characters of `f` to `out`.
pub(crate) fn push_all(out: &mut Vec<char>, f: &Vec<char>)
    ensures
        final(out)@ == old(out)@ + f@,
{
    let mut i: usize = 0;
    while i < f.len()
        invariant
            i <= f.len(),
            out@ == old(out)@ + f@.take(i as int),
        decreases f.len() - i,
    {
        out.push(f[i]);
        i = i + 1;
        assert(f@.take(i as int) == f@.take(i - 1) + seq![f@[i - 1]]);
    }
    assert(f@.take(f@.len() as int) == f@);
}

proof fn lemma_take_contains(f: Seq<char>, i: int, c: char)
    requires
        0 <= i < f.len(),
    ensures
        f.take(i + 1).contains(c) == (f.take(i).contains(c) || f[i] == c),
{
    if f.take(i).contains(c) {
        let j = choose|j: int| 0 <= j < i && #[trigger] f.take(i)[j] == c;
        assert(f.take(i + 1)[j] == c);
    }
    if f[i] == c {
        assert(f.take(i + 1)[i] == c);
    }
    if f.take(i + 1).contains(c) {
        let j = choose|j: int| 0 <= j < i + 1 && #[trigger] f.take(i + 1)[j] == c;
        if j < i {
            assert(f.take(i)[j] == c);
        }
    }
}

/// The field as written (see [`encode_field`]).
fn encode(f: &Vec<char>) -> (e: Vec<char>)
    ensures
        e@ == encode_field(f@),
{
    let mut needs = false;
    let mut i: usize = 0;
    while i < f.len()
        invariant
            i <= f.len(),
            needs == (f@.take(i as int).contains(',') || f@.take(i as int).contains('"')
                || f@.take(i as int).contains('\n')),
        decreases f.len() - i,
    {
        let c = f[i];
        proof {
            lemma_take_contains(f@, i as int, ',');
            lemma_take_contains(f@, i as int, '"');
            lemma_take_contains(f@, i as int, '\n');
        }
        if c == ',' || c == '"' || c == '\n' {
            needs = true;
        }
        i = i + 1;
    }
    assert(f@.take(f@.len() as int) == f@);
    if !needs {
        let mut e = Vec::new();
        push_all(&mut e, f);
        return e;
    }
    let mut e: Vec<char> = Vec::new();
    e.push('"');
    let mut k: usize = 0;
    while k < f.len()
        invariant
            k <= f.len(),
            e@ == seq!['"'] + escape_quotes(f@.take(k as int)),
        decreases f.len() - k,
    {
        let c = f[k];
        proof {
            assert(f@.take(k + 1).drop_last() == f@.take(k as int));
        }
        if c == '"' {
            e.push('"');
            e.push('"');
        } else {
            e.push(c);
        }
        k = k + 1;
    }
    e.push('"');
    e
}

/// The line that writing `fields` as CSV puts out, newline included (see
/// [`csv_text`]).
pub fn write_csv_line(fields: &[String]) -> (line: String)
    ensures
        line@ == csv_text(texts(fields@)) + seq!['\n'],
{
    let mut out: Vec<char> = Vec::new();
    let mut i: usize = 0;
    while i < fields.len()
        invariant
            i <= fields@.len(),
            out@ == csv_text(texts(fields@).take(i as int)),
        decreases fields.len() - i,
    {
        let f = chars_of(fields[i].as_str());
        proof {
            assert(texts(fields@).take(i + 1).drop_last() == texts(fields@).take(i as int));
        }
        if i > 0 {
            out.push(',');
        }
        let e = encode(&f);
        push_all(&mut out, &e);
        i = i + 1;
    }
    assert(texts(fields@).take(fields@.len() as int) == texts(fields@));
    out.push('\n');
    string_from_chars(out)
}

/// The lines of a CSV document for the given rows, each row as written by
/// [`write_csv_line`].
pub open spec fn csv_lines(rows: Seq<Seq<Seq<char>>>) -> Seq<char>
    decreases rows.len(),
{
    if rows.len() == 0 {
        seq![]
    } else {
        csv_lines(rows.drop_last()) + csv_text(rows.last()) + seq!['\n']
    }
}

/// The text of a CSV document: a header line of the names, then a line per
/// row; nothing at all when there are no names.
pub fn csv_document(names: &Vec<String>, rows: &Vec<Vec<String>>) -> (doc: String)
    ensures
        doc@ == if names@.len() == 0 {
            Seq::<char>::empty()
        } else {
            csv_lines(seq![texts(names@)] + rows@.map_values(|r: Vec<String>| texts(r@)))
        },
{
    if names.len() == 0 {
        return String::new();
    }
    let ghost all = seq![texts(names@)] + rows@.map_values(|r: Vec<String>| texts(r@));
    let mut out: Vec<char> = Vec::new();
    let ns = names.as_slice();
    assert(ns@ == names@);
    let head = write_csv_line(ns);
    let hc = chars_of(head.as_str());
    push_all(&mut out, &hc);
    assert(all.take(1).drop_last() =~= Seq::<Seq<Seq<char>>>::empty());
    assert(all.take(1).last() == texts(names@));
    assert(csv_lines(all.take(1).drop_last()) =~= Seq::<char>::empty());
    assert(out@ =~= csv_lines(all.take(1)));
    let mut r: usize = 0;
    while r < rows.len()
        invariant
            r <= rows@.len(),
            all == seq![texts(names@)] + rows@.map_values(|r: Vec<String>| texts(r@)),
            out@ == csv_lines(all.take(r + 1)),
        decreases rows@.len() - r,
    {
        let rs = rows[r].as_slice();
        assert(rs@ == rows@[r as int]@);
        let line = write_csv_line(rs);
        let lc = chars_of(line.as_str());
        push_all(&mut out, &lc);
        proof {
            assert(all.take(r + 2).drop_last() =~= all.take(r + 1));
            assert(all.take(r + 2).last() == texts(rows@[r as int]@));
        }
        r = r + 1;
    }
    assert(all.take(r + 1) =~= all);
    string_from_chars(out)
}

/// The fields of `s` read from position `i` on, with the fields before it,
/// the field read so far and whether a quote is open: a quote outside a
/// field opens; inside, a doubled quote stands for one quote and another
/// quote closes; a comma outside quotes ends the field; anything else is
/// part of the field.
pub open spec fn split_from(
    s: Seq<char>,
    i: nat,
    fields: Seq<Seq<char>>,
    cur: Seq<char>,
    in_quotes: bool,
) -> Seq<Seq<char>>
    decreases s.len() - i,
{
    if i >= s.len() {
        fields.push(cur)
    } else {
        let c = s[i as int];
        if c == '"' && !in_quotes {
            split_from(s, i + 1, fields, cur, true)
        } else if c == '"' && in_quotes {
            if i + 1 < s.len() && s[(i + 1) as int] == '"' {
                split_from(s, i + 2, fields, cur.push('"'), true)
            } else {
                split_from(s, i + 1, fields, cur, false)
            }
        } else if c == ',' && !in_quotes {
            split_from(s, i + 1, fields.push(cur), Seq::empty(), false)
        } else {
            split_from(s, i + 1, fields, cur.push(c), in_quotes)
        }
    }
}

/// The fields of a CSV line (see [`split_from`]).
pub open spec fn csv_fields(s: Seq<char>) -> Seq<Seq<char>> {
    split_from(s, 0, Seq::empty(), Seq::empty(), false)
}

/// Splits a CSV line into its fields (see [`csv_fields`]).
pub fn split_csv_line(line: &str) -> (fields: Vec<String>)
    ensures
        texts(fields@) == csv_fields(line@),
{
    let s = chars_of(line);
    let mut fields: Vec<String> = Vec::new();
    let mut current: Vec<char> = Vec::new();
    let mut in_quotes = false;
    let mut i: usize = 0;
    assert(texts(fields@) =~= Seq::<Seq<char>>::empty());
    while i < s.len()
        invariant
            i <= s.len(),
            s@ == line@,
            split_from(s@, i as nat, texts(fields@), current@, in_quotes) == csv_fields(line@),
        decreases s.len() - i,
    {
        let c = s[i];
        if c == '"' && !in_quotes {
            in_quotes = true;
            i = i + 1;
        } else if c == '"' && in_quotes {
            if i + 1 < s.len() && s[i + 1] == '"' {
                current.push('"');
                i = i + 2;
            } else {
                in_quotes = false;
                i = i + 1;
            }
        } else if c == ',' && !in_quotes {
            let ghost before = texts(fields@);
            let done = string_from_chars(current);
            fields.push(done);
            assert(texts(fields@) == before.push(done@));
            current = Vec::new();
            i = i + 1;
        } else {
            current.push(c);
            i = i + 1;
        }
    }
    let ghost before = texts(fields@);
    let done = string_from_chars(current);
    fields.push(done);
    assert(texts(fields@) == before.push(done@));
    fields
}

proof fn lemma_escape_prefix(f: Seq<char>, j: int, m: int)
    requires
        0 <= j <= m <= f.len(),
    ensures
        escape_quotes(f.take(j)).len() <= escape_quotes(f.take(m)).len(),
        escape_quotes(f.take(m)).take(escape_quotes(f.take(j)).len() as int) == escape_quotes(
            f.take(j),
        ),
    decreases m - j,
{
    if j < m {
        lemma_escape_prefix(f, j, m - 1);
        assert(f.take(m).drop_last() == f.take(m - 1));
        let a = escape_quotes(f.take(j));
        let b = escape_quotes(f.take(m - 1));
        let c = escape_quotes(f.take(m));
        assert(c.take(a.len() as int) =~= b.take(a.len() as int));
    } else {
        assert(escape_quotes(f.take(m)).take(escape_quotes(f.take(j)).len() as int) =~= escape_quotes(
            f.take(j),
        ));
    }
}

proof fn lemma_scan_plain(s: Seq<char>, p: int, fields: Seq<Seq<char>>, f: Seq<char>, j: int)
    requires
        0 <= p,
        0 <= j <= f.len(),
        !needs_quote(f),
        p + f.len() <= s.len(),
        forall|i: int| 0 <= i < f.len() ==> s[p + i] == f[i],
    ensures
        split_from(s, (p + j) as nat, fields, f.take(j), false) == split_from(
            s,
            (p + f.len()) as nat,
            fields,
            f,
            false,
        ),
    decreases f.len() - j,
{
    if j < f.len() {
        assert(s[p + j] == f[j]);
        assert(f[j] != '"' && f[j] != ',') by {
            if f[j] == '"' {
                assert(f.contains('"'));
            }
            if f[j] == ',' {
                assert(f.contains(','));
            }
        }
        assert(f.take(j).push(f[j]) =~= f.take(j + 1));
        lemma_scan_plain(s, p, fields, f, j + 1);
    } else {
        assert(f.take(j) =~= f);
    }
}

proof fn lemma_scan_quoted(s: Seq<char>, q0: int, fields: Seq<Seq<char>>, f: Seq<char>, j: int)
    requires
        0 <= q0,
        0 <= j <= f.len(),
        q0 + escape_quotes(f).len() <= s.len(),
        forall|i: int| 0 <= i < escape_quotes(f).len() ==> s[q0 + i] == escape_quotes(f)[i],
    ensures
        split_from(s, (q0 + escape_quotes(f.take(j)).len()) as nat, fields, f.take(j), true)
            == split_from(s, (q0 + escape_quotes(f).len()) as nat, fields, f, true),
    decreases f.len() - j,
{
    let esc = escape_quotes(f);
    assert(f.take(f.len() as int) =~= f);
    if j < f.len() {
        let a = escape_quotes(f.take(j));
        let al = a.len() as int;
        let q = q0 + al;
        lemma_escape_prefix(f, j + 1, f.len() as int);
        assert(f.take(j + 1).drop_last() == f.take(j));
        let b = escape_quotes(f.take(j + 1));
        assert(esc.take(b.len() as int) == b);
        assert(b[al] == esc[al]);
        assert(s[q] == esc[al]);
        if f[j] == '"' {
            assert(b[al + 1] == esc[al + 1]);
            assert(s[q + 1] == esc[al + 1]);
        }
        assert(f.take(j).push(f[j]) =~= f.take(j + 1));
        lemma_scan_quoted(s, q0, fields, f, j + 1);
    }
}

/// Reading the encoding of a field from the start of a field, followed by
/// the end of the line or a comma, reads the field.
proof fn lemma_scan_field(s: Seq<char>, p: int, fields: Seq<Seq<char>>, f: Seq<char>)
    requires
        0 <= p,
        p + encode_field(f).len() <= s.len(),
        s.subrange(p, p + encode_field(f).len()) == encode_field(f),
        p + encode_field(f).len() == s.len() || s[p + encode_field(f).len()] == ',',
    ensures
        split_from(s, p as nat, fields, Seq::empty(), false) == split_from(
            s,
            (p + encode_field(f).len()) as nat,
            fields,
            f,
            false,
        ),
{
    let e = encode_field(f);
    assert forall|i: int| 0 <= i < e.len() implies s[p + i] == e[i] by {
        assert(s.subrange(p, p + e.len())[i] == s[p + i]);
    }
    assert(f.take(0) =~= Seq::<char>::empty());
    if !needs_quote(f) {
        lemma_scan_plain(s, p, fields, f, 0);
    } else {
        let esc = escape_quotes(f);
        assert(e == seq!['"'] + esc + seq!['"']);
        assert(s[p] == e[0]);
        assert forall|i: int| 0 <= i < esc.len() implies s[p + 1 + i] == esc[i] by {
            assert(s[p + (1 + i)] == e[1 + i]);
        }
        assert(escape_quotes(f.take(0)) =~= Seq::<char>::empty());
        lemma_scan_quoted(s, p + 1, fields, f, 0);
        let qe = p + 1 + esc.len();
        assert(s[qe] == e[1 + esc.len() as int]);
        assert(qe + 1 == p + e.len());
    }
}

proof fn lemma_text_prefix(fields: Seq<Seq<char>>, k: int, m: int)
    requires
        1 <= k <= m <= fields.len(),
    ensures
        csv_text(fields.take(k)).len() <= csv_text(fields.take(m)).len(),
        csv_text(fields.take(m)).take(csv_text(fields.take(k)).len() as int) == csv_text(
            fields.take(k),
        ),
    decreases m - k,
{
    if k < m {
        lemma_text_prefix(fields, k, m - 1);
        assert(fields.take(m).drop_last() == fields.take(m - 1));
        let a = csv_text(fields.take(k));
        let c = csv_text(fields.take(m));
        let b = csv_text(fields.take(m - 1));
        assert(c.take(a.len() as int) =~= b.take(a.len() as int));
    } else {
        assert(csv_text(fields.take(m)).take(csv_text(fields.take(k)).len() as int) =~= csv_text(
            fields.take(k),
        ));
    }
}

/// Where field `k` of a written line starts.
spec fn field_start(fields: Seq<Seq<char>>, k: int) -> int {
    if k == 0 {
        0
    } else {
        csv_text(fields.take(k)).len() as int + 1
    }
}

proof fn lemma_split_rest(fields: Seq<Seq<char>>, k: int)
    requires
        0 <= k < fields.len(),
    ensures
        split_from(
            csv_text(fields),
            field_start(fields, k) as nat,
            fields.take(k),
            Seq::empty(),
            false,
        ) == fields,
    decreases fields.len() - k,
{
    let n = fields.len() as int;
    let s = csv_text(fields);
    let p = field_start(fields, k);
    let ek = encode_field(fields[k]);
    assert(fields.take(n) == fields);
    lemma_text_prefix(fields, k + 1, n);
    let t = csv_text(fields.take(k + 1));
    assert(fields.take(k + 1).drop_last() == fields.take(k));
    assert(fields.take(k + 1).last() == fields[k]);
    if k == 0 {
        assert(fields.take(1)[0] == fields[0]);
        assert(t == ek);
    } else {
        assert(t == csv_text(fields.take(k)) + seq![','] + ek);
    }
    assert(t.len() == p + ek.len());
    assert(s.take(t.len() as int) == t);
    assert(s.subrange(p, p + ek.len()) =~= ek) by {
        assert forall|i: int| 0 <= i < ek.len() implies s.subrange(p, p + ek.len())[i] == ek[i] by {
            assert(s[p + i] == s.take(t.len() as int)[p + i]);
            assert(t[p + i] == ek[i]);
        }
    }
    if k + 1 < n {
        lemma_text_prefix(fields, k + 2, n);
        let t2 = csv_text(fields.take(k + 2));
        assert(fields.take(k + 2).drop_last() == fields.take(k + 1));
        assert(t2 == t + seq![','] + encode_field(fields.take(k + 2).last()));
        assert(s[p + ek.len()] == s.take(t2.len() as int)[t.len() as int]);
    }
    lemma_scan_field(s, p, fields.take(k), fields[k]);
    if k + 1 < n {
        assert(fields.take(k).push(fields[k]) =~= fields.take(k + 1));
        lemma_split_rest(fields, k + 1);
    } else {
        assert(fields.take(k).push(fields[k]) =~= fields);
    }
}

/// Reading a written line gives back the fields written, whatever they
/// hold; there must be at least one, as an empty line reads as one empty
/// field.
pub proof fn law_split_reads_written(fields: Seq<Seq<char>>)
    requires
        fields.len() >= 1,
    ensures
        csv_fields(csv_text(fields)) == fields,
{
    assert(fields.take(0) =~= Seq::<Seq<char>>::empty());
    lemma_split_rest(fields, 0);
}

/// `s` without its leading white space (see [`is_white_space`]).
pub open spec fn trim_start(s: Seq<char>) -> Seq<char>
    decreases s.len(),
{
    if s.len() > 0 && is_white_space(s[0]) {
        trim_start(s.drop_first())
    } else {
        s
    }
}

/// `s` without its trailing white space (see [`is_white_space`]).
pub open spec fn trim_end(s: Seq<char>) -> Seq<char>
    decreases s.len(),
{
    if s.len() > 0 && is_white_space(s.last()) {
        trim_end(s.drop_last())
    } else {
        s
    }
}

/// The characters of a string with leading and trailing white space removed.
pub open spec fn trimmed(s: Seq<char>) -> Seq<char> {
    trim_end(trim_start(s))
}

/// The characters of a string in Unicode lower case.
pub uninterp spec fn lowercased(s: Seq<char>) -> Seq<char>;

/// `str::trim`: the string without leading and trailing white space, where
/// white space is what has Unicode's `White_Space` property (see
/// [`trimmed`]).
#[verifier::external_body]
pub(crate) fn trim(s: &str) -> (t: &str)
    ensures
        t@ == trimmed(s@),
{
    s.trim()
}

/// `str::to_lowercase`: the string in Unicode lower case, named [`lowercased`].
#[verifier::external_body]
pub(crate) fn to_lowercase(s: &str) -> (r: String)
    ensures
        r@ == lowercased(s@),
{
    s.to_lowercase()
}

/// The text of an `i64`: an optional sign, then one or more ASCII digits
/// whose value fits (down to `-2^63` with a minus sign, up to `2^63 - 1`).
pub open spec fn is_i64_text(t: Seq<char>) -> bool {
    let signed = t.len() > 0 && (t[0] == '-' || t[0] == '+');
    let digits = if signed {
        t.skip(1)
    } else {
        t
    };
    &&& digits.len() > 0
    &&& digits_len(digits) == digits.len()
    &&& if signed && t[0] == '-' {
        decimal_value(digits) <= 9223372036854775808
    } else {
        decimal_value(digits) <= 9223372036854775807
    }
}

/// The value of the text of an `i64` (see [`is_i64_text`]).
pub open spec fn i64_value(t: Seq<char>) -> int {
    if t.len() > 0 && t[0] == '-' {
        -decimal_value(t.skip(1))
    } else if t.len() > 0 && t[0] == '+' {
        decimal_value(t.skip(1)) as int
    } else {
        decimal_value(t) as int
    }
}

/// Reads the text of an `i64` (see [`is_i64_text`]): its value, or nothing
/// for any other text.
pub(crate) fn parse_i64(s: &str) -> (r: Option<i64>)
    ensures
        r == if is_i64_text(s@) {
            Some(i64_value(s@) as i64)
        } else {
            None::<i64>
        },
{
    let cs = chars_of(s);
    let n = cs.len();
    let neg = n > 0 && cs[0] == '-';
    let signed = n > 0 && (cs[0] == '-' || cs[0] == '+');
    let start: usize = if signed {
        1
    } else {
        0
    };
    let ghost t = s@;
    let ghost d = if signed {
        t.skip(1)
    } else {
        t
    };
    assert(d == cs@.skip(start as int));
    if start == n {
        assert(!is_i64_text(s@));
        return None;
    }
    let mut i: usize = start;
    let mut value: u128 = 0;
    let mut too_big = false;
    while i < n
        invariant
            cs@ == t,
            t == s@,
            n == cs@.len(),
            start <= i <= n,
            d == cs@.skip(start as int),
            d == if t.len() > 0 && (t[0] == '-' || t[0] == '+') {
                t.skip(1)
            } else {
                t
            },
            neg == (t.len() > 0 && t[0] == '-'),
            i - start <= digits_len(d),
            !too_big ==> value == decimal_value(d.take(i - start)) && value <= 9223372036854775808,
            too_big ==> decimal_value(d.take(i - start)) > 9223372036854775808,
        decreases n - i,
    {
        proof {
            lemma_digits_prefix(d, (i - start) as int);
        }
        let c = cs[i];
        proof {
            assert(d[i - start] == cs@[i as int]);
        }
        if !('0' <= c && c <= '9') {
            proof {
                assert(!is_digit(d[i - start]));
                assert(digits_len(d) == i - start);
                assert(d.len() == n - start);
            }
            return None;
        }
        proof {
            assert(d.take(i - start + 1).drop_last() =~= d.take(i - start));
            assert(d.take(i - start + 1).last() == c);
        }
        if !too_big {
            value = value * 10 + ((c as u32) - ('0' as u32)) as u128;
            if value > 9223372036854775808 {
                too_big = true;
            }
        }
        i = i + 1;
    }
    proof {
        assert(d.take(i - start) =~= d);
        lemma_digits_prefix(d, (i - start) as int);
    }
    if too_big {
        assert(!is_i64_text(s@));
        return None;
    }
    if neg {
        let v = (0 - (value as i128)) as i64;
        Some(v)
    } else {
        if value > 9223372036854775807 {
            assert(!is_i64_text(s@));
            return None;
        }
        Some(value as i64)
    }
}

/// A word that reads as a boolean.
pub open spec fn is_bool_word(w: Seq<char>) -> bool {
    ||| w == seq!['t', 'r', 'u', 'e']
    ||| w == seq!['f', 'a', 'l', 's', 'e']
    ||| w == seq!['y', 'e', 's']
    ||| w == seq!['n', 'o']
}

/// The type of a trimmed value `t`, whose lower case is `lower`: none for
/// an empty value; a boolean for `true`, `false`, `yes`, `no`; an integer
/// for the text of an `i64`; a double where it parses as one; else none.
pub open spec fn value_type(t: Seq<char>, lower: Seq<char>, is_double: bool) -> Option<DbType> {
    if t.len() == 0 {
        None
    } else if is_bool_word(lower) {
        Some(DbType::Boolean)
    } else if is_i64_text(t) {
        Some(DbType::Integer)
    } else if is_double {
        Some(DbType::Double)
    } else {
        None
    }
}

/// The type of a trimmed value, given its lower case and whether it parses
/// as a double (see [`value_type`]).
pub fn classify_value(t: &str, lower: &str, is_double: bool) -> (r: Option<DbType>)
    ensures
        r == value_type(t@, lower@, is_double),
{
    if t.is_empty() {
        return None;
    }
    let w = chars_of(lower);
    let t1 = ['t', 'r', 'u', 'e'];
    let f1 = ['f', 'a', 'l', 's', 'e'];
    let y1 = ['y', 'e', 's'];
    let n1 = ['n', 'o'];
    proof {
        assert(t1@ == seq!['t', 'r', 'u', 'e']);
        assert(f1@ == seq!['f', 'a', 'l', 's', 'e']);
        assert(y1@ == seq!['y', 'e', 's']);
        assert(n1@ == seq!['n', 'o']);
        assert(w@.skip(0) == w@);
    }
    if rest_is(&w, 0, &t1) || rest_is(&w, 0, &f1) || rest_is(&w, 0, &y1) || rest_is(&w, 0, &n1) {
        return Some(DbType::Boolean);
    }
    if parse_i64(t).is_some() {
        return Some(DbType::Integer);
    }
    if is_double {
        return Some(DbType::Double);
    }
    None
}

/// The type a CSV value suggests for its column (see [`value_type`]),
/// given whether its trimmed text parses as a double.
pub fn guess_db_type(s: &str, is_double: bool) -> (r: Option<DbType>)
    ensures
        r == value_type(trimmed(s@), lowercased(trimmed(s@)), is_double),
{
    let t = trim(s);
    if t.is_empty() {
        return None;
    }
    let lower = to_lowercase(t);
    classify_value(t, lower.as_str(), is_double)
}

} // verus!
