//! What the static file server says: the file a request asks for, and the
//! response it sends back.
use vstd::prelude::*;
use crate::text::{chars_of, string_from_chars};

verus! {

/// White space, as `char::is_whitespace` counts it: the characters with
/// Unicode's `White_Space` property.
pub open spec fn is_white_space(c: char) -> bool {
    ||| '\u{9}' <= c && c <= '\u{d}'
    ||| c == ' '
    ||| c == '\u{85}'
    ||| c == '\u{a0}'
    ||| c == '\u{1680}'
    ||| '\u{2000}' <= c && c <= '\u{200a}'
    ||| c == '\u{2028}'
    ||| c == '\u{2029}'
    ||| c == '\u{202f}'
    ||| c == '\u{205f}'
    ||| c == '\u{3000}'
}

/// `char::is_whitespace`: whether the character has Unicode's `White_Space`
/// property (see [`is_white_space`]).
#[verifier::external_body]
pub(crate) fn char_is_whitespace(c: char) -> (b: bool)
    ensures
        b == is_white_space(c),
{
    c.is_whitespace()
}

/// The first position from `i` on that holds no white space (or the end).
pub open spec fn skip_space(s: Seq<char>, i: nat) -> nat
    decreases s.len() - i,
{
    if i >= s.len() || !is_white_space(s[i as int]) {
        i
    } else {
        skip_space(s, i + 1)
    }
}

/// The first position from `i` on that holds white space (or the end).
pub open spec fn word_end(s: Seq<char>, i: nat) -> nat
    decreases s.len() - i,
{
    if i >= s.len() || is_white_space(s[i as int]) {
        i
    } else {
        word_end(s, i + 1)
    }
}

/// The second word of a request's first line (`GET /file HTTP/1.1`), or
/// `/` when there is none.
pub open spec fn request_target_of(line: Seq<char>) -> Seq<char> {
    let a1 = skip_space(line, 0);
    let e1 = word_end(line, a1);
    let a2 = skip_space(line, e1);
    if a1 >= line.len() || a2 >= line.len() {
        seq!['/']
    } else {
        line.subrange(a2 as int, word_end(line, a2) as int)
    }
}

fn skip_space_from(s: &Vec<char>, i: usize) -> (r: usize)
    requires
        i <= s.len(),
    ensures
        r == skip_space(s@, i as nat),
        i <= r <= s.len(),
{
    let mut j = i;
    while j < s.len() && char_is_whitespace(s[j])
        invariant
            i <= j <= s.len(),
            skip_space(s@, i as nat) == skip_space(s@, j as nat),
        decreases s.len() - j,
    {
        j = j + 1;
    }
    j
}

fn word_end_from(s: &Vec<char>, i: usize) -> (r: usize)
    requires
        i <= s.len(),
    ensures
        r == word_end(s@, i as nat),
        i <= r <= s.len(),
{
    let mut j = i;
    while j < s.len() && !char_is_whitespace(s[j])
        invariant
            i <= j <= s.len(),
            word_end(s@, i as nat) == word_end(s@, j as nat),
        decreases s.len() - j,
    {
        j = j + 1;
    }
    j
}

/// The target a request asks for (see [`request_target_of`]).
pub fn request_target(first_line: &str) -> (t: String)
    ensures
        t@ == request_target_of(first_line@),
{
    let s = chars_of(first_line);
    let a1 = skip_space_from(&s, 0);
    let e1 = word_end_from(&s, a1);
    let a2 = skip_space_from(&s, e1);
    if a1 >= s.len() || a2 >= s.len() {
        let mut v: Vec<char> = Vec::new();
        v.push('/');
        return string_from_chars(v);
    }
    let e2 = word_end_from(&s, a2);
    let mut v: Vec<char> = Vec::new();
    let mut k = a2;
    while k < e2
        invariant
            a2 <= k <= e2 <= s.len(),
            v@ == s@.subrange(a2 as int, k as int),
        decreases e2 - k,
    {
        v.push(s[k]);
        k = k + 1;
        assert(v@ =~= s@.subrange(a2 as int, k as int));
    }
    string_from_chars(v)
}

/// The digit character of `d`, below ten.
pub open spec fn digit_char(d: nat) -> char {
    ('0' as nat + d) as char
}

/// The decimal text of `n`, without leading zeros.
pub open spec fn decimal_text(n: nat) -> Seq<char>
    decreases n,
{
    if n < 10 {
        seq![digit_char(n)]
    } else {
        decimal_text(n / 10).push(digit_char(n % 10))
    }
}

/// The decimal text of `n` (see [`decimal_text`]).
pub fn decimal(n: usize) -> (d: Vec<char>)
    ensures
        d@ == decimal_text(n as nat),
    decreases n,
{
    let c = (('0' as u8) + ((n % 10) as u8)) as char;
    if n < 10 {
        let mut d: Vec<char> = Vec::new();
        d.push(c);
        assert(d@ =~= seq![digit_char(n as nat)]);
        d
    } else {
        let mut d = decimal(n / 10);
        d.push(c);
        d
    }
}

/// The response to a request: `200 OK` with the file's contents as plain
/// text when there is such a file, else `404 Not Found` with a short body;
/// the content length counts the body's bytes.
pub open spec fn response_text(contents: Option<Seq<char>>, len: nat) -> Seq<char> {
    match contents {
        Some(c) => "HTTP/1.1 200 OK\r\n"@ + "Content-Type: text/plain\r\n"@ + "Content-Length: "@
            + decimal_text(len) + "\r\n\r\n"@ + c,
        None => "HTTP/1.1 404 Not Found\r\n"@ + "Content-Type: text/plain\r\n"@
            + "Content-Length: "@ + decimal_text(len) + "\r\n\r\n"@ + "File not found"@,
    }
}

fn push_text(out: &mut Vec<char>, s: &str)
    ensures
        final(out)@ == old(out)@ + s@,
{
    let c = chars_of(s);
    let mut i: usize = 0;
    while i < c.len()
        invariant
            i <= c.len(),
            out@ == old(out)@ + c@.take(i as int),
        decreases c.len() - i,
    {
        out.push(c[i]);
        i = i + 1;
        assert(c@.take(i as int) == c@.take(i - 1).push(c@[i - 1]));
    }
    assert(c@.take(c@.len() as int) == c@);
}

/// The response to send (see [`response_text`]), given the file's contents
/// when the requested file exists.
pub fn http_response(contents: Option<&str>) -> (r: String)
    ensures
        r@ == response_text(
            match contents {
                Some(c) => Some(c@),
                None => None,
            },
            match contents {
                Some(c) => c.len() as nat,
                None => "File not found".len() as nat,
            },
        ),
{
    let mut out: Vec<char> = Vec::new();
    match contents {
        Some(c) => {
            push_text(&mut out, "HTTP/1.1 200 OK\r\n");
            push_text(&mut out, "Content-Type: text/plain\r\n");
            push_text(&mut out, "Content-Length: ");
            let d = decimal(c.len());
            let mut i: usize = 0;
            let ghost start = out@;
            while i < d.len()
                invariant
                    i <= d.len(),
                    out@ == start + d@.take(i as int),
                decreases d.len() - i,
            {
                out.push(d[i]);
                i = i + 1;
                assert(d@.take(i as int) == d@.take(i - 1).push(d@[i - 1]));
            }
            assert(d@.take(d@.len() as int) == d@);
            push_text(&mut out, "\r\n\r\n");
            push_text(&mut out, c);
        },
        None => {
            let body = "File not found";
            push_text(&mut out, "HTTP/1.1 404 Not Found\r\n");
            push_text(&mut out, "Content-Type: text/plain\r\n");
            push_text(&mut out, "Content-Length: ");
            let d = decimal(body.len());
            let mut i: usize = 0;
            let ghost start = out@;
            while i < d.len()
                invariant
                    i <= d.len(),
                    out@ == start + d@.take(i as int),
                decreases d.len() - i,
            {
                out.push(d[i]);
                i = i + 1;
                assert(d@.take(i as int) == d@.take(i - 1).push(d@[i - 1]));
            }
            assert(d@.take(d@.len() as int) == d@);
            push_text(&mut out, "\r\n\r\n");
            push_text(&mut out, body);
        },
    }
    string_from_chars(out)
}

} // verus!
