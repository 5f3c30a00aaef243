//! Small helpers on text.
use vstd::prelude::*;

verus! {

/// The characters of `s`, in order.
pub fn chars_of(s: &str) -> (v: Vec<char>)
    ensures
        v@ == s@,
{
    broadcast use vstd::string::axiom_spec_iter;
    let mut v: Vec<char> = Vec::new();
    for c in it: s.chars()
        invariant
            v@ == it.seq().take(it.index() as int),
    {
        v.push(c);
    }
    v
}

/// `c` is an ASCII digit.
pub open spec fn is_digit(c: char) -> bool {
    '0' <= c && c <= '9'
}

/// The number of leading ASCII digits of `s`.
pub open spec fn digits_len(s: Seq<char>) -> nat
    decreases s.len(),
{
    if s.len() == 0 || !is_digit(s[0]) {
        0
    } else {
        1 + digits_len(s.drop_first())
    }
}

/// The decimal value of a string of digits.
pub open spec fn decimal_value(s: Seq<char>) -> nat
    decreases s.len(),
{
    if s.len() == 0 {
        0
    } else {
        decimal_value(s.drop_last()) * 10 + (s.last() as nat - '0' as nat) as nat
    }
}

/// `s` starts with `p`.
pub open spec fn starts_with(s: Seq<char>, p: Seq<char>) -> bool {
    p.len() <= s.len() && s.take(p.len() as int) == p
}

/// The characters of `s` from `start` on are those of `word`.
pub fn rest_is(s: &Vec<char>, start: usize, word: &[char]) -> (b: bool)
    requires
        start <= s.len(),
    ensures
        b == (s@.skip(start as int) == word@),
{
    if s.len() - start != word.len() {
        assert(s@.skip(start as int).len() != word@.len());
        return false;
    }
    let mut i: usize = 0;
    while i < word.len()
        invariant
            start + word.len() == s.len(),
            i <= word.len(),
            forall|j: int| 0 <= j < i ==> s@[start + j] == word@[j],
        decreases word.len() - i,
    {
        if s[start + i] != word[i] {
            assert(s@.skip(start as int)[i as int] != word@[i as int]);
            return false;
        }
        i = i + 1;
    }
    assert(s@.skip(start as int) =~= word@);
    true
}

/// `s` starts with `word`.
pub fn starts_with_word(s: &Vec<char>, word: &[char]) -> (b: bool)
    ensures
        b == starts_with(s@, word@),
{
    if s.len() < word.len() {
        return false;
    }
    let mut i: usize = 0;
    while i < word.len()
        invariant
            word.len() <= s.len(),
            i <= word.len(),
            forall|j: int| 0 <= j < i ==> s@[j] == word@[j],
        decreases word.len() - i,
    {
        if s[i] != word[i] {
            assert(s@.take(word@.len() as int)[i as int] != word@[i as int]);
            return false;
        }
        i = i + 1;
    }
    assert(s@.take(word@.len() as int) =~= word@);
    true
}

pub proof fn lemma_digits_len_bound(s: Seq<char>)
    ensures
        digits_len(s) <= s.len(),
    decreases s.len(),
{
    if s.len() > 0 && is_digit(s[0]) {
        lemma_digits_len_bound(s.drop_first());
    }
}

pub proof fn lemma_digits_prefix(s: Seq<char>, i: int)
    requires
        0 <= i <= digits_len(s),
    ensures
        digits_len(s) <= s.len(),
        forall|j: int| 0 <= j < i ==> is_digit(#[trigger] s[j]),
        i < s.len() && !is_digit(s[i]) ==> digits_len(s) == i,
        i == digits_len(s) ==> (i == s.len() || !is_digit(s[i])),
    decreases i,
{
    lemma_digits_len_bound(s);
    if i > 0 {
        lemma_digits_prefix(s.drop_first(), i - 1);
        assert forall|j: int| 0 <= j < i implies is_digit(#[trigger] s[j]) by {
            if j > 0 {
                assert(s[j] == s.drop_first()[j - 1]);
            }
        }
        if i < s.len() {
            assert(s[i] == s.drop_first()[i - 1]);
        }
    }
}

/// A string of the given characters (`String::from_iter`).
#[verifier::external_body]
pub(crate) fn string_from_chars(v: Vec<char>) -> (s: String)
    ensures
        s@ == v@,
{
    v.into_iter().collect()
}

} // verus!
