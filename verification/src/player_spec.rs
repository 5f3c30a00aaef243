//! Player specs on the command line: `human`, `random`, or a bot family
//! (`mm`, `ab`, `e`, `p`) followed by a depth and an optional evaluator
//! name (`base`, `simple`, `urgent`; `simple` when omitted or unknown).
use vstd::prelude::*;
use crate::text::{
    chars_of, decimal_value, digits_len, is_digit, lemma_digits_prefix, rest_is, starts_with,
    starts_with_word,
};

verus! {

/// Which evaluator a bot scores its horizon with.
#[derive(Clone, Copy, Debug, PartialEq, Eq, Structural)]
pub enum EvalKind {
    Base,
    Simple,
    Urgent,
}

/// A family of search bots, by the prefix of its spec.
#[derive(Clone, Copy, Debug, PartialEq, Eq, Structural)]
pub enum BotFamily {
    /// `mm`: minimax.
    MiniMax,
    /// `ab`: alpha-beta.
    AlphaBeta,
    /// `e`: parallel alpha-beta with extensions once a side runs out of walls.
    Extend,
    /// `p`: parallel alpha-beta.
    Parallel,
}

/// The player a spec names.
#[derive(Clone, Copy, Debug, PartialEq, Eq, Structural)]
pub enum PlayerSpec {
    Human,
    Random,
    Bot(BotFamily, u8, EvalKind),
}

/// Why a spec names no player.
#[derive(Clone, Copy, Debug, PartialEq, Eq, Structural)]
pub enum PlayerSpecError {
    /// The bot prefix is not followed by a depth from 1 to 255.
    BadDepth(BotFamily),
    /// The spec starts with no known name or prefix.
    Unknown,
}

/// The evaluator an evaluator name selects.
pub open spec fn eval_kind_of(name: Seq<char>) -> EvalKind {
    if name == seq!['b', 'a', 's', 'e'] {
        EvalKind::Base
    } else if name == seq!['u', 'r', 'g', 'e', 'n', 't'] {
        EvalKind::Urgent
    } else {
        EvalKind::Simple
    }
}

/// A depth and an evaluator name: the leading digits, read as a positive
/// number that fits a `u8`, then the name of the evaluator in the rest.
pub open spec fn depth_eval_of(s: Seq<char>) -> Option<(u8, EvalKind)> {
    let n = digits_len(s);
    let v = decimal_value(s.take(n as int));
    if n == 0 || v == 0 || v > 255 {
        None
    } else {
        Some((v as u8, eval_kind_of(s.skip(n as int))))
    }
}

/// The bot of a family from the rest of its spec.
pub open spec fn bot_of(family: BotFamily, rest: Seq<char>) -> Result<PlayerSpec, PlayerSpecError> {
    match depth_eval_of(rest) {
        Some((d, e)) => Ok(PlayerSpec::Bot(family, d, e)),
        None => Err(PlayerSpecError::BadDepth(family)),
    }
}

/// The player a spec names: `human` and `random` exactly; else the first of
/// the prefixes `mm`, `ab`, `e`, `p` that the spec starts with, and a depth
/// and evaluator after it.
pub open spec fn player_spec_of(s: Seq<char>) -> Result<PlayerSpec, PlayerSpecError> {
    if s == seq!['h', 'u', 'm', 'a', 'n'] {
        Ok(PlayerSpec::Human)
    } else if s == seq!['r', 'a', 'n', 'd', 'o', 'm'] {
        Ok(PlayerSpec::Random)
    } else if starts_with(s, seq!['m', 'm']) {
        bot_of(BotFamily::MiniMax, s.skip(2))
    } else if starts_with(s, seq!['a', 'b']) {
        bot_of(BotFamily::AlphaBeta, s.skip(2))
    } else if starts_with(s, seq!['e']) {
        bot_of(BotFamily::Extend, s.skip(1))
    } else if starts_with(s, seq!['p']) {
        bot_of(BotFamily::Parallel, s.skip(1))
    } else {
        Err(PlayerSpecError::Unknown)
    }
}

/// The depth and evaluator from the characters of `s` from `start` on (see
/// [`depth_eval_of`]).
fn depth_eval_from(s: &Vec<char>, start: usize) -> (r: Option<(u8, EvalKind)>)
    requires
        start <= s.len(),
    ensures
        r == depth_eval_of(s@.skip(start as int)),
{
    let ghost t = s@.skip(start as int);
    let mut i: usize = start;
    let mut value: u32 = 0;
    let mut too_big = false;
    while i < s.len() && '0' <= s[i] && s[i] <= '9'
        invariant
            start <= i <= s.len(),
            t == s@.skip(start as int),
            i - start <= digits_len(t),
            !too_big ==> value == decimal_value(t.take(i - start)) && value <= 255,
            too_big ==> decimal_value(t.take(i - start)) > 255,
        decreases s.len() - i,
    {
        proof {
            lemma_digits_prefix(t, (i - start) as int);
            assert(t[i - start] == s@[i as int]);
            assert(t.take(i - start + 1).drop_last() == t.take(i - start));
        }
        if !too_big {
            let d = (s[i] as u32) - ('0' as u32);
            value = value * 10 + d;
            if value > 255 {
                too_big = true;
            }
        }
        i = i + 1;
    }
    proof {
        lemma_digits_prefix(t, (i - start) as int);
        if i < s.len() {
            assert(t[i - start] == s@[i as int]);
        }
    }
    let n = i - start;
    if n == 0 || too_big || value == 0 {
        return None;
    }
    let base = ['b', 'a', 's', 'e'];
    let urgent = ['u', 'r', 'g', 'e', 'n', 't'];
    let is_base = rest_is(s, i, &base);
    let is_urgent = rest_is(s, i, &urgent);
    proof {
        assert(base@ == seq!['b', 'a', 's', 'e']);
        assert(urgent@ == seq!['u', 'r', 'g', 'e', 'n', 't']);
        assert(t.skip(n as int) == s@.skip(i as int));
    }
    let eval = if is_base {
        EvalKind::Base
    } else if is_urgent {
        EvalKind::Urgent
    } else {
        EvalKind::Simple
    };
    Some((value as u8, eval))
}

/// The depth and evaluator of a bot spec after its prefix (see [`depth_eval_of`]).
pub fn parse_depth_eval(s: &str) -> (r: Option<(u8, EvalKind)>)
    ensures
        r == depth_eval_of(s@),
{
    let cs = chars_of(s);
    assert(cs@.skip(0) == cs@);
    depth_eval_from(&cs, 0)
}

/// The player a command-line spec names (see [`player_spec_of`]).
pub fn make_player(s: &str) -> (r: Result<PlayerSpec, PlayerSpecError>)
    ensures
        r == player_spec_of(s@),
{
    let cs = chars_of(s);
    let human = ['h', 'u', 'm', 'a', 'n'];
    let random = ['r', 'a', 'n', 'd', 'o', 'm'];
    let mm = ['m', 'm'];
    let ab = ['a', 'b'];
    let e = ['e'];
    let p = ['p'];
    proof {
        assert(human@ == seq!['h', 'u', 'm', 'a', 'n']);
        assert(random@ == seq!['r', 'a', 'n', 'd', 'o', 'm']);
        assert(mm@ == seq!['m', 'm']);
        assert(ab@ == seq!['a', 'b']);
        assert(e@ == seq!['e']);
        assert(p@ == seq!['p']);
        assert(cs@.skip(0) == cs@);
    }
    let (family, skip) = if rest_is(&cs, 0, &human) {
        return Ok(PlayerSpec::Human);
    } else if rest_is(&cs, 0, &random) {
        return Ok(PlayerSpec::Random);
    } else if starts_with_word(&cs, &mm) {
        (BotFamily::MiniMax, 2)
    } else if starts_with_word(&cs, &ab) {
        (BotFamily::AlphaBeta, 2)
    } else if starts_with_word(&cs, &e) {
        (BotFamily::Extend, 1)
    } else if starts_with_word(&cs, &p) {
        (BotFamily::Parallel, 1)
    } else {
        return Err(PlayerSpecError::Unknown);
    };
    match depth_eval_from(&cs, skip) {
        Some((d, ev)) => Ok(PlayerSpec::Bot(family, d, ev)),
        None => Err(PlayerSpecError::BadDepth(family)),
    }
}

} // verus!
