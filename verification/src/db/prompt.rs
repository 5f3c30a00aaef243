//! What is typed at the select prompt: a list of columns, a condition such
//! as `age >= 30`, and an ordering direction.
use vstd::prelude::*;
use crate::db::csv::{i64_value, is_i64_text, parse_i64, push_all, trim, trimmed};
use crate::db::load::{call_parser, parsed, parses_consistently};
use crate::db::select::{Filter, Order};
use crate::db::table::Table;
use crate::db::types::{ColId, DbVal, RowId};
use crate::db::order::{cell_rel, Relation};
use crate::text::{chars_of, string_from_chars};

verus! {

/// A comparison operator of a condition.
#[derive(Clone, Copy, Debug, PartialEq, Eq, Structural)]
pub enum FilterOp {
    Eq,
    Ne,
    Gt,
    Lt,
    Ge,
    Le,
}

/// Why a typed condition was refused.
#[derive(Clone, Copy, Debug, PartialEq, Eq, Structural)]
pub enum FilterInputError {
    /// No `=`, `!`, `>` or `<` in the line.
    NoOperator,
    /// The operator is a lone `=` or `!`.
    UnsupportedOperator,
    /// A null compared with an order (`>`, `<`, `>=`, `<=`).
    InvalidOperatorOrValue,
    /// The column part names no column of the table.
    UnknownColumn,
}

/// A character that starts an operator.
pub open spec fn is_op_char(c: char) -> bool {
    c == '=' || c == '!' || c == '>' || c == '<'
}

/// The first position of an operator character, if any.
pub open spec fn first_op(s: Seq<char>) -> Option<int> {
    if exists|i: int| 0 <= i < s.len() && is_op_char(#[trigger] s[i]) {
        Some(
            choose|i: int|
                0 <= i < s.len() && is_op_char(#[trigger] s[i]) && forall|j: int|
                    0 <= j < i ==> !is_op_char(#[trigger] s[j]),
        )
    } else {
        None
    }
}

/// The operator at the start of `rest` and its length: `==`, `!=`, `>=`,
/// `<=`, then `>` or `<`; none for a lone `=` or `!`.
pub open spec fn op_at(rest: Seq<char>) -> Option<(FilterOp, int)> {
    if rest.len() >= 2 && rest[0] == '=' && rest[1] == '=' {
        Some((FilterOp::Eq, 2))
    } else if rest.len() >= 2 && rest[0] == '!' && rest[1] == '=' {
        Some((FilterOp::Ne, 2))
    } else if rest.len() >= 1 && rest[0] == '>' {
        if rest.len() >= 2 && rest[1] == '=' {
            Some((FilterOp::Ge, 2))
        } else {
            Some((FilterOp::Gt, 1))
        }
    } else if rest.len() >= 1 && rest[0] == '<' {
        if rest.len() >= 2 && rest[1] == '=' {
            Some((FilterOp::Le, 2))
        } else {
            Some((FilterOp::Lt, 1))
        }
    } else {
        None
    }
}

/// A string of the characters `s[from..to]`.
fn substring(s: &Vec<char>, from: usize, to: usize) -> (r: String)
    requires
        from <= to <= s@.len(),
    ensures
        r@ == s@.subrange(from as int, to as int),
{
    let mut v: Vec<char> = Vec::new();
    let mut i: usize = from;
    while i < to
        invariant
            from <= i <= to <= s@.len(),
            v@ == s@.subrange(from as int, i as int),
        decreases to - i,
    {
        v.push(s[i]);
        i = i + 1;
        assert(v@ =~= s@.subrange(from as int, i as int));
    }
    string_from_chars(v)
}

/// `s` with leading and trailing white space removed (see [`trimmed`]).
fn trimmed_string(s: &String) -> (r: String)
    ensures
        r@ == trimmed(s@),
{
    trim(s.as_str()).to_owned()
}

/// Splits a typed condition into the column part, the operator and the
/// value part, both parts trimmed: the operator starts at the first `=`,
/// `!`, `>` or `<` (see [`op_at`]).
pub fn split_filter_line(line: &str) -> (r: Result<(String, FilterOp, String), FilterInputError>)
    ensures
        match first_op(line@) {
            None => r == Err::<(String, FilterOp, String), FilterInputError>(
                FilterInputError::NoOperator,
            ),
            Some(p) => match op_at(line@.skip(p)) {
                None => r == Err::<(String, FilterOp, String), FilterInputError>(
                    FilterInputError::UnsupportedOperator,
                ),
                Some((op, n)) => r matches Ok((c, o, v)) && c@ == trimmed(line@.take(p)) && o
                    == op && v@ == trimmed(line@.skip(p + n)),
            },
        },
{
    let s = chars_of(line);
    let mut p: usize = 0;
    while p < s.len()
        invariant
            s@ == line@,
            p <= s@.len(),
            forall|j: int| 0 <= j < p ==> !is_op_char(#[trigger] s@[j]),
        ensures
            p <= s@.len(),
            forall|j: int| 0 <= j < p ==> !is_op_char(#[trigger] s@[j]),
            p < s@.len() ==> is_op_char(s@[p as int]),
        decreases s@.len() - p,
    {
        let c = s[p];
        if c == '=' || c == '!' || c == '>' || c == '<' {
            break;
        }
        p = p + 1;
    }
    if p == s.len() {
        assert(!exists|i: int| 0 <= i < line@.len() && is_op_char(#[trigger] line@[i]));
        return Err(FilterInputError::NoOperator);
    }
    proof {
        assert(is_op_char(line@[p as int]));
        let q = choose|i: int|
            0 <= i < line@.len() && is_op_char(#[trigger] line@[i]) && forall|j: int|
                0 <= j < i ==> !is_op_char(#[trigger] line@[j]);
        if q < p {
            assert(!is_op_char(s@[q]));
        } else if q > p {
            assert(!is_op_char(line@[p as int]));
        }
        assert(first_op(line@) == Some(p as int));
    }
    let ghost rest = line@.skip(p as int);
    let n = s.len();
    let c0 = s[p];
    let c1 = if p + 1 < n {
        Some(s[p + 1])
    } else {
        None
    };
    assert(c1 == if rest.len() >= 2 {
        Some(rest[1])
    } else {
        None::<char>
    });
    let (op, len): (FilterOp, usize) = if c0 == '=' && c1 == Some('=') {
        (FilterOp::Eq, 2)
    } else if c0 == '!' && c1 == Some('=') {
        (FilterOp::Ne, 2)
    } else if c0 == '>' {
        if c1 == Some('=') {
            (FilterOp::Ge, 2)
        } else {
            (FilterOp::Gt, 1)
        }
    } else if c0 == '<' {
        if c1 == Some('=') {
            (FilterOp::Le, 2)
        } else {
            (FilterOp::Lt, 1)
        }
    } else {
        return Err(FilterInputError::UnsupportedOperator);
    };
    assert(op_at(rest) == Some((op, len as int)));
    let col_part = substring(&s, 0, p);
    let val_part = substring(&s, p + len, n);
    assert(s@.subrange(0, p as int) =~= line@.take(p as int));
    assert(s@.subrange((p + len) as int, n as int) =~= line@.skip(p + len));
    Ok((trimmed_string(&col_part), op, trimmed_string(&val_part)))
}

/// `null`, in any ASCII case.
pub open spec fn is_null_word(t: Seq<char>) -> bool {
    &&& t.len() == 4
    &&& (t[0] == 'n' || t[0] == 'N')
    &&& (t[1] == 'u' || t[1] == 'U')
    &&& (t[2] == 'l' || t[2] == 'L')
    &&& (t[3] == 'l' || t[3] == 'L')
}

/// `v` is what the value part `t` of a condition denotes, given what `t`
/// parses to as a double (its bit pattern): null for `null` in any case;
/// a boolean for exactly `true` or `false`; an integer for the text of an
/// `i64`; a double where it parses as one; else the string itself.
pub open spec fn denotes(v: Option<DbVal>, t: Seq<char>, double: Option<u64>) -> bool {
    if is_null_word(t) {
        v is None
    } else if t == seq!['t', 'r', 'u', 'e'] {
        v == Some(DbVal::Boolean(true))
    } else if t == seq!['f', 'a', 'l', 's', 'e'] {
        v == Some(DbVal::Boolean(false))
    } else if is_i64_text(t) {
        v == Some(DbVal::Integer(i64_value(t) as i64))
    } else if double is Some {
        v == Some(DbVal::Double(double->0))
    } else {
        v matches Some(DbVal::String(s)) && s@ == t
    }
}

/// The value a condition's value part denotes (see [`denotes`]), given
/// what the text parses to as a double.
pub fn filter_value(text: &str, double: Option<u64>) -> (v: Option<DbVal>)
    ensures
        denotes(v, text@, double),
{
    let t = chars_of(text);
    if t.len() == 4 && (t[0] == 'n' || t[0] == 'N') && (t[1] == 'u' || t[1] == 'U') && (t[2]
        == 'l' || t[2] == 'L') && (t[3] == 'l' || t[3] == 'L') {
        return None;
    }
    let tr = ['t', 'r', 'u', 'e'];
    let fa = ['f', 'a', 'l', 's', 'e'];
    proof {
        assert(tr@ == seq!['t', 'r', 'u', 'e']);
        assert(fa@ == seq!['f', 'a', 'l', 's', 'e']);
        assert(t@.skip(0) == t@);
    }
    if crate::text::rest_is(&t, 0, &tr) {
        return Some(DbVal::Boolean(true));
    }
    if crate::text::rest_is(&t, 0, &fa) {
        return Some(DbVal::Boolean(false));
    }
    match parse_i64(text) {
        Some(i) => {
            return Some(DbVal::Integer(i));
        },
        None => {},
    }
    match double {
        Some(b) => Some(DbVal::Double(b)),
        None => Some(DbVal::String(text.to_owned())),
    }
}

/// The condition an operator makes of a column and a value: with a null,
/// `==` tests for null and `!=` for a value, and the orders make none.
pub open spec fn filter_for(col: ColId, op: FilterOp, v: Option<DbVal>) -> Option<Filter> {
    match (op, v) {
        (FilterOp::Eq, None) => Some(Filter::IsNull(col)),
        (FilterOp::Ne, None) => Some(Filter::IsNonNull(col)),
        (FilterOp::Eq, Some(x)) => Some(Filter::Eq(col, x)),
        (FilterOp::Ne, Some(x)) => Some(Filter::Ne(col, x)),
        (FilterOp::Gt, Some(x)) => Some(Filter::Gt(col, x)),
        (FilterOp::Lt, Some(x)) => Some(Filter::Lt(col, x)),
        (FilterOp::Ge, Some(x)) => Some(Filter::Ge(col, x)),
        (FilterOp::Le, Some(x)) => Some(Filter::Le(col, x)),
        _ => None,
    }
}

/// The condition an operator makes of a column and a value (see
/// [`filter_for`]); an order with a null is refused.
pub fn make_filter(col: ColId, op: FilterOp, v: Option<DbVal>) -> (r: Result<Filter, FilterInputError>)
    ensures
        r == match filter_for(col, op, v) {
            Some(f) => Ok(f),
            None => Err(FilterInputError::InvalidOperatorOrValue),
        },
{
    match (op, v) {
        (FilterOp::Eq, None) => Ok(Filter::IsNull(col)),
        (FilterOp::Ne, None) => Ok(Filter::IsNonNull(col)),
        (FilterOp::Eq, Some(x)) => Ok(Filter::Eq(col, x)),
        (FilterOp::Ne, Some(x)) => Ok(Filter::Ne(col, x)),
        (FilterOp::Gt, Some(x)) => Ok(Filter::Gt(col, x)),
        (FilterOp::Lt, Some(x)) => Ok(Filter::Lt(col, x)),
        (FilterOp::Ge, Some(x)) => Ok(Filter::Ge(col, x)),
        (FilterOp::Le, Some(x)) => Ok(Filter::Le(col, x)),
        _ => Err(FilterInputError::InvalidOperatorOrValue),
    }
}

/// `t` is the lower-case ASCII word `w` in any ASCII case (`w` holds
/// lower-case letters only).
pub open spec fn is_word_any_case(t: Seq<char>, w: Seq<char>) -> bool {
    t.len() == w.len() && forall|i: int|
        0 <= i < t.len() ==> t[i] == w[i] || (t[i] as u32) == (w[i] as u32) - 32
}

/// The direction a typed word names, once trimmed, in any ASCII case:
/// `asc`, `a`, `ascending`; `desc`, `d`, `descending`.
pub open spec fn order_of_word(t: Seq<char>) -> Option<Order> {
    if is_word_any_case(t, seq!['a', 's', 'c']) || is_word_any_case(t, seq!['a'])
        || is_word_any_case(t, seq!['a', 's', 'c', 'e', 'n', 'd', 'i', 'n', 'g']) {
        Some(Order::Ascending)
    } else if is_word_any_case(t, seq!['d', 'e', 's', 'c']) || is_word_any_case(t, seq!['d'])
        || is_word_any_case(t, seq!['d', 'e', 's', 'c', 'e', 'n', 'd', 'i', 'n', 'g']) {
        Some(Order::Descending)
    } else {
        None
    }
}

/// `t` is the word `w` in any ASCII case (see [`is_word_any_case`]).
fn word_any_case(t: &Vec<char>, w: &[char]) -> (b: bool)
    requires
        forall|i: int| 0 <= i < w@.len() ==> 'a' <= #[trigger] w@[i] <= 'z',
    ensures
        b == is_word_any_case(t@, w@),
{
    if t.len() != w.len() {
        return false;
    }
    let mut i: usize = 0;
    while i < t.len()
        invariant
            t@.len() == w@.len(),
            i <= t@.len(),
            forall|k: int| 0 <= k < w@.len() ==> 'a' <= #[trigger] w@[k] <= 'z',
            forall|k: int| 0 <= k < i ==> t@[k] == w@[k] || (t@[k] as u32) == (w@[k] as u32) - 32,
        decreases t@.len() - i,
    {
        let c = t[i];
        let d = w[i];
        assert('a' <= w@[i as int] <= 'z');
        if !(c == d || (c as u32) == (d as u32) - 32) {
            return false;
        }
        i = i + 1;
    }
    true
}

/// The direction an ordering answer names (see [`order_of_word`]).
pub fn parse_order_word(s: &str) -> (r: Option<Order>)
    ensures
        r == order_of_word(trimmed(s@)),
{
    let t = chars_of(trim(s));
    let a1 = ['a', 's', 'c'];
    let a2 = ['a'];
    let a3 = ['a', 's', 'c', 'e', 'n', 'd', 'i', 'n', 'g'];
    let d1 = ['d', 'e', 's', 'c'];
    let d2 = ['d'];
    let d3 = ['d', 'e', 's', 'c', 'e', 'n', 'd', 'i', 'n', 'g'];
    proof {
        assert(a1@ == seq!['a', 's', 'c']);
        assert(a2@ == seq!['a']);
        assert(a3@ == seq!['a', 's', 'c', 'e', 'n', 'd', 'i', 'n', 'g']);
        assert(d1@ == seq!['d', 'e', 's', 'c']);
        assert(d2@ == seq!['d']);
        assert(d3@ == seq!['d', 'e', 's', 'c', 'e', 'n', 'd', 'i', 'n', 'g']);
    }
    if word_any_case(&t, &a1) || word_any_case(&t, &a2) || word_any_case(&t, &a3) {
        Some(Order::Ascending)
    } else if word_any_case(&t, &d1) || word_any_case(&t, &d2) || word_any_case(&t, &d3) {
        Some(Order::Descending)
    } else {
        None
    }
}

/// The pieces of `s` between commas (one piece when there is no comma).
pub open spec fn comma_pieces(s: Seq<char>) -> Seq<Seq<char>>
    decreases s.len(),
{
    if s.len() == 0 {
        seq![Seq::<char>::empty()]
    } else {
        let p = comma_pieces(s.drop_last());
        if s.last() == ',' {
            p.push(Seq::<char>::empty())
        } else {
            p.update(p.len() - 1, p.last().push(s.last()))
        }
    }
}

proof fn lemma_comma_pieces_len(s: Seq<char>)
    ensures
        comma_pieces(s).len() >= 1,
    decreases s.len(),
{
    if s.len() > 0 {
        lemma_comma_pieces_len(s.drop_last());
    }
}

/// The trimmed pieces that are not blank, in order.
pub open spec fn nonblank(pieces: Seq<Seq<char>>) -> Seq<Seq<char>>
    decreases pieces.len(),
{
    if pieces.len() == 0 {
        seq![]
    } else if trimmed(pieces.last()).len() > 0 {
        nonblank(pieces.drop_last()).push(trimmed(pieces.last()))
    } else {
        nonblank(pieces.drop_last())
    }
}

/// The column names in a comma-separated list: each piece trimmed, blank
/// pieces dropped.
pub fn parse_column_list(s: &str) -> (names: Vec<String>)
    ensures
        names@.map_values(|n: String| n@) == nonblank(comma_pieces(s@)),
{
    let cs = chars_of(s);
    let mut done: Vec<Vec<char>> = Vec::new();
    let mut cur: Vec<char> = Vec::new();
    let mut i: usize = 0;
    while i < cs.len()
        invariant
            cs@ == s@,
            i <= cs@.len(),
            comma_pieces(cs@.take(i as int)) == done@.map_values(|v: Vec<char>| v@).push(cur@),
        decreases cs@.len() - i,
    {
        let c = cs[i];
        proof {
            assert(cs@.take(i + 1).drop_last() =~= cs@.take(i as int));
            lemma_comma_pieces_len(cs@.take(i as int));
        }
        if c == ',' {
            let piece = cur;
            done.push(piece);
            cur = Vec::new();
            assert(done@.map_values(|v: Vec<char>| v@).push(cur@) =~= comma_pieces(
                cs@.take(i as int),
            ).push(Seq::<char>::empty()));
        } else {
            cur.push(c);
            assert(done@.map_values(|v: Vec<char>| v@).push(cur@) =~= comma_pieces(
                cs@.take(i as int),
            ).update(
                comma_pieces(cs@.take(i as int)).len() - 1,
                comma_pieces(cs@.take(i as int)).last().push(c),
            ));
        }
        i = i + 1;
    }
    assert(cs@.take(i as int) =~= s@);
    done.push(cur);
    let ghost pieces = comma_pieces(s@);
    assert(done@.map_values(|v: Vec<char>| v@) =~= pieces);
    let mut names: Vec<String> = Vec::new();
    let mut k: usize = 0;
    while k < done.len()
        invariant
            k <= done@.len(),
            pieces == done@.map_values(|v: Vec<char>| v@),
            names@.map_values(|n: String| n@) == nonblank(pieces.take(k as int)),
        decreases done@.len() - k,
    {
        let piece = string_from_chars(done[k].clone());
        let t = trim(piece.as_str());
        proof {
            assert(pieces.take(k + 1).drop_last() =~= pieces.take(k as int));
            assert(pieces.take(k + 1).last() == piece@);
        }
        if !t.is_empty() {
            names.push(t.to_owned());
            assert(names@.map_values(|n: String| n@) =~= nonblank(pieces.take(k as int)).push(
                t@,
            ));
        }
        k = k + 1;
    }
    assert(pieces.take(k as int) =~= pieces);
    names
}

/// The condition a typed line states over the columns of `t`, doubles read
/// by `dbl`: the line must split into a column part, an operator and a
/// value part (see [`split_filter_line`]), the column part must name a
/// column, and the operator must suit the value (see [`make_filter`]).
pub open spec fn filter_line_ok(
    t: Table,
    line: Seq<char>,
    dbl: spec_fn(Seq<char>) -> Option<u64>,
    r: Result<Filter, FilterInputError>,
) -> bool {
    match first_op(line) {
        None => r == Err::<Filter, FilterInputError>(FilterInputError::NoOperator),
        Some(p) => match op_at(line.skip(p)) {
            None => r == Err::<Filter, FilterInputError>(FilterInputError::UnsupportedOperator),
            Some((op, n)) => {
                let c = trimmed(line.take(p));
                let vt = trimmed(line.skip(p + n));
                if !t.columns().dom().contains(c) {
                    r == Err::<Filter, FilterInputError>(FilterInputError::UnknownColumn)
                } else {
                    exists|v: Option<DbVal>|
                        #[trigger] denotes(v, vt, dbl(vt)) && r == match filter_for(
                            t.columns()[c],
                            op,
                            v,
                        ) {
                            Some(f) => Ok(f),
                            None => Err(FilterInputError::InvalidOperatorOrValue),
                        }
                }
            },
        },
    }
}

/// The condition a typed line states over the columns of `t` (see
/// [`filter_line_ok`]).
pub fn filter_line<F: Fn(&str) -> Option<u64>>(t: &Table, line: &str, parse_double: &F) -> (r: Result<
    Filter,
    FilterInputError,
>)
    requires
        t.wf(),
        parses_consistently(*parse_double),
    ensures
        filter_line_ok(*t, line@, |x: Seq<char>| parsed(*parse_double, x), r),
{
    let (col_part, op, val_part) = match split_filter_line(line) {
        Ok(parts) => parts,
        Err(e) => {
            return Err(e);
        },
    };
    let col = match t.col_id(col_part.as_str()) {
        Some(c) => c,
        None => {
            return Err(FilterInputError::UnknownColumn);
        },
    };
    let double = call_parser(parse_double, val_part.as_str());
    let v = filter_value(val_part.as_str(), double);
    let r = make_filter(col, op, v);
    proof {
        let dbl = |x: Seq<char>| parsed(*parse_double, x);
        assert(dbl(val_part@) == double);
        assert(denotes(v, val_part@, dbl(val_part@)));
    }
    r
}

/// Why no columns were selected.
#[derive(Debug, PartialEq, Eq)]
pub enum SelectInputError {
    /// The list names no column at all.
    NoColumns,
    /// None of the names listed is a column of the table; they are given.
    NoValidColumns(Vec<String>),
}

/// The names a column list asks for: every column's name when it is blank,
/// else its nonblank comma-separated pieces, trimmed.
pub open spec fn requested_names(t: Table, input: Seq<char>) -> Seq<Seq<char>> {
    if trimmed(input).len() == 0 {
        t.names()
    } else {
        nonblank(comma_pieces(trimmed(input)))
    }
}

/// The handles of the names that are columns of `t`, in order.
pub open spec fn found_cols(t: Table, names: Seq<Seq<char>>) -> Seq<ColId>
    decreases names.len(),
{
    if names.len() == 0 {
        seq![]
    } else if t.columns().dom().contains(names.last()) {
        found_cols(t, names.drop_last()).push(t.columns()[names.last()])
    } else {
        found_cols(t, names.drop_last())
    }
}

/// The names that are no columns of `t`, in order.
pub open spec fn missing_names(t: Table, names: Seq<Seq<char>>) -> Seq<Seq<char>>
    decreases names.len(),
{
    if names.len() == 0 {
        seq![]
    } else if t.columns().dom().contains(names.last()) {
        missing_names(t, names.drop_last())
    } else {
        missing_names(t, names.drop_last()).push(names.last())
    }
}

/// The columns a typed column list selects, and the names in it that are
/// no columns (to be skipped): an error if it names none, or no column.
pub fn select_columns(t: &Table, input: &str) -> (r: Result<(Vec<ColId>, Vec<String>), SelectInputError>)
    requires
        t.wf(),
    ensures
        requested_names(*t, input@).len() == 0 ==> r == Err::<(Vec<ColId>, Vec<String>), SelectInputError>(
            SelectInputError::NoColumns,
        ),
        requested_names(*t, input@).len() > 0 && found_cols(*t, requested_names(*t, input@)).len()
            == 0 ==> (r matches Err(SelectInputError::NoValidColumns(skipped)) && skipped@.map_values(
            |n: String| n@,
        ) == missing_names(*t, requested_names(*t, input@))),
        r matches Ok((ids, skipped)) ==> ids@ == found_cols(*t, requested_names(*t, input@))
            && skipped@.map_values(|n: String| n@) == missing_names(*t, requested_names(*t, input@)),
        requested_names(*t, input@).len() > 0 && found_cols(*t, requested_names(*t, input@)).len()
            > 0 ==> r is Ok,
{
    let trimmed_input = trim(input);
    let names = if chars_of(trimmed_input).len() == 0 {
        t.col_names()
    } else {
        parse_column_list(trimmed_input)
    };
    let ghost req = requested_names(*t, input@);
    assert(names@.map_values(|n: String| n@) == req);
    if names.len() == 0 {
        return Err(SelectInputError::NoColumns);
    }
    let mut ids: Vec<ColId> = Vec::new();
    let mut skipped: Vec<String> = Vec::new();
    let mut i: usize = 0;
    while i < names.len()
        invariant
            t.wf(),
            i <= names@.len(),
            names@.map_values(|n: String| n@) == req,
            ids@ == found_cols(*t, req.take(i as int)),
            skipped@.map_values(|n: String| n@) == missing_names(*t, req.take(i as int)),
        decreases names.len() - i,
    {
        let name = names[i].as_str();
        proof {
            assert(req[i as int] == names@[i as int]@);
            assert(req.take(i + 1).drop_last() =~= req.take(i as int));
            assert(req.take(i + 1).last() == req[i as int]);
        }
        match t.col_id(name) {
            Some(id) => {
                ids.push(id);
            },
            None => {
                skipped.push(names[i].clone());
                assert(skipped@.map_values(|n: String| n@) =~= missing_names(*t, req.take(i as int)).push(req[i as int]));
            },
        }
        i = i + 1;
    }
    assert(req.take(i as int) =~= req);
    if ids.len() == 0 {
        return Err(SelectInputError::NoValidColumns(skipped));
    }
    Ok((ids, skipped))
}

/// The condition an operator makes keeps a row exactly when the row's value
/// in the column compares with the given value as the operator says: `==`
/// equal, `!=` not equal, `>` greater, `<` less, `>=` greater or equal,
/// `<=` less or equal. With a null value, `==` keeps the rows whose value
/// is null, `!=` those whose value is not, and the orders make no condition.
pub proof fn law_filter_keeps_what_operator_says(
    col: ColId,
    op: FilterOp,
    v: Option<DbVal>,
    t: Table,
    row: RowId,
)
    ensures
        ({
            let rel = cell_rel(t.cell(row, col), v);
            match filter_for(col, op, v) {
                None => v is None && op != FilterOp::Eq && op != FilterOp::Ne,
                Some(f) => v is Some && (f.holds(t, row) <==> match op {
                    FilterOp::Eq => rel == Some(Relation::Equal),
                    FilterOp::Ne => rel != Some(Relation::Equal),
                    FilterOp::Gt => rel == Some(Relation::Greater),
                    FilterOp::Lt => rel == Some(Relation::Less),
                    FilterOp::Ge => rel == Some(Relation::Greater) || rel == Some(Relation::Equal),
                    FilterOp::Le => rel == Some(Relation::Less) || rel == Some(Relation::Equal),
                }) || v is None && (op == FilterOp::Eq && (f.holds(t, row) <==> t.cell(row, col)
                    is None) || op == FilterOp::Ne && (f.holds(t, row) <==> t.cell(row, col)
                    is Some)),
            }
        }),
{
}

} // verus!
