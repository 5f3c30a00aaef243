//! Reading a table from the lines of a CSV file: the first line names the
//! columns, and the first data row decides the type of each column.
use vstd::prelude::*;
use crate::db::csv::{
    csv_fields, guess_db_type, i64_value, is_i64_text, lowercased, parse_i64, split_csv_line,
    texts, to_lowercase, trim, trimmed, value_type,
};
use crate::db::table::Table;
use crate::text::{chars_of, rest_is};
use crate::db::types::{ColId, DbType, DbVal, RowId};

verus! {

/// Why a CSV file could not be read as a table.
#[derive(Clone, Copy, Debug, PartialEq, Eq, Structural)]
pub enum CsvError {
    /// Data row `row` (counting from one, blank lines skipped) has `found`
    /// fields where the header has `expected`.
    FieldCount { row: usize, found: usize, expected: usize },
}

/// A parser of doubles that can be called on any text and gives the same
/// result for the same characters.
pub open spec fn parses_consistently<F: Fn(&str) -> Option<u64>>(f: F) -> bool {
    &&& forall|s: &str| #[trigger] f.requires((s,))
    &&& forall|s1: &str, s2: &str, a: Option<u64>, b: Option<u64>|
        s1@ == s2@ && #[trigger] f.ensures((s1,), a) && #[trigger] f.ensures((s2,), b) ==> a
            == b
}

/// What the parser gives for the characters `t`.
pub open spec fn parsed<F: Fn(&str) -> Option<u64>>(f: F, t: Seq<char>) -> Option<u64> {
    let (r, s) = choose|r: Option<u64>, s: &str| s@ == t && #[trigger] f.ensures((s,), r);
    r
}

/// Calls the parser (see [`parsed`]).
pub(crate) fn call_parser<F: Fn(&str) -> Option<u64>>(f: &F, s: &str) -> (r: Option<u64>)
    requires
        parses_consistently(*f),
    ensures
        r == parsed(*f, s@),
{
    let r = f(s);
    proof {
        assert(f.ensures((s,), r));
        assert(exists|r1: Option<u64>, s1: &str| s1@ == s@ && #[trigger] f.ensures((s1,), r1));
        let (r2, s2) = choose|r1: Option<u64>, s1: &str| s1@ == s@ && #[trigger] f.ensures((s1,), r1);
        assert(f.ensures((s2,), r2));
        assert(r2 == parsed(*f, s@));
    }
    r
}

/// The names in `hs`, each once, in the order they first appear.
pub open spec fn distinct(hs: Seq<Seq<char>>) -> Seq<Seq<char>>
    decreases hs.len(),
{
    if hs.len() == 0 {
        seq![]
    } else if distinct(hs.drop_last()).contains(hs.last()) {
        distinct(hs.drop_last())
    } else {
        distinct(hs.drop_last()).push(hs.last())
    }
}

/// The field lists of the data rows: the lines after the first, trimmed,
/// blank ones skipped.
pub open spec fn data_rows(ls: Seq<Seq<char>>) -> Seq<Seq<Seq<char>>>
    decreases ls.len(),
{
    if ls.len() <= 1 {
        seq![]
    } else if trimmed(ls.last()).len() > 0 {
        data_rows(ls.drop_last()).push(csv_fields(trimmed(ls.last())))
    } else {
        data_rows(ls.drop_last())
    }
}

/// The type the first data row's value `v` gives its column: the guessed
/// type (see [`value_type`]), or string where there is no guess.
pub open spec fn first_row_type(v: Seq<char>, dbl: spec_fn(Seq<char>) -> Option<u64>) -> DbType {
    match value_type(trimmed(v), lowercased(trimmed(v)), dbl(trimmed(v)) is Some) {
        Some(t) => t,
        None => DbType::String,
    }
}

/// The type each header field gives its values: decided by the first data
/// row, all strings when there is none.
pub open spec fn index_types(
    n: nat,
    rows: Seq<Seq<Seq<char>>>,
    dbl: spec_fn(Seq<char>) -> Option<u64>,
) -> Seq<DbType> {
    Seq::new(
        n,
        |i: int|
            if rows.len() > 0 {
                first_row_type(rows[0][i], dbl)
            } else {
                DbType::String
            },
    )
}

/// The type of the column named `h` once the header fields before `i` are
/// typed: the type of the last of them named `h` that is not a string;
/// string if there is none.
pub open spec fn name_type(hs: Seq<Seq<char>>, types: Seq<DbType>, h: Seq<char>, i: int) -> DbType
    decreases i,
{
    if i <= 0 {
        DbType::String
    } else if hs[i - 1] == h && types[i - 1] != DbType::String {
        types[i - 1]
    } else {
        name_type(hs, types, h, i - 1)
    }
}

/// A lower-case boolean word: `true`, `yes`, `false`, `no`.
pub open spec fn is_true_word(w: Seq<char>) -> bool {
    w == seq!['t', 'r', 'u', 'e'] || w == seq!['y', 'e', 's']
}

/// A lower-case word for false: `false`, `no`.
pub open spec fn is_false_word(w: Seq<char>) -> bool {
    w == seq!['f', 'a', 'l', 's', 'e'] || w == seq!['n', 'o']
}

/// The value `v` of a field typed `ty` is stored: it is not blank and reads
/// as its type (a string always; an integer as the text of an `i64`; a
/// boolean as `true`, `yes`, `false` or `no` in any case; a double where the
/// parser reads it).
pub open spec fn writes(ty: DbType, v: Seq<char>, dbl: spec_fn(Seq<char>) -> Option<u64>) -> bool {
    &&& trimmed(v).len() > 0
    &&& match ty {
        DbType::String => true,
        DbType::Integer => is_i64_text(v),
        DbType::Boolean => is_true_word(lowercased(v)) || is_false_word(lowercased(v)),
        DbType::Double => dbl(v) is Some,
    }
}

/// `c` is the value a field `v` typed `ty` is stored as.
pub open spec fn stored(
    c: Option<DbVal>,
    ty: DbType,
    v: Seq<char>,
    dbl: spec_fn(Seq<char>) -> Option<u64>,
) -> bool {
    match ty {
        DbType::String => c matches Some(DbVal::String(s)) && s@ == v,
        DbType::Integer => c == Some(DbVal::Integer(i64_value(v) as i64)),
        DbType::Boolean => c == Some(DbVal::Boolean(is_true_word(lowercased(v)))),
        DbType::Double => c == Some(DbVal::Double(dbl(v)->0)),
    }
}

/// The last of the fields before `i` of a row that is named `h` and
/// stored, if any.
pub open spec fn writer(
    hs: Seq<Seq<char>>,
    types: Seq<DbType>,
    row: Seq<Seq<char>>,
    h: Seq<char>,
    i: int,
    dbl: spec_fn(Seq<char>) -> Option<u64>,
) -> Option<int>
    decreases i,
{
    if i <= 0 {
        None
    } else if hs[i - 1] == h && writes(types[i - 1], row[i - 1], dbl) {
        Some(i - 1)
    } else {
        writer(hs, types, row, h, i - 1, dbl)
    }
}

/// Reads the header: an empty table with a string column for each name.
fn load_header(line: &str) -> (r: (Table, Vec<String>))
    ensures
        r.0.wf(),
        r.0.rows() == 0,
        texts(r.1@) == csv_fields(trimmed(line@)),
        r.0.names() == distinct(texts(r.1@)),
        forall|h: Seq<char>| #[trigger] r.0.columns().dom().contains(h) <==> distinct(texts(r.1@)).contains(h),
        forall|h: Seq<char>|
            #[trigger] r.0.columns().dom().contains(h) ==> r.0.columns()[h].ty == DbType::String,
        r.0.next_index(DbType::String) <= r.1@.len(),
        r.0.next_index(DbType::Integer) == 0,
        r.0.next_index(DbType::Boolean) == 0,
        r.0.next_index(DbType::Double) == 0,
        forall|row: RowId, col: ColId| #[trigger] r.0.cell(row, col) is None,
{
    let headers = split_csv_line(trim(line));
    let mut table = Table::new();
    let ghost hs = texts(headers@);
    let mut i: usize = 0;
    while i < headers.len()
        invariant
            i <= headers@.len(),
            hs == texts(headers@),
            table.wf(),
            table.rows() == 0,
            table.names() == distinct(hs.take(i as int)),
            forall|h: Seq<char>| #[trigger] table.columns().dom().contains(h) <==> distinct(hs.take(i as int)).contains(h),
            forall|h: Seq<char>|
                #[trigger] table.columns().dom().contains(h) ==> table.columns()[h].ty == DbType::String,
            table.next_index(DbType::String) <= i,
            table.next_index(DbType::Integer) == 0,
            table.next_index(DbType::Boolean) == 0,
            table.next_index(DbType::Double) == 0,
            forall|row: RowId, col: ColId| #[trigger] table.cell(row, col) is None,
        decreases headers@.len() - i,
    {
        let name = headers[i].as_str();
        let ghost before = table;
        proof {
            assert(hs.take(i + 1).drop_last() =~= hs.take(i as int));
            assert(hs.take(i + 1).last() == name@);
        }
        table.add_col(name, DbType::String);
        proof {
            let d0 = distinct(hs.take(i as int));
            if !before.columns().dom().contains(name@) {
                assert(!d0.contains(name@));
                assert(distinct(hs.take(i + 1)) == d0.push(name@));
                assert forall|h: Seq<char>| #[trigger] table.columns().dom().contains(h) <==> distinct(hs.take(i + 1)).contains(h) by {
                    if h == name@ {
                        assert(d0.push(name@)[d0.len() as int] == h);
                    } else {
                        if d0.contains(h) {
                            let k = choose|k: int| 0 <= k < d0.len() && d0[k] == h;
                            assert(d0.push(name@)[k] == h);
                        }
                        if d0.push(name@).contains(h) {
                            let k = choose|k: int| 0 <= k < d0.len() + 1 && d0.push(name@)[k] == h;
                            assert(d0[k] == h);
                        }
                    }
                }
            } else {
                assert(d0.contains(name@));
                assert(distinct(hs.take(i + 1)) == d0);
            }
        }
        i = i + 1;
    }
    assert(hs.take(i as int) =~= hs);
    (table, headers)
}

/// Types the columns by the first data row: each field whose value
/// suggests a type other than string gives its name a new column of that
/// type (see [`index_types`] and [`name_type`]).
fn type_columns<F: Fn(&str) -> Option<u64>>(
    table: &mut Table,
    headers: &Vec<String>,
    first: &Vec<String>,
    f: &F,
) -> (types: Vec<DbType>)
    requires
        old(table).wf(),
        parses_consistently(*f),
        first@.len() == headers@.len(),
        forall|h: Seq<char>| #[trigger] old(table).columns().dom().contains(h) <==> distinct(texts(headers@)).contains(h),
        forall|h: Seq<char>|
            #[trigger] old(table).columns().dom().contains(h) ==> old(table).columns()[h].ty
                == DbType::String,
        old(table).next_index(DbType::String) <= headers@.len(),
        old(table).next_index(DbType::Integer) == 0,
        old(table).next_index(DbType::Boolean) == 0,
        old(table).next_index(DbType::Double) == 0,
        forall|row: RowId, col: ColId| #[trigger] old(table).cell(row, col) is None,
    ensures
        final(table).wf(),
        final(table).rows() == old(table).rows(),
        final(table).names() == old(table).names(),
        forall|h: Seq<char>| #[trigger] final(table).columns().dom().contains(h) <==> old(table).columns().dom().contains(h),
        types@ == index_types(headers@.len(), seq![texts(first@)], |t: Seq<char>| parsed(*f, t)),
        forall|h: Seq<char>|
            #[trigger] final(table).columns().dom().contains(h) ==> final(table).columns()[h].ty
                == name_type(texts(headers@), types@, h, headers@.len() as int),
        forall|row: RowId, col: ColId| #[trigger] final(table).cell(row, col) is None,
{
    let ghost hs = texts(headers@);
    let ghost dbl = |t: Seq<char>| parsed(*f, t);
    let ghost want = index_types(headers@.len(), seq![texts(first@)], dbl);
    let mut types: Vec<DbType> = Vec::new();
    let mut i: usize = 0;
    while i < headers.len()
        invariant
            i <= headers@.len(),
            first@.len() == headers@.len(),
            hs == texts(headers@),
            dbl == (|t: Seq<char>| parsed(*f, t)),
            want == index_types(headers@.len(), seq![texts(first@)], dbl),
            parses_consistently(*f),
            table.wf(),
            table.rows() == old(table).rows(),
            table.names() == old(table).names(),
            forall|h: Seq<char>| #[trigger] table.columns().dom().contains(h) <==> old(table).columns().dom().contains(h),
            forall|h: Seq<char>| #[trigger] old(table).columns().dom().contains(h) <==> distinct(hs).contains(h),
            types@ == want.take(i as int),
            forall|h: Seq<char>|
                #[trigger] table.columns().dom().contains(h) ==> table.columns()[h].ty
                    == name_type(hs, want, h, i as int),
            table.next_index(DbType::String) <= headers@.len(),
            table.next_index(DbType::Integer) <= i,
            table.next_index(DbType::Boolean) <= i,
            table.next_index(DbType::Double) <= i,
            forall|row: RowId, col: ColId| #[trigger] table.cell(row, col) is None,
        decreases headers@.len() - i,
    {
        let v = first[i].as_str();
        let is_double = call_parser(f, trim(v)).is_some();
        let guess = guess_db_type(v, is_double);
        let ghost before = *table;
        proof {
            assert(want[i as int] == first_row_type(first@[i as int]@, dbl));
            assert(texts(first@)[i as int] == first@[i as int]@);
            assert(hs[i as int] == headers@[i as int]@);
            lemma_distinct_contains(hs, i as int);
        }
        let ty = match guess {
            Some(t) => t,
            None => DbType::String,
        };
        assert(ty == want[i as int]);
        if ty != DbType::String {
            table.retype(headers[i].as_str(), ty);
        }
        types.push(ty);
        proof {
            assert(types@ =~= want.take(i + 1));
            assert forall|h: Seq<char>| #[trigger] table.columns().dom().contains(h) implies table.columns()[h].ty
                == name_type(hs, want, h, i + 1) by {
                assert(before.columns().dom().contains(h));
            }
        }
        i = i + 1;
    }
    assert(want.take(i as int) =~= want);
    types
}

/// Every field of the header names a column of the distinct names.
proof fn lemma_distinct_contains(hs: Seq<Seq<char>>, i: int)
    requires
        0 <= i < hs.len(),
    ensures
        distinct(hs).contains(hs[i]),
    decreases hs.len(),
{
    let d = distinct(hs.drop_last());
    if i == hs.len() - 1 {
        if !d.contains(hs.last()) {
            assert(d.push(hs.last())[d.len() as int] == hs[i]);
        }
    } else {
        lemma_distinct_contains(hs.drop_last(), i);
        let k = choose|k: int| 0 <= k < d.len() && d[k] == hs[i];
        if !d.contains(hs.last()) {
            assert(d.push(hs.last())[k] == hs[i]);
        }
    }
}

/// The value a field `v` typed `ty` is stored as, if it reads as its type
/// (see [`writes`] and [`stored`]).
fn field_value<F: Fn(&str) -> Option<u64>>(ty: DbType, v: &String, f: &F) -> (r: Option<DbVal>)
    requires
        parses_consistently(*f),
    ensures
        r is Some == writes(ty, v@, |t: Seq<char>| parsed(*f, t)),
        r is Some ==> stored(r, ty, v@, |t: Seq<char>| parsed(*f, t)) && r->0.type_of() == ty,
{
    if trim(v.as_str()).is_empty() {
        return None;
    }
    match ty {
        DbType::String => Some(DbVal::String(v.clone())),
        DbType::Integer => match parse_i64(v.as_str()) {
            Some(i) => Some(DbVal::Integer(i)),
            None => None,
        },
        DbType::Boolean => {
            let lower = to_lowercase(v.as_str());
            let w = chars_of(lower.as_str());
            let t1 = ['t', 'r', 'u', 'e'];
            let y1 = ['y', 'e', 's'];
            let f1 = ['f', 'a', 'l', 's', 'e'];
            let n1 = ['n', 'o'];
            proof {
                assert(t1@ == seq!['t', 'r', 'u', 'e']);
                assert(y1@ == seq!['y', 'e', 's']);
                assert(f1@ == seq!['f', 'a', 'l', 's', 'e']);
                assert(n1@ == seq!['n', 'o']);
                assert(w@.skip(0) == w@);
            }
            if rest_is(&w, 0, &t1) || rest_is(&w, 0, &y1) {
                Some(DbVal::Boolean(true))
            } else if rest_is(&w, 0, &f1) || rest_is(&w, 0, &n1) {
                Some(DbVal::Boolean(false))
            } else {
                None
            }
        },
        DbType::Double => match call_parser(f, v.as_str()) {
            Some(b) => Some(DbVal::Double(b)),
            None => None,
        },
    }
}

/// Adds a row and stores in it each field that reads as its type, in the
/// column of its name; a later field of the same name wins (see
/// [`writer`]).
fn load_row<F: Fn(&str) -> Option<u64>>(
    table: &mut Table,
    headers: &Vec<String>,
    types: &Vec<DbType>,
    values: &Vec<String>,
    f: &F,
) -> (row: RowId)
    requires
        old(table).wf(),
        parses_consistently(*f),
        values@.len() == headers@.len(),
        types@.len() == headers@.len(),
        old(table).rows() < usize::MAX - 2,
        forall|h: Seq<char>| #[trigger] old(table).columns().dom().contains(h) <==> distinct(texts(headers@)).contains(h),
        forall|h: Seq<char>|
            #[trigger] old(table).columns().dom().contains(h) ==> old(table).columns()[h].ty
                == name_type(texts(headers@), types@, h, headers@.len() as int),
        forall|i: int|
            0 <= i < headers@.len() && writes(
                types@[i],
                #[trigger] values@[i]@,
                |t: Seq<char>| parsed(*f, t),
            ) ==> types@[i] == name_type(
                texts(headers@),
                types@,
                headers@[i]@,
                headers@.len() as int,
            ),
        forall|col: ColId| #[trigger] old(table).cell(RowId { idx: old(table).rows() as usize }, col) is None,
    ensures
        final(table).wf(),
        row.idx == old(table).rows(),
        final(table).rows() == old(table).rows() + 1,
        final(table).columns() == old(table).columns(),
        final(table).names() == old(table).names(),
        forall|t: DbType| #[trigger] final(table).next_index(t) == old(table).next_index(t),
        forall|r: RowId, c: ColId| r != row ==> #[trigger] final(table).cell(r, c) == old(table).cell(r, c),
        forall|h: Seq<char>|
            #[trigger] final(table).columns().dom().contains(h) ==> match writer(
                texts(headers@),
                types@,
                texts(values@),
                h,
                headers@.len() as int,
                |t: Seq<char>| parsed(*f, t),
            ) {
                None => final(table).cell(row, final(table).columns()[h]) is None,
                Some(j) => stored(
                    final(table).cell(row, final(table).columns()[h]),
                    types@[j],
                    values@[j]@,
                    |t: Seq<char>| parsed(*f, t),
                ),
            },
{
    let ghost hs = texts(headers@);
    let ghost vs = texts(values@);
    let ghost dbl = |t: Seq<char>| parsed(*f, t);
    let ghost n = headers@.len() as int;
    let row = table.add_row();
    let ghost start = *table;
    proof {
        assert forall|h: Seq<char>| #[trigger] table.columns().dom().contains(h) implies table.cell(
            row,
            table.columns()[h],
        ) is None by {
            assert(old(table).cell(RowId { idx: old(table).rows() as usize }, table.columns()[h]) is None);
        }
    }
    let mut i: usize = 0;
    while i < headers.len()
        invariant
            i <= headers@.len(),
            n == headers@.len(),
            values@.len() == headers@.len(),
            types@.len() == headers@.len(),
            hs == texts(headers@),
            vs == texts(values@),
            dbl == (|t: Seq<char>| parsed(*f, t)),
            parses_consistently(*f),
            row.idx == old(table).rows(),
            row.idx < usize::MAX - 2,
            row.idx < table.rows(),
            table.wf(),
            table.rows() == start.rows(),
            table.columns() == start.columns(),
            table.names() == start.names(),
            forall|t: DbType| #[trigger] table.next_index(t) == start.next_index(t),
            forall|h: Seq<char>| #[trigger] table.columns().dom().contains(h) <==> distinct(hs).contains(h),
            forall|h: Seq<char>|
                #[trigger] table.columns().dom().contains(h) ==> table.columns()[h].ty
                    == name_type(hs, types@, h, n),
            forall|k: int|
                0 <= k < n && writes(types@[k], #[trigger] values@[k]@, dbl) ==> types@[k]
                    == name_type(hs, types@, headers@[k]@, n),
            forall|r: RowId, c: ColId| r != row ==> #[trigger] table.cell(r, c) == start.cell(r, c),
            forall|h: Seq<char>|
                #[trigger] table.columns().dom().contains(h) ==> match writer(
                    hs,
                    types@,
                    vs,
                    h,
                    i as int,
                    dbl,
                ) {
                    None => table.cell(row, table.columns()[h]) is None,
                    Some(j) => stored(table.cell(row, table.columns()[h]), types@[j], values@[j]@, dbl),
                },
        decreases headers@.len() - i,
    {
        let ghost before = *table;
        let name = headers[i].as_str();
        proof {
            assert(hs[i as int] == name@);
            assert(vs[i as int] == values@[i as int]@);
            lemma_distinct_contains(hs, i as int);
        }
        let v = field_value(types[i], &values[i], f);
        match v {
            Some(val) => {
                let col = match table.col_id(name) {
                    Some(c) => c,
                    None => {
                        return row;
                    },
                };
                proof {
                    before.lemma_column_valid(name@);
                }
                table.put((row, col), val);
            },
            None => {},
        }
        proof {
            assert forall|h: Seq<char>| #[trigger] table.columns().dom().contains(h) implies match writer(
                hs,
                types@,
                vs,
                h,
                i + 1,
                dbl,
            ) {
                None => table.cell(row, table.columns()[h]) is None,
                Some(j) => stored(table.cell(row, table.columns()[h]), types@[j], values@[j]@, dbl),
            } by {
                assert(before.columns().dom().contains(h));
                if h != name@ {
                    before.lemma_columns_distinct(h, name@);
                }
            }
        }
        i = i + 1;
    }
    row
}

/// Where every field is typed string, every name is.
proof fn lemma_name_type_strings(hs: Seq<Seq<char>>, types: Seq<DbType>, h: Seq<char>, i: int)
    requires
        i <= types.len(),
        forall|k: int| 0 <= k < types.len() ==> types[k] == DbType::String,
    ensures
        name_type(hs, types, h, i) == DbType::String,
    decreases i,
{
    if i > 0 {
        lemma_name_type_strings(hs, types, h, i - 1);
    }
}

/// The writer of a name is one of the fields looked at.
proof fn lemma_writer_range(
    hs: Seq<Seq<char>>,
    types: Seq<DbType>,
    row: Seq<Seq<char>>,
    h: Seq<char>,
    i: int,
    dbl: spec_fn(Seq<char>) -> Option<u64>,
)
    ensures
        writer(hs, types, row, h, i, dbl) matches Some(j) ==> 0 <= j < i,
    decreases i,
{
    if i > 0 {
        lemma_writer_range(hs, types, row, h, i - 1, dbl);
    }
}

/// The first data row (from zero) whose number of fields is not `n`.
pub open spec fn first_misfit(rows: Seq<Seq<Seq<char>>>, n: nat) -> Option<int> {
    if exists|k: int| 0 <= k < rows.len() && (#[trigger] rows[k]).len() != n {
        Some(
            choose|k: int|
                0 <= k < rows.len() && (#[trigger] rows[k]).len() != n && forall|j: int|
                    0 <= j < k ==> (#[trigger] rows[j]).len() == n,
        )
    } else {
        None
    }
}

/// The data rows of a prefix of the lines come first among all data rows.
proof fn lemma_data_rows_prefix(ls: Seq<Seq<char>>, m: int)
    requires
        0 <= m <= ls.len(),
    ensures
        data_rows(ls.take(m)).len() <= data_rows(ls).len(),
        forall|k: int|
            0 <= k < data_rows(ls.take(m)).len() ==> #[trigger] data_rows(ls.take(m))[k]
                == data_rows(ls)[k],
    decreases ls.len(),
{
    if m == ls.len() {
        assert(ls.take(m) =~= ls);
    } else {
        assert(ls.take(m) =~= ls.drop_last().take(m));
        lemma_data_rows_prefix(ls.drop_last(), m);
    }
}

/// Loading the lines stores no field in a column that another field of the
/// same name typed differently: in every data row up to the first whose
/// number of fields is wrong, each stored field has the type of its name.
pub open spec fn no_type_conflict(ls: Seq<Seq<char>>, dbl: spec_fn(Seq<char>) -> Option<u64>) -> bool {
    ls.len() > 0 ==> ({
        let hs = csv_fields(trimmed(ls[0]));
        let rows = data_rows(ls);
        let types = index_types(hs.len(), rows, dbl);
        forall|k: int, i: int|
            0 <= k < rows.len() && (forall|j: int| 0 <= j <= k ==> (#[trigger] rows[j]).len()
                == hs.len()) && 0 <= i < hs.len() && writes(types[i], #[trigger] rows[k][i], dbl)
                ==> types[i] == name_type(hs, types, hs[i], hs.len() as int)
    })
}

/// What loading the lines `ls` of a CSV file gives, doubles read by `dbl`:
/// no lines give an empty table; else the first data row whose number of
/// fields differs from the header's is reported, and without one the table
/// has a column per distinct header name, typed as [`name_type`] says, and a
/// row per data row, storing its fields as [`writer`] and [`stored`] say.
pub open spec fn csv_loaded(
    ls: Seq<Seq<char>>,
    dbl: spec_fn(Seq<char>) -> Option<u64>,
    r: Result<(Table, usize), CsvError>,
) -> bool {
    &&& ls.len() == 0 ==> (r matches Ok((t, c)) && c == 0 && t.wf() && t.rows() == 0
        && t.names() == Seq::<Seq<char>>::empty())
    &&& ls.len() > 0 ==> ({
        let hs = csv_fields(trimmed(ls[0]));
        let rows = data_rows(ls);
        let types = index_types(hs.len(), rows, dbl);
        match first_misfit(rows, hs.len()) {
            Some(k) => r == Err::<(Table, usize), CsvError>(
                CsvError::FieldCount {
                    row: (k + 1) as usize,
                    found: rows[k].len() as usize,
                    expected: hs.len() as usize,
                },
            ),
            None => r matches Ok((t, c)) && c == rows.len() && t.wf() && t.rows() == rows.len()
                && t.names() == distinct(hs) && (forall|h: Seq<char>| #[trigger] t.columns().dom().contains(h)
                <==> distinct(hs).contains(h)) && (forall|h: Seq<char>|
                #[trigger] t.columns().dom().contains(h) ==> t.columns()[h].ty == name_type(
                    hs,
                    types,
                    h,
                    hs.len() as int,
                )) && (forall|k: int, h: Seq<char>|
                0 <= k < rows.len() && #[trigger] t.columns().dom().contains(h) ==> match writer(
                    hs,
                    types,
                    #[trigger] rows[k],
                    h,
                    hs.len() as int,
                    dbl,
                ) {
                    None => t.cell(RowId { idx: k as usize }, t.columns()[h]) is None,
                    Some(j) => stored(
                        t.cell(RowId { idx: k as usize }, t.columns()[h]),
                        types[j],
                        rows[k][j],
                        dbl,
                    ),
                }),
        }
    })
}

/// The table that the lines of a CSV file describe, and its number of data
/// rows. The first line names the columns; each later line that is not
/// blank is a data row of as many fields; the first data row types the
/// columns (see [`index_types`], [`name_type`]), and each row stores its
/// fields (see [`writer`], [`stored`]). Doubles are read by `parse_double`,
/// which gives the bit pattern of the double a text reads as.
///
/// A field stored under a name whose column another field of that name
/// typed differently is left out by `requires`.
pub fn from_csv_lines<F: Fn(&str) -> Option<u64>>(lines: &Vec<String>, parse_double: &F) -> (r: Result<
    (Table, usize),
    CsvError,
>)
    requires
        parses_consistently(*parse_double),
        lines@.len() < usize::MAX - 2,
        no_type_conflict(texts(lines@), |t: Seq<char>| parsed(*parse_double, t)),
    ensures
        csv_loaded(texts(lines@), |t: Seq<char>| parsed(*parse_double, t), r),
{
    if lines.len() == 0 {
        return Ok((Table::new(), 0));
    }
    let ghost ls = texts(lines@);
    let ghost dbl = |t: Seq<char>| parsed(*parse_double, t);
    let (mut table, headers) = load_header(lines[0].as_str());
    let ghost hs = texts(headers@);
    assert(ls[0] == lines@[0]@);
    let n = headers.len();
    let mut types: Vec<DbType> = Vec::new();
    while types.len() < n
        invariant
            types@.len() <= n,
            forall|i: int| 0 <= i < types@.len() ==> types@[i] == DbType::String,
        decreases n - types@.len(),
    {
        types.push(DbType::String);
    }
    let ghost all_rows = data_rows(ls);
    let ghost tfull = index_types(n as nat, all_rows, dbl);
    proof {
        assert(types@ =~= index_types(n as nat, Seq::<Seq<Seq<char>>>::empty(), dbl));
        assert forall|h: Seq<char>| #[trigger] table.columns().dom().contains(h) implies table.columns()[h].ty
            == name_type(hs, types@, h, n as int) by {
            lemma_name_type_strings(hs, types@, h, n as int);
        }
    }
    let mut count: usize = 0;
    let mut l: usize = 1;
    while l < lines.len()
        invariant
            1 <= l <= lines@.len(),
            lines@.len() < usize::MAX - 2,
            ls == texts(lines@),
            hs == texts(headers@),
            hs == csv_fields(trimmed(ls[0])),
            n == headers@.len(),
            all_rows == data_rows(ls),
            dbl == (|t: Seq<char>| parsed(*parse_double, t)),
            parses_consistently(*parse_double),
            tfull == index_types(n as nat, all_rows, dbl),
            forall|k: int, i: int|
                0 <= k < all_rows.len() && (forall|j: int| 0 <= j <= k ==> (#[trigger] all_rows[j]).len()
                    == n) && 0 <= i < n && writes(tfull[i], #[trigger] all_rows[k][i], dbl) ==> tfull[i]
                    == name_type(hs, tfull, hs[i], n as int),
            count == data_rows(ls.take(l as int)).len(),
            count <= l,
            forall|j: int| 0 <= j < count ==> (#[trigger] data_rows(ls.take(l as int))[j]).len() == n,
            types@.len() == n,
            types@ == index_types(n as nat, data_rows(ls.take(l as int)), dbl),
            table.wf(),
            table.rows() == count,
            table.names() == distinct(hs),
            forall|h: Seq<char>| #[trigger] table.columns().dom().contains(h) <==> distinct(hs).contains(h),
            forall|h: Seq<char>|
                #[trigger] table.columns().dom().contains(h) ==> table.columns()[h].ty
                    == name_type(hs, types@, h, n as int),
            count == 0 ==> table.next_index(DbType::String) <= n && table.next_index(DbType::Integer) == 0
                && table.next_index(DbType::Boolean) == 0 && table.next_index(DbType::Double) == 0
                && forall|row: RowId, col: ColId| #[trigger] table.cell(row, col) is None,
            forall|row: RowId, col: ColId| row.idx >= count ==> #[trigger] table.cell(row, col) is None,
            forall|k: int, h: Seq<char>|
                0 <= k < count && #[trigger] table.columns().dom().contains(h) ==> match writer(
                    hs,
                    types@,
                    #[trigger] data_rows(ls.take(l as int))[k],
                    h,
                    n as int,
                    dbl,
                ) {
                    None => table.cell(RowId { idx: k as usize }, table.columns()[h]) is None,
                    Some(j) => stored(
                        table.cell(RowId { idx: k as usize }, table.columns()[h]),
                        types@[j],
                        data_rows(ls.take(l as int))[k][j],
                        dbl,
                    ),
                },
        decreases lines@.len() - l,
    {
        let ghost before_rows = data_rows(ls.take(l as int));
        let line = trim(lines[l].as_str());
        proof {
            assert(ls.take(l + 1).drop_last() =~= ls.take(l as int));
            assert(ls.take(l + 1).last() == lines@[l as int]@);
        }
        if line.is_empty() {
            assert(data_rows(ls.take(l + 1)) == before_rows);
            l = l + 1;
            continue;
        }
        let values = split_csv_line(line);
        assert(data_rows(ls.take(l + 1)) == before_rows.push(texts(values@)));
        if values.len() != n {
            proof {
                lemma_data_rows_prefix(ls, l + 1);
                assert(ls.take(lines@.len() as int) =~= ls);
                let rows = data_rows(ls);
                assert(data_rows(ls.take(l + 1))[count as int] == texts(values@));
                assert(data_rows(ls.take(l + 1))[count as int] == rows[count as int]);
                assert(rows[count as int] == texts(values@));
                assert(rows[count as int].len() != n);
                assert forall|j: int| 0 <= j < count implies (#[trigger] rows[j]).len() == n by {
                    assert(data_rows(ls.take(l + 1))[j] == before_rows[j]);
                }
                let c = first_misfit(rows, n as nat)->0;
                assert(first_misfit(rows, n as nat) is Some);
                assert(c == count) by {
                    if c < count {
                        assert(rows[c].len() == n);
                    } else if c > count {
                    }
                }
            }
            return Err(CsvError::FieldCount { row: count + 1, found: values.len(), expected: n });
        }
        if count == 0 {
            proof {
                assert(data_rows(ls.take(l as int)).len() == 0);
                assert forall|k: int| 0 <= k < types@.len() implies types@[k] == DbType::String by {
                }
                assert forall|h: Seq<char>| #[trigger] table.columns().dom().contains(h) implies table.columns()[h].ty
                    == DbType::String by {
                    lemma_name_type_strings(hs, types@, h, n as int);
                }
            }
            types = type_columns(&mut table, &headers, &values, parse_double);
            assert(types@ =~= index_types(n as nat, data_rows(ls.take(l + 1)), dbl));
        } else {
            assert(types@ =~= index_types(n as nat, data_rows(ls.take(l + 1)), dbl));
        }
        proof {
            lemma_data_rows_prefix(ls, l + 1);
            assert(ls.take(lines@.len() as int) =~= ls);
            let rows1 = data_rows(ls.take(l + 1));
            assert(rows1 == before_rows.push(texts(values@)));
            assert(rows1[count as int] == texts(values@));
            assert(rows1[count as int] == all_rows[count as int]);
            assert(rows1[0] == all_rows[0]);
            assert(index_types(n as nat, all_rows, dbl) =~= types@);
            assert forall|j: int| 0 <= j <= count implies (#[trigger] all_rows[j]).len() == n by {
                assert(rows1[j] == all_rows[j]);
                if j < count {
                    assert(rows1[j] == before_rows[j]);
                }
            }
            assert(dbl =~= |t: Seq<char>| parsed(*parse_double, t));
            assert(tfull == types@);
            assert forall|i: int|
                0 <= i < n && writes(types@[i], #[trigger] values@[i]@, dbl) implies types@[i]
                == name_type(hs, types@, headers@[i]@, n as int) by {
                assert(texts(values@)[i] == values@[i]@);
                assert(hs[i] == headers@[i]@);
                assert(all_rows[count as int][i] == values@[i]@);
                assert(writes(tfull[i], all_rows[count as int][i], dbl));
            }
            assert forall|col: ColId| #[trigger] table.cell(RowId { idx: table.rows() as usize }, col) is None by {
            }
        }
        let ghost mid = table;
        let row = load_row(&mut table, &headers, &types, &values, parse_double);
        proof {
            let rows1 = data_rows(ls.take(l + 1));
            assert(table.columns() == mid.columns());
            assert forall|k: int, h: Seq<char>|
                0 <= k < count + 1 && #[trigger] table.columns().dom().contains(h) implies match writer(
                    hs,
                    types@,
                    #[trigger] rows1[k],
                    h,
                    n as int,
                    dbl,
                ) {
                    None => table.cell(RowId { idx: k as usize }, table.columns()[h]) is None,
                    Some(j) => stored(
                        table.cell(RowId { idx: k as usize }, table.columns()[h]),
                        types@[j],
                        rows1[k][j],
                        dbl,
                    ),
                } by {
                assert(rows1 == before_rows.push(texts(values@)));
                assert(dbl =~= |t: Seq<char>| parsed(*parse_double, t));
                let rk = RowId { idx: k as usize };
                if k < count {
                    assert(rows1[k] == before_rows[k]);
                    assert(data_rows(ls.take(l as int))[k] == before_rows[k]);
                    assert(rk != row);
                    assert(mid.columns().dom().contains(h));
                    assert(table.cell(rk, mid.columns()[h]) == mid.cell(rk, mid.columns()[h]));
                } else {
                    assert forall|j: int| 0 <= j < n implies #[trigger] texts(values@)[j] == values@[j]@ by {
                    }
                    assert(rows1[k] == texts(values@));
                    assert(rk == row);
                    lemma_writer_range(hs, types@, texts(values@), h, n as int, dbl);
                }
            }
        }
        count = count + 1;
        l = l + 1;
    }
    assert(ls.take(l as int) =~= ls);
    Ok((table, count))
}

/// The type of the column named `headers[i]` once all fields are typed
/// (see [`name_type`]).
fn type_of_name(headers: &Vec<String>, types: &Vec<DbType>, i: usize) -> (t: DbType)
    requires
        i < headers@.len(),
        types@.len() == headers@.len(),
    ensures
        t == name_type(texts(headers@), types@, headers@[i as int]@, headers@.len() as int),
{
    let ghost hs = texts(headers@);
    let mut cur = DbType::String;
    let mut j: usize = 0;
    while j < headers.len()
        invariant
            i < headers@.len(),
            types@.len() == headers@.len(),
            hs == texts(headers@),
            j <= headers@.len(),
            cur == name_type(hs, types@, headers@[i as int]@, j as int),
        decreases headers@.len() - j,
    {
        assert(hs[j as int] == headers@[j as int]@);
        if headers[j] == headers[i] && types[j] != DbType::String {
            cur = types[j];
        }
        j = j + 1;
    }
    cur
}

/// Whether loading the lines would store a field in a column that another
/// field of the same name typed differently (see [`no_type_conflict`]).
pub fn has_type_conflict<F: Fn(&str) -> Option<u64>>(lines: &Vec<String>, parse_double: &F) -> (b: bool)
    requires
        parses_consistently(*parse_double),
    ensures
        b == !no_type_conflict(texts(lines@), |t: Seq<char>| parsed(*parse_double, t)),
{
    if lines.len() == 0 {
        return false;
    }
    let ghost ls = texts(lines@);
    let ghost dbl = |t: Seq<char>| parsed(*parse_double, t);
    let ghost all_rows = data_rows(ls);
    assert(ls[0] == lines@[0]@);
    let headers = split_csv_line(trim(lines[0].as_str()));
    let ghost hs = texts(headers@);
    let n = headers.len();
    let ghost tfull = index_types(n as nat, all_rows, dbl);
    let mut types: Vec<DbType> = Vec::new();
    let mut names: Vec<DbType> = Vec::new();
    let mut count: usize = 0;
    let mut l: usize = 1;
    while l < lines.len()
        invariant
            1 <= l <= lines@.len(),
            ls == texts(lines@),
            hs == texts(headers@),
            hs == csv_fields(trimmed(ls[0])),
            n == headers@.len(),
            all_rows == data_rows(ls),
            dbl == (|t: Seq<char>| parsed(*parse_double, t)),
            parses_consistently(*parse_double),
            tfull == index_types(n as nat, all_rows, dbl),
            count == data_rows(ls.take(l as int)).len(),
            count <= all_rows.len(),
            count <= l,
            count == 0 ==> types@.len() == 0,
            tfull.len() == n,
            forall|j: int| 0 <= j < count ==> #[trigger] data_rows(ls.take(l as int))[j] == all_rows[j],
            forall|j: int| 0 <= j < count ==> (#[trigger] all_rows[j]).len() == n,
            count > 0 ==> types@ == tfull && names@.len() == n && forall|i: int|
                0 <= i < n ==> #[trigger] names@[i] == name_type(hs, tfull, hs[i], n as int),
            forall|k: int, i: int|
                0 <= k < count && 0 <= i < n && writes(tfull[i], #[trigger] all_rows[k][i], dbl)
                    ==> tfull[i] == name_type(hs, tfull, hs[i], n as int),
        decreases lines@.len() - l,
    {
        let line = trim(lines[l].as_str());
        proof {
            assert(ls.take(l + 1).drop_last() =~= ls.take(l as int));
            assert(ls.take(l + 1).last() == lines@[l as int]@);
            lemma_data_rows_prefix(ls, l + 1);
            assert(ls.take(lines@.len() as int) =~= ls);
        }
        if line.is_empty() {
            assert(data_rows(ls.take(l + 1)) == data_rows(ls.take(l as int)));
            l = l + 1;
            continue;
        }
        let values = split_csv_line(line);
        proof {
            assert(data_rows(ls.take(l + 1)) == data_rows(ls.take(l as int)).push(texts(values@)));
            assert(data_rows(ls.take(l + 1))[count as int] == all_rows[count as int]);
            assert(all_rows[count as int] == texts(values@));
        }
        if values.len() != n {
            proof {
                assert forall|k: int, i: int|
                    0 <= k < all_rows.len() && (forall|j: int| 0 <= j <= k ==> (#[trigger] all_rows[j]).len()
                        == hs.len()) && 0 <= i < hs.len() && writes(tfull[i], #[trigger] all_rows[k][i], dbl)
                        implies tfull[i] == name_type(hs, tfull, hs[i], hs.len() as int) by {
                    if k >= count {
                        assert(all_rows[count as int].len() == n);
                    }
                }
            }
            proof {
                assert(dbl =~= |t: Seq<char>| parsed(*parse_double, t));
                assert(no_type_conflict(ls, dbl));
            }
            return false;
        }
        if count == 0 {
            let mut i: usize = 0;
            while i < n
                invariant
                    i <= n,
                    n == headers@.len(),
                    values@.len() == n,
                    all_rows.len() > 0,
                    all_rows[0] == texts(values@),
                    tfull == index_types(n as nat, all_rows, dbl),
                    dbl == (|t: Seq<char>| parsed(*parse_double, t)),
                    parses_consistently(*parse_double),
                    types@ == tfull.take(i as int),
                decreases n - i,
            {
                let v = values[i].as_str();
                let is_double = call_parser(parse_double, trim(v));
                let ty = match guess_db_type(v, is_double.is_some()) {
                    Some(t) => t,
                    None => DbType::String,
                };
                proof {
                    assert(texts(values@)[i as int] == values@[i as int]@);
                    assert(tfull[i as int] == first_row_type(all_rows[0][i as int], dbl));
                }
                types.push(ty);
                assert(types@ =~= tfull.take(i + 1));
                i = i + 1;
            }
            assert(types@ =~= tfull);
            names = Vec::new();
            let mut i: usize = 0;
            while i < n
                invariant
                    i <= n,
                    n == headers@.len(),
                    types@.len() == n,
                    types@ == tfull,
                    hs == texts(headers@),
                    names@.len() == i,
                    forall|k: int| 0 <= k < i ==> #[trigger] names@[k] == name_type(hs, tfull, hs[k], n as int),
                decreases n - i,
            {
                let t = type_of_name(&headers, &types, i);
                assert(hs[i as int] == headers@[i as int]@);
                names.push(t);
                i = i + 1;
            }
        }
        let mut i: usize = 0;
        while i < n
            invariant
                i <= n,
                n == headers@.len(),
                values@.len() == n,
                types@ == tfull,
                names@.len() == n,
                forall|k: int| 0 <= k < n ==> #[trigger] names@[k] == name_type(hs, tfull, hs[k], n as int),
                all_rows[count as int] == texts(values@),
                count < all_rows.len(),
                tfull.len() == n,
                hs == texts(headers@),
                ls.len() > 0,
                ls == texts(lines@),
                hs == csv_fields(trimmed(ls[0])),
                all_rows == data_rows(ls),
                tfull == index_types(n as nat, all_rows, dbl),
                forall|j: int| 0 <= j < count ==> (#[trigger] all_rows[j]).len() == n,
                dbl == (|t: Seq<char>| parsed(*parse_double, t)),
                parses_consistently(*parse_double),
                forall|k: int|
                    0 <= k < i && writes(tfull[k], #[trigger] all_rows[count as int][k], dbl) ==> tfull[k]
                        == name_type(hs, tfull, hs[k], n as int),
            decreases n - i,
        {
            let w = field_value(types[i], &values[i], parse_double);
            proof {
                assert(texts(values@)[i as int] == values@[i as int]@);
                assert(dbl =~= |t: Seq<char>| parsed(*parse_double, t));
            }
            if w.is_some() && types[i] != names[i] {
                proof {
                    assert(!(tfull[i as int] == name_type(hs, tfull, hs[i as int], n as int)));
                    assert forall|j: int| 0 <= j <= count implies (#[trigger] all_rows[j]).len() == hs.len() by {
                        if j == count {
                            assert(texts(values@).len() == n);
                        }
                    }
                    assert(dbl =~= |t: Seq<char>| parsed(*parse_double, t));
                    assert(writes(tfull[i as int], all_rows[count as int][i as int], dbl));
                    assert(!no_type_conflict(ls, dbl));
                }
                return true;
            }
            i = i + 1;
        }
        proof {
            assert forall|j: int| 0 <= j < count + 1 implies #[trigger] data_rows(ls.take(l + 1))[j] == all_rows[j] by {
            }
        }
        count = count + 1;
        l = l + 1;
    }
    proof {
        assert(ls.take(l as int) =~= ls);
        assert(count == all_rows.len());
        assert(dbl =~= |t: Seq<char>| parsed(*parse_double, t));
        assert forall|k: int, i: int|
            0 <= k < all_rows.len() && (forall|j: int| 0 <= j <= k ==> (#[trigger] all_rows[j]).len()
                == hs.len()) && 0 <= i < hs.len() && writes(tfull[i], #[trigger] all_rows[k][i], dbl)
                implies tfull[i] == name_type(hs, tfull, hs[i], hs.len() as int) by {
        }
        assert(no_type_conflict(ls, dbl));
    }
    false
}

/// Loads the lines of a CSV file as [`from_csv_lines`] does, after testing
/// for a field whose value its column's type cannot store
/// ([`has_type_conflict`]): nothing on such a conflict, else what loading
/// gives.
pub fn load_csv_lines<F: Fn(&str) -> Option<u64>>(lines: &Vec<String>, parse_double: &F) -> (r: Option<
    Result<(Table, usize), CsvError>,
>)
    requires
        parses_consistently(*parse_double),
        lines@.len() < usize::MAX - 2,
    ensures
        r is None <==> !no_type_conflict(texts(lines@), |t: Seq<char>| parsed(*parse_double, t)),
        r matches Some(x) ==> csv_loaded(texts(lines@), |t: Seq<char>| parsed(*parse_double, t), x),
{
    if has_type_conflict(lines, parse_double) {
        return None;
    }
    Some(from_csv_lines(lines, parse_double))
}

/// The fields of `row` before `i` that are not blank but do not read as
/// the type of their index, each with that type: what loading the row
/// warns of.
pub open spec fn field_warnings(
    types: Seq<DbType>,
    row: Seq<Seq<char>>,
    i: int,
    dbl: spec_fn(Seq<char>) -> Option<u64>,
) -> Seq<(DbType, Seq<char>)>
    decreases i,
{
    if i <= 0 {
        seq![]
    } else if trimmed(row[i - 1]).len() > 0 && !writes(types[i - 1], row[i - 1], dbl) {
        field_warnings(types, row, i - 1, dbl).push((types[i - 1], row[i - 1]))
    } else {
        field_warnings(types, row, i - 1, dbl)
    }
}

/// The warnings of the data rows before `k`, as long as every row so far
/// has `n` fields: loading stops at the first row that has not.
pub open spec fn rows_warnings(
    rows: Seq<Seq<Seq<char>>>,
    n: nat,
    types: Seq<DbType>,
    k: int,
    dbl: spec_fn(Seq<char>) -> Option<u64>,
) -> Seq<(DbType, Seq<char>)>
    decreases k,
{
    if k <= 0 {
        seq![]
    } else if forall|j: int| 0 <= j < k ==> (#[trigger] rows[j]).len() == n {
        rows_warnings(rows, n, types, k - 1, dbl) + field_warnings(types, rows[k - 1], n as int, dbl)
    } else {
        rows_warnings(rows, n, types, k - 1, dbl)
    }
}

/// What loading the lines of a CSV file warns of, in order: each field of
/// a data row, up to the first row whose number of fields is wrong, that
/// is not blank and does not read as the type of its column.
pub open spec fn csv_warnings(ls: Seq<Seq<char>>, dbl: spec_fn(Seq<char>) -> Option<u64>) -> Seq<
    (DbType, Seq<char>),
> {
    if ls.len() == 0 {
        seq![]
    } else {
        let n = csv_fields(trimmed(ls[0])).len();
        let rows = data_rows(ls);
        rows_warnings(rows, n, index_types(n, rows, dbl), rows.len() as int, dbl)
    }
}

/// Past a data row with the wrong number of fields, no row adds a warning.
proof fn lemma_rows_warnings_stop(
    rows: Seq<Seq<Seq<char>>>,
    n: nat,
    types: Seq<DbType>,
    c: int,
    k: int,
    dbl: spec_fn(Seq<char>) -> Option<u64>,
)
    requires
        0 <= c < k,
        rows[c].len() != n,
    ensures
        rows_warnings(rows, n, types, k, dbl) == rows_warnings(rows, n, types, c, dbl),
    decreases k,
{
    assert(!(forall|j: int| 0 <= j < k ==> (#[trigger] rows[j]).len() == n));
    if k - 1 > c {
        lemma_rows_warnings_stop(rows, n, types, c, k - 1, dbl);
    }
}

/// The values of a list of warnings.
pub open spec fn warning_texts(w: Seq<(DbType, String)>) -> Seq<(DbType, Seq<char>)> {
    w.map_values(|p: (DbType, String)| (p.0, p.1@))
}

/// The fields that loading the lines warns of ([`csv_warnings`]): each with
/// the type of its column, in the order of the file.
pub fn load_warnings<F: Fn(&str) -> Option<u64>>(lines: &Vec<String>, parse_double: &F) -> (w: Vec<
    (DbType, String),
>)
    requires
        parses_consistently(*parse_double),
    ensures
        warning_texts(w@) == csv_warnings(texts(lines@), |t: Seq<char>| parsed(*parse_double, t)),
{
    let mut out: Vec<(DbType, String)> = Vec::new();
    if lines.len() == 0 {
        assert(warning_texts(out@) =~= Seq::<(DbType, Seq<char>)>::empty());
        return out;
    }
    let ghost ls = texts(lines@);
    let ghost dbl = |t: Seq<char>| parsed(*parse_double, t);
    let ghost all_rows = data_rows(ls);
    assert(ls[0] == lines@[0]@);
    let headers = split_csv_line(trim(lines[0].as_str()));
    let n = headers.len();
    let ghost tfull = index_types(n as nat, all_rows, dbl);
    let mut types: Vec<DbType> = Vec::new();
    let mut count: usize = 0;
    let mut l: usize = 1;
    while l < lines.len()
        invariant
            1 <= l <= lines@.len(),
            ls == texts(lines@),
            texts(headers@) == csv_fields(trimmed(ls[0])),
            n == headers@.len(),
            all_rows == data_rows(ls),
            dbl == (|t: Seq<char>| parsed(*parse_double, t)),
            parses_consistently(*parse_double),
            tfull == index_types(n as nat, all_rows, dbl),
            count == data_rows(ls.take(l as int)).len(),
            count <= l,
            count <= all_rows.len(),
            count == 0 ==> types@.len() == 0,
            count > 0 ==> types@ == tfull,
            tfull.len() == n,
            forall|j: int| 0 <= j < count ==> #[trigger] data_rows(ls.take(l as int))[j] == all_rows[j],
            forall|j: int| 0 <= j < count ==> (#[trigger] all_rows[j]).len() == n,
            warning_texts(out@) == rows_warnings(all_rows, n as nat, tfull, count as int, dbl),
        decreases lines@.len() - l,
    {
        let line = trim(lines[l].as_str());
        proof {
            assert(ls.take(l + 1).drop_last() =~= ls.take(l as int));
            assert(ls.take(l + 1).last() == lines@[l as int]@);
            lemma_data_rows_prefix(ls, l + 1);
            assert(ls.take(lines@.len() as int) =~= ls);
        }
        if line.is_empty() {
            assert(data_rows(ls.take(l + 1)) == data_rows(ls.take(l as int)));
            l = l + 1;
            continue;
        }
        let values = split_csv_line(line);
        proof {
            assert(data_rows(ls.take(l + 1)) == data_rows(ls.take(l as int)).push(texts(values@)));
            assert(data_rows(ls.take(l + 1))[count as int] == all_rows[count as int]);
            assert(all_rows[count as int] == texts(values@));
        }
        if values.len() != n {
            proof {
                lemma_rows_warnings_stop(all_rows, n as nat, tfull, count as int, all_rows.len() as int, dbl);
                assert(dbl =~= |t: Seq<char>| parsed(*parse_double, t));
            }
            return out;
        }
        if count == 0 {
            let mut i: usize = 0;
            while i < n
                invariant
                    i <= n,
                    n == headers@.len(),
                    values@.len() == n,
                    all_rows.len() > 0,
                    all_rows[0] == texts(values@),
                    tfull == index_types(n as nat, all_rows, dbl),
                    dbl == (|t: Seq<char>| parsed(*parse_double, t)),
                    parses_consistently(*parse_double),
                    types@ == tfull.take(i as int),
                decreases n - i,
            {
                let v = values[i].as_str();
                let is_double = call_parser(parse_double, trim(v));
                let ty = match guess_db_type(v, is_double.is_some()) {
                    Some(t) => t,
                    None => DbType::String,
                };
                proof {
                    assert(texts(values@)[i as int] == values@[i as int]@);
                    assert(tfull[i as int] == first_row_type(all_rows[0][i as int], dbl));
                }
                types.push(ty);
                assert(types@ =~= tfull.take(i + 1));
                i = i + 1;
            }
            assert(types@ =~= tfull);
        }
        let ghost before = out@;
        let ghost row = all_rows[count as int];
        let mut i: usize = 0;
        while i < n
            invariant
                i <= n,
                n == headers@.len(),
                values@.len() == n,
                types@ == tfull,
                tfull.len() == n,
                row == texts(values@),
                dbl == (|t: Seq<char>| parsed(*parse_double, t)),
                parses_consistently(*parse_double),
                warning_texts(out@) == warning_texts(before) + field_warnings(tfull, row, i as int, dbl),
            decreases n - i,
        {
            let ghost prev = out@;
            let w = field_value(types[i], &values[i], parse_double);
            let blank = trim(values[i].as_str()).is_empty();
            proof {
                assert(texts(values@)[i as int] == values@[i as int]@);
                assert(dbl =~= |t: Seq<char>| parsed(*parse_double, t));
            }
            if !blank && w.is_none() {
                out.push((types[i], values[i].clone()));
                proof {
                    assert(warning_texts(out@) =~= warning_texts(prev).push((tfull[i as int], row[i as int])));
                }
            }
            i = i + 1;
        }
        proof {
            assert forall|j: int| 0 <= j < count + 1 implies (#[trigger] all_rows[j]).len() == n by {
                if j == count {
                    assert(texts(values@).len() == n);
                }
            }
            assert(rows_warnings(all_rows, n as nat, tfull, count + 1, dbl) == rows_warnings(
                all_rows,
                n as nat,
                tfull,
                count as int,
                dbl,
            ) + field_warnings(tfull, all_rows[count as int], n as int, dbl));
            assert forall|j: int| 0 <= j < count + 1 implies #[trigger] data_rows(ls.take(l + 1))[j] == all_rows[j] by {
            }
        }
        count = count + 1;
        l = l + 1;
    }
    proof {
        assert(ls.take(l as int) =~= ls);
        assert(count == all_rows.len());
        assert(dbl =~= |t: Seq<char>| parsed(*parse_double, t));
    }
    out
}

} // verus!
