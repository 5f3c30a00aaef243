//! How database values compare: nulls first, strings by their characters,
//! integers by value, `false` before `true`, and doubles in the IEEE 754
//! total order (`f64::total_cmp`). Values of different types do not compare.
use vstd::prelude::*;
use crate::db::types::{DbRef, DbVal};
use crate::text::chars_of;

verus! {

/// How one value stands to another.
#[derive(Clone, Copy, Debug, PartialEq, Eq, Structural)]
pub enum Relation {
    Less,
    Equal,
    Greater,
}

impl Relation {
    /// The relation seen from the other side.
    pub open spec fn flip(self) -> Relation {
        match self {
            Relation::Less => Relation::Greater,
            Relation::Equal => Relation::Equal,
            Relation::Greater => Relation::Less,
        }
    }

    /// The relation seen from the other side.
    pub fn flipped(self) -> (r: Relation)
        ensures
            r == self.flip(),
    {
        match self {
            Relation::Less => Relation::Greater,
            Relation::Equal => Relation::Equal,
            Relation::Greater => Relation::Less,
        }
    }
}

/// Integers by value.
pub open spec fn int_rel(a: int, b: int) -> Relation {
    if a < b {
        Relation::Less
    } else if a == b {
        Relation::Equal
    } else {
        Relation::Greater
    }
}

/// Character sequences in lexicographic order of their code points, which
/// is the byte order of their UTF-8 encodings.
pub open spec fn text_rel(a: Seq<char>, b: Seq<char>) -> Relation
    decreases a.len(),
{
    if a.len() == 0 {
        if b.len() == 0 {
            Relation::Equal
        } else {
            Relation::Less
        }
    } else if b.len() == 0 {
        Relation::Greater
    } else if a[0] != b[0] {
        int_rel(a[0] as int, b[0] as int)
    } else {
        text_rel(a.drop_first(), b.drop_first())
    }
}

/// The key under which the bit patterns of doubles sort in the IEEE 754
/// total order: negative numbers have all their bits flipped, the others
/// their sign bit set.
pub open spec fn double_key(b: u64) -> u64 {
    if b >= 0x8000_0000_0000_0000 {
        (0xffff_ffff_ffff_ffffu64 - b) as u64
    } else {
        (b + 0x8000_0000_0000_0000) as u64
    }
}

/// How two non-null values compare; nothing for values of different types.
pub open spec fn val_rel(a: DbVal, b: DbVal) -> Option<Relation> {
    match (a, b) {
        (DbVal::String(x), DbVal::String(y)) => Some(text_rel(x@, y@)),
        (DbVal::Integer(x), DbVal::Integer(y)) => Some(int_rel(x as int, y as int)),
        (DbVal::Boolean(x), DbVal::Boolean(y)) => Some(
            int_rel(if x { 1int } else { 0int }, if y { 1int } else { 0int }),
        ),
        (DbVal::Double(x), DbVal::Double(y)) => Some(
            int_rel(double_key(x) as int, double_key(y) as int),
        ),
        _ => None,
    }
}

/// How two nullable values compare: a null equals a null and comes before
/// every value.
pub open spec fn cell_rel(a: Option<DbVal>, b: Option<DbVal>) -> Option<Relation> {
    match (a, b) {
        (None, None) => Some(Relation::Equal),
        (None, Some(_)) => Some(Relation::Less),
        (Some(_), None) => Some(Relation::Greater),
        (Some(x), Some(y)) => val_rel(x, y),
    }
}

/// How two integers compare.
fn compare_ints(a: i64, b: i64) -> (r: Relation)
    ensures
        r == int_rel(a as int, b as int),
{
    if a < b {
        Relation::Less
    } else if a == b {
        Relation::Equal
    } else {
        Relation::Greater
    }
}

/// How two unsigned integers compare.
fn compare_u64s(a: u64, b: u64) -> (r: Relation)
    ensures
        r == int_rel(a as int, b as int),
{
    if a < b {
        Relation::Less
    } else if a == b {
        Relation::Equal
    } else {
        Relation::Greater
    }
}

/// The sort key of a double's bit pattern (see [`double_key`]).
pub fn total_order_key(b: u64) -> (k: u64)
    ensures
        k == double_key(b),
{
    if b >= 0x8000_0000_0000_0000 {
        0xffff_ffff_ffff_ffffu64 - b
    } else {
        b + 0x8000_0000_0000_0000
    }
}

proof fn lemma_text_rel_skip(a: Seq<char>, b: Seq<char>, i: int)
    requires
        0 <= i <= a.len(),
        i <= b.len(),
        forall|j: int| 0 <= j < i ==> a[j] == b[j],
    ensures
        text_rel(a, b) == text_rel(a.skip(i), b.skip(i)),
    decreases i,
{
    if i > 0 {
        assert(a[0] == b[0]);
        lemma_text_rel_skip(a.drop_first(), b.drop_first(), i - 1);
        assert(a.drop_first().skip(i - 1) =~= a.skip(i));
        assert(b.drop_first().skip(i - 1) =~= b.skip(i));
    } else {
        assert(a.skip(0) =~= a);
        assert(b.skip(0) =~= b);
    }
}

/// How two character sequences compare (see [`text_rel`]).
fn compare_chars(a: &Vec<char>, b: &Vec<char>) -> (r: Relation)
    ensures
        r == text_rel(a@, b@),
{
    let mut i: usize = 0;
    while i < a.len() && i < b.len()
        invariant
            i <= a@.len(),
            i <= b@.len(),
            forall|j: int| 0 <= j < i ==> a@[j] == b@[j],
        decreases a@.len() - i,
    {
        if a[i] != b[i] {
            proof {
                lemma_text_rel_skip(a@, b@, i as int);
            }
            let x = a[i];
            let y = b[i];
            return if x < y {
                Relation::Less
            } else {
                Relation::Greater
            };
        }
        i = i + 1;
    }
    proof {
        lemma_text_rel_skip(a@, b@, i as int);
    }
    if i < a.len() {
        Relation::Greater
    } else if i < b.len() {
        Relation::Less
    } else {
        Relation::Equal
    }
}

/// How two non-null values compare (see [`val_rel`]).
pub fn compare_values(a: &DbVal, b: &DbVal) -> (r: Option<Relation>)
    ensures
        r == val_rel(*a, *b),
{
    match (a, b) {
        (DbVal::String(x), DbVal::String(y)) => {
            let cx = chars_of(x.as_str());
            let cy = chars_of(y.as_str());
            Some(compare_chars(&cx, &cy))
        },
        (DbVal::Integer(x), DbVal::Integer(y)) => Some(compare_ints(*x, *y)),
        (DbVal::Boolean(x), DbVal::Boolean(y)) => {
            let p: i64 = if *x {
                1
            } else {
                0
            };
            let q: i64 = if *y {
                1
            } else {
                0
            };
            Some(compare_ints(p, q))
        },
        (DbVal::Double(x), DbVal::Double(y)) => Some(
            compare_u64s(total_order_key(*x), total_order_key(*y)),
        ),
        _ => None,
    }
}

/// How two nullable values compare (see [`cell_rel`]).
pub fn compare_cells(a: Option<DbRef<'_>>, b: Option<DbRef<'_>>) -> (r: Option<Relation>)
    ensures
        r == cell_rel(
            match a {
                Some(v) => Some(v.value()),
                None => None,
            },
            match b {
                Some(v) => Some(v.value()),
                None => None,
            },
        ),
{
    match (a, b) {
        (None, None) => Some(Relation::Equal),
        (None, Some(_)) => Some(Relation::Less),
        (Some(_), None) => Some(Relation::Greater),
        (Some(x), Some(y)) => {
            let vx = x.to_owned();
            let vy = y.to_owned();
            compare_values(&vx, &vy)
        },
    }
}

/// Two character sequences that compare equal are the same.
pub proof fn lemma_text_rel_equal(a: Seq<char>, b: Seq<char>)
    ensures
        (text_rel(a, b) == Relation::Equal) == (a == b),
        text_rel(b, a) == text_rel(a, b).flip(),
    decreases a.len(),
{
    if a.len() == 0 && b.len() == 0 {
        assert(a =~= b);
    }
    if a.len() > 0 && b.len() > 0 && a[0] == b[0] {
        lemma_text_rel_equal(a.drop_first(), b.drop_first());
        if a.drop_first() == b.drop_first() {
            assert(a =~= seq![a[0]] + a.drop_first());
            assert(b =~= seq![b[0]] + b.drop_first());
        }
    }
}

/// The order of character sequences is transitive.
pub proof fn lemma_text_rel_trans(a: Seq<char>, b: Seq<char>, c: Seq<char>, r: Relation)
    requires
        r != Relation::Equal,
        text_rel(a, b) == r || text_rel(a, b) == Relation::Equal,
        text_rel(b, c) == r || text_rel(b, c) == Relation::Equal,
    ensures
        text_rel(a, c) == r || (text_rel(a, b) == Relation::Equal && text_rel(b, c)
            == Relation::Equal),
    decreases a.len(),
{
    lemma_text_rel_equal(a, b);
    lemma_text_rel_equal(b, c);
    if a.len() > 0 && b.len() > 0 && c.len() > 0 && a[0] == b[0] && b[0] == c[0] {
        lemma_text_rel_trans(a.drop_first(), b.drop_first(), c.drop_first(), r);
    }
}

/// How two nullable values of a column compare, taking values that do not
/// compare as tied.
pub open spec fn col_rel(a: Option<DbVal>, b: Option<DbVal>) -> Relation {
    match cell_rel(a, b) {
        Some(r) => r,
        None => Relation::Equal,
    }
}

/// The nullable value is null or of type `ty`.
pub open spec fn of_type(a: Option<DbVal>, ty: crate::db::types::DbType) -> bool {
    a matches Some(v) ==> v.type_of() == ty
}

/// Values of one type compare the other way round from the other side, and
/// every value ties with itself.
pub proof fn lemma_col_rel_flip(a: Option<DbVal>, b: Option<DbVal>, ty: crate::db::types::DbType)
    requires
        of_type(a, ty),
        of_type(b, ty),
    ensures
        col_rel(b, a) == col_rel(a, b).flip(),
        cell_rel(a, b) is Some,
        col_rel(a, a) == Relation::Equal,
{
    match (a, b) {
        (Some(DbVal::String(x)), Some(DbVal::String(y))) => {
            lemma_text_rel_equal(x@, y@);
        },
        _ => {},
    }
    match a {
        Some(DbVal::String(x)) => {
            lemma_text_rel_equal(x@, x@);
        },
        _ => {},
    }
}

/// The order of the values of one type is transitive, and a tie passes the
/// comparison on.
pub proof fn lemma_col_rel_trans(
    a: Option<DbVal>,
    b: Option<DbVal>,
    c: Option<DbVal>,
    ty: crate::db::types::DbType,
)
    requires
        of_type(a, ty),
        of_type(b, ty),
        of_type(c, ty),
    ensures
        col_rel(a, b) == Relation::Equal ==> col_rel(a, c) == col_rel(b, c),
        col_rel(b, c) == Relation::Equal ==> col_rel(a, c) == col_rel(a, b),
        col_rel(a, b) == Relation::Less && col_rel(b, c) == Relation::Less ==> col_rel(a, c)
            == Relation::Less,
{
    match (a, b, c) {
        (Some(DbVal::String(x)), Some(DbVal::String(y)), Some(DbVal::String(z))) => {
            lemma_text_rel_equal(x@, y@);
            lemma_text_rel_equal(y@, z@);
            lemma_text_rel_equal(x@, z@);
            if text_rel(x@, y@) == Relation::Less && text_rel(y@, z@) == Relation::Less {
                lemma_text_rel_trans(x@, y@, z@, Relation::Less);
            }
        },
        _ => {},
    }
}

} // verus!
