//! A table: named, typed columns and a count of rows. Each column lives in
//! the list of columns of its type; doubles are held by their bit patterns.
use vstd::prelude::*;
use crate::db::col::Col;
use crate::db::types::{ColId, DbRef, DbType, DbVal, RowId};
use crate::db::order::of_type;
use crate::db::view::{ColMut, ColRef, RowMut, RowRef};
use crate::text::chars_of;

verus! {

/// A table of rows and named, typed columns.
pub struct Table {
    id_map: Vec<(String, ColId)>,
    next_row_idx: usize,
    next_string_idx: usize,
    next_integer_idx: usize,
    next_boolean_idx: usize,
    next_double_idx: usize,
    strings: Vec<Col<String>>,
    integers: Vec<Col<i64>>,
    booleans: Vec<Col<bool>>,
    doubles: Vec<Col<u64>>,
}

impl Table {
    /// No two columns share a name; each type's list holds one column per
    /// index handed out so far, and every named column is among them; no
    /// cell past the last row holds a value.
    pub closed spec fn wf(self) -> bool {
        &&& self.shaped()
        &&& self.nulls_past_end()
    }

    /// No cell past the last row holds a value.
    pub closed spec fn nulls_past_end(self) -> bool {
        forall|row: RowId, col: ColId| row.idx >= self.rows() ==> #[trigger] self.cell(row, col) is None
    }

    /// No two columns share a name; each type's list holds one column per
    /// index handed out so far, and every named column is among them.
    spec fn shaped(self) -> bool {
        &&& forall|i: int, j: int|
            0 <= i < j < self.id_map@.len() ==> #[trigger] self.id_map@[i].0@
                != #[trigger] self.id_map@[j].0@
        &&& self.strings@.len() == self.next_string_idx
        &&& self.integers@.len() == self.next_integer_idx
        &&& self.booleans@.len() == self.next_boolean_idx
        &&& self.doubles@.len() == self.next_double_idx
        &&& forall|i: int|
            0 <= i < self.id_map@.len() ==> #[trigger] self.has_col(self.id_map@[i].1)
        &&& forall|col: ColId| #[trigger] self.has_col(col) ==> (self.col_at(col) matches Some(m) && m.0 == col)
        &&& forall|i: int|
            0 <= i < self.id_map@.len() ==> #[trigger] self.col_at(self.id_map@[i].1) == Some(
                (self.id_map@[i].1, self.id_map@[i].0@),
            )
    }

    /// The handle and name of the column stored where `col` points, if the
    /// list of its type reaches that far.
    pub closed spec fn col_at(self, col: ColId) -> Option<(ColId, Seq<char>)> {
        let i = col.idx as int;
        match col.ty {
            DbType::String => if i < self.strings@.len() {
                Some((self.strings@[i].col_id(), self.strings@[i].col_name()))
            } else {
                None
            },
            DbType::Integer => if i < self.integers@.len() {
                Some((self.integers@[i].col_id(), self.integers@[i].col_name()))
            } else {
                None
            },
            DbType::Boolean => if i < self.booleans@.len() {
                Some((self.booleans@[i].col_id(), self.booleans@[i].col_name()))
            } else {
                None
            },
            DbType::Double => if i < self.doubles@.len() {
                Some((self.doubles@[i].col_id(), self.doubles@[i].col_name()))
            } else {
                None
            },
        }
    }

    /// The table has a column with this handle.
    pub open spec fn has_col(self, col: ColId) -> bool {
        col.idx < self.next_index(col.ty)
    }

    /// The handle of each column, by name.
    pub closed spec fn columns(self) -> Map<Seq<char>, ColId> {
        Map::new(
            |k: Seq<char>| exists|i: int| 0 <= i < self.id_map@.len() && #[trigger] self.id_map@[i].0@ == k,
            |k: Seq<char>|
                self.id_map@[choose|i: int|
                    0 <= i < self.id_map@.len() && #[trigger] self.id_map@[i].0@ == k].1,
        )
    }

    /// The number of rows.
    pub closed spec fn rows(self) -> nat {
        self.next_row_idx as nat
    }

    /// The index the next column of the given type gets.
    pub closed spec fn next_index(self, ty: DbType) -> nat {
        match ty {
            DbType::String => self.next_string_idx as nat,
            DbType::Integer => self.next_integer_idx as nat,
            DbType::Boolean => self.next_boolean_idx as nat,
            DbType::Double => self.next_double_idx as nat,
        }
    }

    /// Tables with the same names, handles, lists and indices are equally
    /// well formed.
    proof fn lemma_wf_same(self, other: Table)
        requires
            self.id_map@.len() == other.id_map@.len(),
            forall|i: int|
                0 <= i < self.id_map@.len() ==> #[trigger] self.id_map@[i].0@ == other.id_map@[i].0@
                    && self.id_map@[i].1 == other.id_map@[i].1,
            self.strings@.len() == other.strings@.len(),
            self.integers@.len() == other.integers@.len(),
            self.booleans@.len() == other.booleans@.len(),
            self.doubles@.len() == other.doubles@.len(),
            forall|ty: DbType| #[trigger] self.next_index(ty) == other.next_index(ty),
            forall|col: ColId| #[trigger] self.col_at(col) == other.col_at(col),
        ensures
            self.shaped() == other.shaped(),
    {
        assert(self.next_index(DbType::String) == other.next_index(DbType::String));
        assert(self.next_index(DbType::Integer) == other.next_index(DbType::Integer));
        assert(self.next_index(DbType::Boolean) == other.next_index(DbType::Boolean));
        assert(self.next_index(DbType::Double) == other.next_index(DbType::Double));
        if self.shaped() {
            assert forall|i: int, j: int|
                0 <= i < j < other.id_map@.len() implies #[trigger] other.id_map@[i].0@
                != #[trigger] other.id_map@[j].0@ by {
                assert(self.id_map@[i].0@ != self.id_map@[j].0@);
            }
            assert forall|i: int| 0 <= i < other.id_map@.len() implies #[trigger] other.has_col(
                other.id_map@[i].1,
            ) by {
                assert(self.id_map@[i].0@ == other.id_map@[i].0@);
                assert(self.has_col(self.id_map@[i].1));
                assert(self.next_index(self.id_map@[i].1.ty) == other.next_index(self.id_map@[i].1.ty));
            }
            assert forall|col: ColId| #[trigger] other.has_col(col) implies (other.col_at(col) matches Some(
                m,
            ) && m.0 == col) by {
                assert(self.next_index(col.ty) == other.next_index(col.ty));
                assert(self.has_col(col));
                assert(self.col_at(col) == other.col_at(col));
            }
            assert forall|i: int| 0 <= i < other.id_map@.len() implies #[trigger] other.col_at(
                other.id_map@[i].1,
            ) == Some((other.id_map@[i].1, other.id_map@[i].0@)) by {
                assert(self.id_map@[i].0@ == other.id_map@[i].0@);
                assert(self.col_at(self.id_map@[i].1) == other.col_at(self.id_map@[i].1));
            }
        }
        if other.shaped() {
            assert forall|i: int, j: int|
                0 <= i < j < self.id_map@.len() implies #[trigger] self.id_map@[i].0@
                != #[trigger] self.id_map@[j].0@ by {
                assert(other.id_map@[i].0@ != other.id_map@[j].0@);
            }
            assert forall|i: int| 0 <= i < self.id_map@.len() implies #[trigger] self.has_col(
                self.id_map@[i].1,
            ) by {
                assert(self.id_map@[i].0@ == other.id_map@[i].0@);
                assert(other.has_col(other.id_map@[i].1));
                assert(self.next_index(self.id_map@[i].1.ty) == other.next_index(self.id_map@[i].1.ty));
            }
            assert forall|col: ColId| #[trigger] self.has_col(col) implies (self.col_at(col) matches Some(
                m,
            ) && m.0 == col) by {
                assert(self.next_index(col.ty) == other.next_index(col.ty));
                assert(other.has_col(col));
                assert(self.col_at(col) == other.col_at(col));
            }
            assert forall|i: int| 0 <= i < self.id_map@.len() implies #[trigger] self.col_at(
                self.id_map@[i].1,
            ) == Some((self.id_map@[i].1, self.id_map@[i].0@)) by {
                assert(self.id_map@[i].0@ == other.id_map@[i].0@);
                assert(self.col_at(self.id_map@[i].1) == other.col_at(self.id_map@[i].1));
            }
        }
    }

    proof fn lemma_columns_len(self)
        requires
            self.wf(),
        ensures
            self.columns().dom().finite(),
            self.columns().len() == self.id_map@.len(),
        decreases self.id_map@.len(),
    {
        let names = Seq::new(self.id_map@.len(), |i: int| self.id_map@[i].0@);
        assert(names.no_duplicates());
        names.unique_seq_to_set();
        assert(self.columns().dom() =~= names.to_set()) by {
            assert forall|k: Seq<char>| #[trigger] names.to_set().contains(k) implies self.columns().dom().contains(k) by {
                let i = choose|i: int| 0 <= i < names.len() && names[i] == k;
                assert(self.id_map@[i].0@ == k);
            }
            assert forall|k: Seq<char>| self.columns().dom().contains(k) implies #[trigger] names.to_set().contains(k) by {
                let i = choose|i: int| 0 <= i < self.id_map@.len() && #[trigger] self.id_map@[i].0@ == k;
                assert(names[i] == k);
            }
        }
    }

    /// An empty table.
    pub fn new() -> (t: Self)
        ensures
            t.wf(),
            t.rows() == 0,
            t.columns() == Map::<Seq<char>, ColId>::empty(),
            forall|ty: DbType| t.next_index(ty) == 0,
            t.names() == Seq::<Seq<char>>::empty(),
            forall|row: RowId, col: ColId| #[trigger] t.cell(row, col) is None,
    {
        let t = Table {
            id_map: Vec::new(),
            next_row_idx: 0,
            next_string_idx: 0,
            next_integer_idx: 0,
            next_boolean_idx: 0,
            next_double_idx: 0,
            strings: Vec::new(),
            integers: Vec::new(),
            booleans: Vec::new(),
            doubles: Vec::new(),
        };
        assert(t.columns() =~= Map::<Seq<char>, ColId>::empty());
        assert(t.names() =~= Seq::<Seq<char>>::empty());
        t
    }

    /// The number of rows.
    pub fn num_rows(&self) -> (n: usize)
        ensures
            n == self.rows(),
    {
        self.next_row_idx
    }

    /// Adds a row, returning its handle.
    pub fn add_row(&mut self) -> (r: RowId)
        requires
            old(self).rows() < usize::MAX,
        ensures
            r.idx == old(self).rows(),
            final(self).rows() == old(self).rows() + 1,
            final(self).columns() == old(self).columns(),
            old(self).wf() ==> final(self).wf(),
            forall|ty: DbType| final(self).next_index(ty) == old(self).next_index(ty),
            forall|row: RowId, col: ColId| #[trigger] final(self).cell(row, col) == old(self).cell(
                row,
                col,
            ),
            old(self).wf() ==> forall|col: ColId| #[trigger] final(self).cell(r, col) is None,
            final(self).names() == old(self).names(),
    {
        let idx = self.next_row_idx;
        self.next_row_idx = self.next_row_idx + 1;
        proof {
            self.lemma_wf_same(*old(self));
            assert(forall|row: RowId, col: ColId| #[trigger] self.cell(row, col) == old(self).cell(row, col));
            if old(self).wf() {
                assert forall|row: RowId, col: ColId| row.idx >= self.rows() implies #[trigger] self.cell(row, col) is None by {
                    assert(old(self).cell(row, col) is None);
                }
                assert forall|col: ColId| #[trigger] self.cell(RowId { idx }, col) is None by {
                    assert(old(self).cell(RowId { idx }, col) is None);
                }
            }
        }
        RowId { idx }
    }

    /// The handle of row `idx`, if the table has that many rows.
    pub fn get_row_by_index(&self, idx: usize) -> (r: Option<RowId>)
        ensures
            r == if idx < self.rows() {
                Some(RowId { idx })
            } else {
                None::<RowId>
            },
    {
        if idx < self.next_row_idx {
            Some(RowId { idx })
        } else {
            None
        }
    }

    /// The names of the columns, in the order they were added.
    pub fn col_names(&self) -> (v: Vec<String>)
        ensures
            v@.map_values(|n: String| n@) == self.names(),
    {
        let mut v: Vec<String> = Vec::new();
        let mut i: usize = 0;
        while i < self.id_map.len()
            invariant
                i <= self.id_map@.len(),
                v@.len() == i,
                forall|k: int| 0 <= k < i ==> (#[trigger] v@[k])@ == self.names()[k],
            decreases self.id_map.len() - i,
        {
            v.push(self.id_map[i].0.clone());
            i = i + 1;
        }
        assert(v@.map_values(|n: String| n@) =~= self.names());
        v
    }

    /// The number of columns.
    pub fn num_cols(&self) -> (n: usize)
        requires
            self.wf(),
        ensures
            n == self.columns().len(),
    {
        proof {
            self.lemma_columns_len();
        }
        self.id_map.len()
    }

    /// Where the column of that name sits in the list of names.
    fn find(&self, name: &str) -> (r: Option<usize>)
        requires
            self.wf(),
        ensures
            r matches Some(i) ==> i < self.id_map@.len() && self.id_map@[i as int].0@ == name@,
            r is None ==> !self.columns().dom().contains(name@),
            self.columns().dom().contains(name@) ==> r is Some && self.columns()[name@]
                == self.id_map@[r->0 as int].1,
    {
        let target = chars_of(name);
        let mut i: usize = 0;
        while i < self.id_map.len()
            invariant
                i <= self.id_map@.len(),
                self.wf(),
                target@ == name@,
                forall|j: int| 0 <= j < i ==> #[trigger] self.id_map@[j].0@ != name@,
            decreases self.id_map@.len() - i,
        {
            let here = chars_of(self.id_map[i].0.as_str());
            if same_chars(&here, &target) {
                proof {
                    let k = choose|k: int|
                        0 <= k < self.id_map@.len() && #[trigger] self.id_map@[k].0@ == name@;
                    if k != i {
                        if k < i {
                            assert(self.id_map@[k].0@ != self.id_map@[i as int].0@);
                        } else {
                            assert(self.id_map@[i as int].0@ != self.id_map@[k].0@);
                        }
                    }
                }
                return Some(i);
            }
            i = i + 1;
        }
        None
    }

    /// The handle of the column of that name, if there is one.
    pub fn col_id(&self, name: &str) -> (r: Option<ColId>)
        requires
            self.wf(),
        ensures
            r == if self.columns().dom().contains(name@) {
                Some(self.columns()[name@])
            } else {
                None::<ColId>
            },
    {
        match self.find(name) {
            Some(i) => Some(self.id_map[i].1),
            None => None,
        }
    }

    /// The type of the column of that name, if there is one.
    pub fn col_type(&self, name: &str) -> (r: Option<DbType>)
        requires
            self.wf(),
        ensures
            r == if self.columns().dom().contains(name@) {
                Some(self.columns()[name@].ty)
            } else {
                None::<DbType>
            },
    {
        match self.find(name) {
            Some(i) => Some(self.id_map[i].1.ty),
            None => None,
        }
    }

    /// The handle of the column of that name, adding an empty column of the
    /// given type when there is none: it takes the next index among the
    /// columns of its type. A column of that name must have that type.
    pub fn add_col(&mut self, name: &str, ty: DbType) -> (id: ColId)
        requires
            old(self).wf(),
            old(self).columns().dom().contains(name@) ==> old(self).columns()[name@].ty == ty,
            old(self).next_index(ty) < usize::MAX,
        ensures
            final(self).wf(),
            final(self).rows() == old(self).rows(),
            old(self).columns().dom().contains(name@) ==> id == old(self).columns()[name@]
                && final(self).columns() == old(self).columns() && forall|t: DbType|
                final(self).next_index(t) == old(self).next_index(t),
            !old(self).columns().dom().contains(name@) ==> id == (ColId {
                idx: old(self).next_index(ty) as usize,
                ty,
            }) && final(self).columns() == old(self).columns().insert(name@, id) && forall|t: DbType|
                final(self).next_index(t) == old(self).next_index(t) + if t == ty {
                    1int
                } else {
                    0int
                },
            forall|row: RowId, col: ColId| #[trigger] final(self).cell(row, col) == old(self).cell(
                row,
                col,
            ),
            !old(self).columns().dom().contains(name@) ==> forall|row: RowId|
                #[trigger] final(self).cell(row, id) is None,
            final(self).names() == if old(self).columns().dom().contains(name@) {
                old(self).names()
            } else {
                old(self).names().push(name@)
            },
            final(self).columns().dom().finite(),
            final(self).columns().len() == old(self).columns().len() + if old(
                self,
            ).columns().dom().contains(name@) {
                0int
            } else {
                1int
            },
    {
        proof {
            self.lemma_columns_len();
        }
        if let Some(i) = self.find(name) {
            return self.id_map[i].1;
        }
        let ghost old_t = *self;
        let id = match ty {
            DbType::String => {
                let idx = self.next_string_idx;
                self.next_string_idx = self.next_string_idx + 1;
                let id = ColId { idx, ty };
                self.strings.push(Col::new(id, name.to_owned()));
                id
            },
            DbType::Integer => {
                let idx = self.next_integer_idx;
                self.next_integer_idx = self.next_integer_idx + 1;
                let id = ColId { idx, ty };
                self.integers.push(Col::new(id, name.to_owned()));
                id
            },
            DbType::Boolean => {
                let idx = self.next_boolean_idx;
                self.next_boolean_idx = self.next_boolean_idx + 1;
                let id = ColId { idx, ty };
                self.booleans.push(Col::new(id, name.to_owned()));
                id
            },
            DbType::Double => {
                let idx = self.next_double_idx;
                self.next_double_idx = self.next_double_idx + 1;
                let id = ColId { idx, ty };
                self.doubles.push(Col::new(id, name.to_owned()));
                id
            },
        };
        let key = name.to_owned();
        self.id_map.push((key, id));
        proof {
            let n = old_t.id_map@.len() as int;
            assert(self.id_map@[n].0@ == name@);
            assert forall|i: int, j: int|
                0 <= i < j < self.id_map@.len() implies #[trigger] self.id_map@[i].0@
                != #[trigger] self.id_map@[j].0@ by {
                if j == n {
                    assert(old_t.id_map@[i].0@ != name@) by {
                        if old_t.id_map@[i].0@ == name@ {
                            assert(old_t.columns().dom().contains(name@));
                        }
                    }
                } else {
                    assert(old_t.id_map@[i] == self.id_map@[i] && old_t.id_map@[j] == self.id_map@[j]);
                }
            }
            assert forall|k: Seq<char>| #[trigger] self.columns().dom().contains(k) == old_t.columns().insert(name@, id).dom().contains(k) by {
                if self.columns().dom().contains(k) {
                    let i = choose|i: int| 0 <= i < self.id_map@.len() && #[trigger] self.id_map@[i].0@ == k;
                    if i < n {
                        assert(old_t.id_map@[i].0@ == k);
                    }
                }
                if old_t.columns().dom().contains(k) {
                    let i = choose|i: int| 0 <= i < old_t.id_map@.len() && #[trigger] old_t.id_map@[i].0@ == k;
                    assert(self.id_map@[i].0@ == k);
                }
            }
            assert forall|k: Seq<char>| #[trigger] self.columns().dom().contains(k) implies self.columns()[k] == old_t.columns().insert(name@, id)[k] by {
                let i = choose|i: int| 0 <= i < self.id_map@.len() && #[trigger] self.id_map@[i].0@ == k;
                if k == name@ {
                    assert(i == n) by {
                        if i != n {
                            assert(self.id_map@[i].0@ != self.id_map@[n].0@);
                        }
                    }
                } else {
                    let j = choose|j: int| 0 <= j < old_t.id_map@.len() && #[trigger] old_t.id_map@[j].0@ == k;
                    assert(self.id_map@[j].0@ == k);
                    assert(i == j) by {
                        if i < j {
                            assert(self.id_map@[i].0@ != self.id_map@[j].0@);
                        } else if j < i {
                            assert(self.id_map@[j].0@ != self.id_map@[i].0@);
                        }
                    }
                }
            }
            assert(self.columns() =~= old_t.columns().insert(name@, id));
            assert(self.names() =~= old_t.names().push(name@));
            assert forall|i: int| 0 <= i < self.id_map@.len() implies #[trigger] self.has_col(
                self.id_map@[i].1,
            ) by {
                if i < n {
                    assert(old_t.id_map@[i] == self.id_map@[i]);
                    assert(old_t.has_col(old_t.id_map@[i].1));
                }
            }
            assert forall|col: ColId| #[trigger] self.has_col(col) implies (self.col_at(col) matches Some(
                m,
            ) && m.0 == col) by {
                if col != id {
                    assert(old_t.has_col(col));
                    assert(self.col_at(col) == old_t.col_at(col));
                }
            }
            assert forall|i: int| 0 <= i < self.id_map@.len() implies #[trigger] self.col_at(
                self.id_map@[i].1,
            ) == Some((self.id_map@[i].1, self.id_map@[i].0@)) by {
                if i < n {
                    assert(old_t.id_map@[i] == self.id_map@[i]);
                    assert(old_t.has_col(old_t.id_map@[i].1));
                    assert(old_t.col_at(old_t.id_map@[i].1) == Some(
                        (old_t.id_map@[i].1, old_t.id_map@[i].0@),
                    ));
                    assert(self.col_at(self.id_map@[i].1) == old_t.col_at(old_t.id_map@[i].1));
                }
            }
            assert forall|row: RowId, col: ColId| row.idx >= self.rows() implies #[trigger] self.cell(
                row,
                col,
            ) is None by {
                assert(old_t.cell(row, col) is None);
            }
        }
        proof {
            self.lemma_columns_len();
        }
        id
    }
}

/// A string cell as a value.
pub open spec fn string_val(c: Option<String>) -> Option<DbVal> {
    match c {
        Some(v) => Some(DbVal::String(v)),
        None => None,
    }
}

/// An integer cell as a value.
pub open spec fn integer_val(c: Option<i64>) -> Option<DbVal> {
    match c {
        Some(v) => Some(DbVal::Integer(v)),
        None => None,
    }
}

/// A boolean cell as a value.
pub open spec fn boolean_val(c: Option<bool>) -> Option<DbVal> {
    match c {
        Some(v) => Some(DbVal::Boolean(v)),
        None => None,
    }
}

/// A double cell (a bit pattern) as a value.
pub open spec fn double_val(c: Option<u64>) -> Option<DbVal> {
    match c {
        Some(v) => Some(DbVal::Double(v)),
        None => None,
    }
}

impl Table {
    /// The value in row `row` of column `col`, or nothing for a null.
    pub closed spec fn cell(self, row: RowId, col: ColId) -> Option<DbVal> {
        let i = col.idx as int;
        let r = row.idx as int;
        match col.ty {
            DbType::String => if i < self.strings@.len() {
                string_val(self.strings@[i].cell(r))
            } else {
                None
            },
            DbType::Integer => if i < self.integers@.len() {
                integer_val(self.integers@[i].cell(r))
            } else {
                None
            },
            DbType::Boolean => if i < self.booleans@.len() {
                boolean_val(self.booleans@[i].cell(r))
            } else {
                None
            },
            DbType::Double => if i < self.doubles@.len() {
                double_val(self.doubles@[i].cell(r))
            } else {
                None
            },
        }
    }

    /// A column holds nulls and values of its type only.
    pub proof fn lemma_cell_type(self, row: RowId, col: ColId)
        ensures
            of_type(self.cell(row, col), col.ty),
    {
    }

    /// The value in row `id.0` of column `id.1`, or nothing for a null.
    pub fn get(&self, id: (RowId, ColId)) -> (r: Option<DbRef<'_>>)
        requires
            self.wf(),
            self.has_col(id.1),
        ensures
            match r {
                Some(v) => self.cell(id.0, id.1) == Some(v.value()),
                None => self.cell(id.0, id.1) is None,
            },
    {
        let (row, col) = id;
        match col.ty {
            DbType::String => match self.strings[col.idx].get(row) {
                Some(v) => Some(DbRef::String(v)),
                None => None,
            },
            DbType::Integer => match self.integers[col.idx].get(row) {
                Some(v) => Some(DbRef::Integer(v)),
                None => None,
            },
            DbType::Boolean => match self.booleans[col.idx].get(row) {
                Some(v) => Some(DbRef::Boolean(v)),
                None => None,
            },
            DbType::Double => match self.doubles[col.idx].get(row) {
                Some(v) => Some(DbRef::Double(v)),
                None => None,
            },
        }
    }

    /// Stores `val` in row `id.0` of column `id.1`, which must be of the
    /// value's type; gives back what the cell held. No other cell changes.
    pub fn put(&mut self, id: (RowId, ColId), val: DbVal) -> (r: Option<DbVal>)
        requires
            old(self).wf(),
            old(self).has_col(id.1),
            val.type_of() == id.1.ty,
            id.0.idx < old(self).rows(),
        ensures
            r == old(self).cell(id.0, id.1),
            final(self).cell(id.0, id.1) == Some(val),
            forall|row: RowId, col: ColId|
                (row, col) != id ==> #[trigger] final(self).cell(row, col) == old(self).cell(row, col),
            final(self).wf(),
            final(self).rows() == old(self).rows(),
            final(self).columns() == old(self).columns(),
            forall|ty: DbType| #[trigger] final(self).next_index(ty) == old(self).next_index(ty),
            final(self).names() == old(self).names(),
    {
        let (row, col) = id;
        let r = match val {
            DbVal::String(v) => match self.strings[col.idx].put(row, v) {
                Some(p) => Some(DbVal::String(p)),
                None => None,
            },
            DbVal::Integer(v) => match self.integers[col.idx].put(row, v) {
                Some(p) => Some(DbVal::Integer(p)),
                None => None,
            },
            DbVal::Boolean(v) => match self.booleans[col.idx].put(row, v) {
                Some(p) => Some(DbVal::Boolean(p)),
                None => None,
            },
            DbVal::Double(v) => match self.doubles[col.idx].put(row, v) {
                Some(p) => Some(DbVal::Double(p)),
                None => None,
            },
        };
        proof {
            self.lemma_wf_same(*old(self));
            assert forall|row: RowId, col: ColId| row.idx >= self.rows() implies #[trigger] self.cell(
                row,
                col,
            ) is None by {
                assert(old(self).cell(row, col) is None);
            }
        }
        r
    }

    /// Takes the value out of row `id.0` of column `id.1`, leaving a null.
    /// No other cell changes.
    pub fn take(&mut self, id: (RowId, ColId)) -> (r: Option<DbVal>)
        requires
            old(self).wf(),
            old(self).has_col(id.1),
        ensures
            r == old(self).cell(id.0, id.1),
            final(self).cell(id.0, id.1) is None,
            forall|row: RowId, col: ColId|
                (row, col) != id ==> #[trigger] final(self).cell(row, col) == old(self).cell(row, col),
            final(self).wf(),
            final(self).rows() == old(self).rows(),
            final(self).columns() == old(self).columns(),
            forall|ty: DbType| #[trigger] final(self).next_index(ty) == old(self).next_index(ty),
            final(self).names() == old(self).names(),
    {
        let (row, col) = id;
        let r = match col.ty {
            DbType::String => match self.strings[col.idx].take(row) {
                Some(p) => Some(DbVal::String(p)),
                None => None,
            },
            DbType::Integer => match self.integers[col.idx].take(row) {
                Some(p) => Some(DbVal::Integer(p)),
                None => None,
            },
            DbType::Boolean => match self.booleans[col.idx].take(row) {
                Some(p) => Some(DbVal::Boolean(p)),
                None => None,
            },
            DbType::Double => match self.doubles[col.idx].take(row) {
                Some(p) => Some(DbVal::Double(p)),
                None => None,
            },
        };
        proof {
            self.lemma_wf_same(*old(self));
            assert forall|row: RowId, col: ColId| row.idx >= self.rows() implies #[trigger] self.cell(
                row,
                col,
            ) is None by {
                assert(old(self).cell(row, col) is None);
            }
        }
        r
    }
}

/// The handles `0..n` of the columns of type `ty`.
pub open spec fn handles(n: nat, ty: DbType) -> Seq<ColId> {
    Seq::new(n, |i: int| ColId { idx: i as usize, ty })
}

impl Table {
    /// The handles of every column the table stores, by type: strings,
    /// integers, booleans, then doubles, each in the order they were added.
    pub open spec fn all_col_ids(self) -> Seq<ColId> {
        handles(self.next_index(DbType::String), DbType::String) + handles(
            self.next_index(DbType::Integer),
            DbType::Integer,
        ) + handles(self.next_index(DbType::Boolean), DbType::Boolean) + handles(
            self.next_index(DbType::Double),
            DbType::Double,
        )
    }

    proof fn lemma_col_at(self, col: ColId)
        requires
            self.wf(),
            self.has_col(col),
        ensures
            self.col_at(col) matches Some(m) && m.0 == col,
            forall|n: Seq<char>|
                self.columns().dom().contains(n) && self.columns()[n] == col ==> self.col_at(col)
                    == Some((col, n)),
    {
        assert forall|n: Seq<char>|
            self.columns().dom().contains(n) && self.columns()[n] == col implies self.col_at(col)
            == Some((col, n)) by {
            let i = choose|i: int| 0 <= i < self.id_map@.len() && #[trigger] self.id_map@[i].0@ == n;
            assert(self.col_at(self.id_map@[i].1) == Some((self.id_map@[i].1, self.id_map@[i].0@)));
        }
    }

    /// A view of row `id`.
    pub fn row(&self, id: RowId) -> (r: RowRef<'_>)
        ensures
            r.table == self,
            r.id == id,
    {
        RowRef { table: self, id }
    }

    /// A view of row `id` that can write the table: what is written
    /// through it is what the table holds afterwards.
    pub fn row_mut(&mut self, id: RowId) -> (r: RowMut<'_>)
        ensures
            r.id == id,
            *r.table == *old(self),
            *final(self) == *final(r.table),
    {
        RowMut { table: self, id }
    }

    /// A view of the column with handle `id` that can write it. Once the
    /// borrow ends, the table holds what was written in that column and
    /// nothing else has changed; it stays well formed if the column keeps
    /// its handle and name and holds nothing past the last row.
    pub fn col_mut(&mut self, id: ColId) -> (c: ColMut<'_>)
        requires
            old(self).wf(),
            old(self).has_col(id),
        ensures
            c.handle() == id,
            c.kind() == id.ty,
            forall|row: RowId| #[trigger] c.value_at(row.idx as int) == old(self).cell(row, id),
            final(self).columns() == old(self).columns(),
            final(self).names() == old(self).names(),
            final(self).rows() == old(self).rows(),
            forall|t: DbType| #[trigger] final(self).next_index(t) == old(self).next_index(t),
            forall|row: RowId, col: ColId|
                col != id ==> #[trigger] final(self).cell(row, col) == old(self).cell(row, col),
            match c {
                ColMut::String(x) => forall|row: RowId|
                    #[trigger] final(self).cell(row, id) == string_val(final(x).cell(row.idx as int)),
                ColMut::Integer(x) => forall|row: RowId|
                    #[trigger] final(self).cell(row, id) == integer_val(final(x).cell(row.idx as int)),
                ColMut::Boolean(x) => forall|row: RowId|
                    #[trigger] final(self).cell(row, id) == boolean_val(final(x).cell(row.idx as int)),
                ColMut::Double(x) => forall|row: RowId|
                    #[trigger] final(self).cell(row, id) == double_val(final(x).cell(row.idx as int)),
            },
            (match c {
                ColMut::String(x) => final(x).col_id() == x.col_id() && final(x).col_name() == x.col_name(),
                ColMut::Integer(x) => final(x).col_id() == x.col_id() && final(x).col_name() == x.col_name(),
                ColMut::Boolean(x) => final(x).col_id() == x.col_id() && final(x).col_name() == x.col_name(),
                ColMut::Double(x) => final(x).col_id() == x.col_id() && final(x).col_name() == x.col_name(),
            }) && (forall|row: RowId|
                row.idx >= old(self).rows() ==> #[trigger] final(self).cell(row, id) is None)
                ==> final(self).wf(),
    {
        proof {
            self.lemma_col_at(id);
            Self::lemma_col_write(*self, id);
        }
        match id.ty {
            DbType::String => ColMut::String(&mut self.strings[id.idx]),
            DbType::Integer => ColMut::Integer(&mut self.integers[id.idx]),
            DbType::Boolean => ColMut::Boolean(&mut self.booleans[id.idx]),
            DbType::Double => ColMut::Double(&mut self.doubles[id.idx]),
        }
    }

    /// `t` differs from `before` at most in the column `id` points to.
    spec fn only_col_differs(t: Table, before: Table, id: ColId) -> bool {
        &&& t.id_map == before.id_map
        &&& t.next_row_idx == before.next_row_idx
        &&& t.next_string_idx == before.next_string_idx
        &&& t.next_integer_idx == before.next_integer_idx
        &&& t.next_boolean_idx == before.next_boolean_idx
        &&& t.next_double_idx == before.next_double_idx
        &&& t.strings@.len() == before.strings@.len()
        &&& t.integers@.len() == before.integers@.len()
        &&& t.booleans@.len() == before.booleans@.len()
        &&& t.doubles@.len() == before.doubles@.len()
        &&& forall|i: int|
            0 <= i < t.strings@.len() && !(id.ty == DbType::String && i == id.idx)
                ==> #[trigger] t.strings@[i] == before.strings@[i]
        &&& forall|i: int|
            0 <= i < t.integers@.len() && !(id.ty == DbType::Integer && i == id.idx)
                ==> #[trigger] t.integers@[i] == before.integers@[i]
        &&& forall|i: int|
            0 <= i < t.booleans@.len() && !(id.ty == DbType::Boolean && i == id.idx)
                ==> #[trigger] t.booleans@[i] == before.booleans@[i]
        &&& forall|i: int|
            0 <= i < t.doubles@.len() && !(id.ty == DbType::Double && i == id.idx)
                ==> #[trigger] t.doubles@[i] == before.doubles@[i]
    }

    /// A table that differs from a well-formed `before` only in the column
    /// `id` points to has its names, handles and rows, the cells of every
    /// other column, and is well formed if that column keeps its handle and
    /// name and holds nothing past the last row.
    proof fn lemma_col_write(before: Table, id: ColId)
        requires
            before.wf(),
            before.has_col(id),
        ensures
            forall|t: Table|
                #![trigger t.columns()]
                #![trigger t.wf()]
                Self::only_col_differs(t, before, id) ==> {
                    &&& t.columns() == before.columns()
                    &&& t.names() == before.names()
                    &&& t.rows() == before.rows()
                    &&& forall|ty: DbType| #[trigger] t.next_index(ty) == before.next_index(ty)
                    &&& forall|row: RowId, col: ColId|
                        col != id ==> #[trigger] t.cell(row, col) == before.cell(row, col)
                    &&& (t.col_at(id) == before.col_at(id) && forall|row: RowId|
                        row.idx >= before.rows() ==> #[trigger] t.cell(row, id) is None) ==> t.wf()
                },
    {
        assert forall|t: Table|
            #![trigger t.columns()]
            #![trigger t.wf()]
            Self::only_col_differs(t, before, id) implies {
            &&& t.columns() == before.columns()
            &&& t.names() == before.names()
            &&& t.rows() == before.rows()
            &&& forall|ty: DbType| #[trigger] t.next_index(ty) == before.next_index(ty)
            &&& forall|row: RowId, col: ColId|
                col != id ==> #[trigger] t.cell(row, col) == before.cell(row, col)
            &&& (t.col_at(id) == before.col_at(id) && forall|row: RowId|
                row.idx >= before.rows() ==> #[trigger] t.cell(row, id) is None) ==> t.wf()
        } by {
            assert(t.columns() =~= before.columns());
            assert(t.names() =~= before.names());
            assert forall|row: RowId, col: ColId| col != id implies #[trigger] t.cell(row, col) == before.cell(
                row,
                col,
            ) by {
            }
            if t.col_at(id) == before.col_at(id) && forall|row: RowId|
                row.idx >= before.rows() ==> #[trigger] t.cell(row, id) is None {
                assert forall|col: ColId| #[trigger] t.col_at(col) == before.col_at(col) by {
                    if col != id {
                    }
                }
                before.lemma_wf_same(t);
                assert forall|row: RowId, col: ColId| row.idx >= t.rows() implies #[trigger] t.cell(
                    row,
                    col,
                ) is None by {
                    if col != id {
                        assert(before.cell(row, col) is None);
                    }
                }
            }
        }
    }

    /// A view of the column with handle `id`.
    pub fn col(&self, id: ColId) -> (c: ColRef<'_>)
        requires
            self.wf(),
            self.has_col(id),
        ensures
            c.handle() == id,
            forall|row: RowId| #[trigger] c.value_at(row.idx as int) == self.cell(row, id),
            forall|n: Seq<char>|
                self.columns().dom().contains(n) && self.columns()[n] == id ==> c.label() == n,
    {
        proof {
            self.lemma_col_at(id);
        }
        match id.ty {
            DbType::String => ColRef::String(&self.strings[id.idx]),
            DbType::Integer => ColRef::Integer(&self.integers[id.idx]),
            DbType::Boolean => ColRef::Boolean(&self.booleans[id.idx]),
            DbType::Double => ColRef::Double(&self.doubles[id.idx]),
        }
    }

    /// The handles of every row, in order.
    pub fn iter_row_ids(&self) -> (v: Vec<RowId>)
        ensures
            v@.len() == self.rows(),
            forall|i: int| 0 <= i < v@.len() ==> #[trigger] v@[i] == (RowId { idx: i as usize }),
    {
        let mut v: Vec<RowId> = Vec::new();
        let mut i: usize = 0;
        while i < self.next_row_idx
            invariant
                i <= self.next_row_idx,
                v@.len() == i,
                forall|j: int| 0 <= j < i ==> #[trigger] v@[j] == (RowId { idx: j as usize }),
            decreases self.next_row_idx - i,
        {
            v.push(RowId { idx: i });
            i = i + 1;
        }
        v
    }

    /// A view of every row, in order.
    pub fn iter_rows(&self) -> (v: Vec<RowRef<'_>>)
        ensures
            v@.len() == self.rows(),
            forall|i: int|
                0 <= i < v@.len() ==> #[trigger] v@[i].table == self && v@[i].id == (RowId {
                    idx: i as usize,
                }),
    {
        let ids = self.iter_row_ids();
        let mut v: Vec<RowRef<'_>> = Vec::new();
        let mut i: usize = 0;
        while i < ids.len()
            invariant
                i <= ids@.len(),
                ids@.len() == self.rows(),
                forall|j: int| 0 <= j < ids@.len() ==> #[trigger] ids@[j] == (RowId { idx: j as usize }),
                v@.len() == i,
                forall|j: int|
                    0 <= j < i ==> #[trigger] v@[j].table == self && v@[j].id == (RowId {
                        idx: j as usize,
                    }),
            decreases ids@.len() - i,
        {
            v.push(self.row(ids[i]));
            i = i + 1;
        }
        v
    }

    /// The handles of every column the table stores (see
    /// [`Table::all_col_ids`]).
    pub fn iter_col_ids(&self) -> (v: Vec<ColId>)
        ensures
            v@ == self.all_col_ids(),
    {
        let mut v: Vec<ColId> = Vec::new();
        let mut i: usize = 0;
        while i < self.next_string_idx
            invariant
                i <= self.next_string_idx,
                v@ == handles(i as nat, DbType::String),
            decreases self.next_string_idx - i,
        {
            v.push(ColId { idx: i, ty: DbType::String });
            i = i + 1;
            assert(v@ =~= handles(i as nat, DbType::String));
        }
        let ghost a = v@;
        let mut i: usize = 0;
        while i < self.next_integer_idx
            invariant
                i <= self.next_integer_idx,
                v@ == a + handles(i as nat, DbType::Integer),
            decreases self.next_integer_idx - i,
        {
            v.push(ColId { idx: i, ty: DbType::Integer });
            i = i + 1;
            assert(v@ =~= a + handles(i as nat, DbType::Integer));
        }
        let ghost b = v@;
        let mut i: usize = 0;
        while i < self.next_boolean_idx
            invariant
                i <= self.next_boolean_idx,
                v@ == b + handles(i as nat, DbType::Boolean),
            decreases self.next_boolean_idx - i,
        {
            v.push(ColId { idx: i, ty: DbType::Boolean });
            i = i + 1;
            assert(v@ =~= b + handles(i as nat, DbType::Boolean));
        }
        let ghost c = v@;
        let mut i: usize = 0;
        while i < self.next_double_idx
            invariant
                i <= self.next_double_idx,
                v@ == c + handles(i as nat, DbType::Double),
            decreases self.next_double_idx - i,
        {
            v.push(ColId { idx: i, ty: DbType::Double });
            i = i + 1;
            assert(v@ =~= c + handles(i as nat, DbType::Double));
        }
        v
    }

    /// A view of every column the table stores, in the order of
    /// [`Table::all_col_ids`].
    pub fn iter_cols(&self) -> (v: Vec<ColRef<'_>>)
        requires
            self.wf(),
        ensures
            v@.len() == self.all_col_ids().len(),
            forall|i: int|
                0 <= i < v@.len() ==> #[trigger] v@[i].handle() == self.all_col_ids()[i]
                    && forall|row: RowId| #[trigger] v@[i].value_at(row.idx as int) == self.cell(
                    row,
                    self.all_col_ids()[i],
                ),
    {
        let ids = self.iter_col_ids();
        let mut v: Vec<ColRef<'_>> = Vec::new();
        let mut i: usize = 0;
        while i < ids.len()
            invariant
                self.wf(),
                i <= ids@.len(),
                ids@ == self.all_col_ids(),
                v@.len() == i,
                forall|j: int|
                    0 <= j < i ==> #[trigger] v@[j].handle() == self.all_col_ids()[j]
                        && forall|row: RowId| #[trigger] v@[j].value_at(row.idx as int)
                        == self.cell(row, self.all_col_ids()[j]),
            decreases ids@.len() - i,
        {
            let id = ids[i];
            assert(self.has_col(id));
            v.push(self.col(id));
            i = i + 1;
        }
        v
    }
}

impl Table {
    /// The names of the columns, in the order they were added.
    pub closed spec fn names(self) -> Seq<Seq<char>> {
        self.id_map@.map_values(|e: (String, ColId)| e.0@)
    }

    /// The handles of the named columns, in the order of [`Table::names`].
    pub closed spec fn named_cols(self) -> Seq<ColId> {
        self.id_map@.map_values(|e: (String, ColId)| e.1)
    }

    /// Each name is the key of its handle in [`Table::columns`].
    pub proof fn lemma_named_cols(self)
        requires
            self.wf(),
        ensures
            self.names().len() == self.named_cols().len(),
            forall|i: int|
                0 <= i < self.names().len() ==> #[trigger] self.columns().dom().contains(
                    self.names()[i],
                ) && self.columns()[self.names()[i]] == self.named_cols()[i]
                    && self.has_col(self.named_cols()[i]),
    {
        assert forall|i: int| 0 <= i < self.names().len() implies #[trigger] self.columns().dom().contains(
            self.names()[i],
        ) && self.columns()[self.names()[i]] == self.named_cols()[i] && self.has_col(
            self.named_cols()[i],
        ) by {
            let k = self.id_map@[i].0@;
            assert(self.id_map@[i].0@ == k);
            let j = choose|j: int| 0 <= j < self.id_map@.len() && #[trigger] self.id_map@[j].0@ == k;
            if j != i {
                if j < i {
                    assert(self.id_map@[j].0@ != self.id_map@[i].0@);
                } else {
                    assert(self.id_map@[i].0@ != self.id_map@[j].0@);
                }
            }
            assert(self.has_col(self.id_map@[i].1));
        }
    }

    /// A named column is a column of the table.
    pub proof fn lemma_column_valid(self, h: Seq<char>)
        requires
            self.wf(),
            self.columns().dom().contains(h),
        ensures
            self.has_col(self.columns()[h]),
    {
        let i = choose|i: int| 0 <= i < self.id_map@.len() && #[trigger] self.id_map@[i].0@ == h;
        assert(self.has_col(self.id_map@[i].1));
    }

    /// Different names name different columns.
    pub proof fn lemma_columns_distinct(self, a: Seq<char>, b: Seq<char>)
        requires
            self.wf(),
            self.columns().dom().contains(a),
            self.columns().dom().contains(b),
            a != b,
        ensures
            self.columns()[a] != self.columns()[b],
    {
        let i = choose|i: int| 0 <= i < self.id_map@.len() && #[trigger] self.id_map@[i].0@ == a;
        let j = choose|j: int| 0 <= j < self.id_map@.len() && #[trigger] self.id_map@[j].0@ == b;
        assert(self.col_at(self.id_map@[i].1) == Some((self.id_map@[i].1, self.id_map@[i].0@)));
        assert(self.col_at(self.id_map@[j].1) == Some((self.id_map@[j].1, self.id_map@[j].0@)));
    }

    /// What is shown in place of a table with no rows or no columns.
    pub fn empty_note(&self) -> (note: Option<&'static str>)
        ensures
            note == if self.rows() == 0 && self.names().len() == 0 {
                Some("<empty table>")
            } else if self.rows() == 0 {
                Some("<no rows>")
            } else if self.names().len() == 0 {
                Some("<no cols>")
            } else {
                None
            },
    {
        if self.next_row_idx == 0 && self.id_map.len() == 0 {
            Some("<empty table>")
        } else if self.next_row_idx == 0 {
            Some("<no rows>")
        } else if self.id_map.len() == 0 {
            Some("<no cols>")
        } else {
            None
        }
    }

    /// The names of the columns and, row by row, the value of each named
    /// column, in the order of [`Table::names`].
    pub fn grid(&self) -> (g: (Vec<String>, Vec<Vec<Option<DbVal>>>))
        requires
            self.wf(),
        ensures
            g.0@.map_values(|s: String| s@) == self.names(),
            g.1@.len() == self.rows(),
            forall|r: int|
                0 <= r < g.1@.len() ==> (#[trigger] g.1@[r])@.len() == self.names().len() && forall|
                    c: int,
                |
                    0 <= c < self.names().len() ==> #[trigger] g.1@[r]@[c] == self.cell(
                        RowId { idx: r as usize },
                        self.named_cols()[c],
                    ),
    {
        proof {
            self.lemma_named_cols();
        }
        let mut names: Vec<String> = Vec::new();
        let mut c: usize = 0;
        while c < self.id_map.len()
            invariant
                c <= self.id_map@.len(),
                names@.len() == c,
                forall|k: int| 0 <= k < c ==> (#[trigger] names@[k])@ == self.names()[k],
            decreases self.id_map@.len() - c,
        {
            names.push(self.id_map[c].0.clone());
            c = c + 1;
        }
        assert(names@.map_values(|s: String| s@) =~= self.names());
        let mut rows: Vec<Vec<Option<DbVal>>> = Vec::new();
        let mut r: usize = 0;
        while r < self.next_row_idx
            invariant
                self.wf(),
                r <= self.next_row_idx,
                self.names().len() == self.named_cols().len(),
                forall|i: int| 0 <= i < self.names().len() ==> #[trigger] self.has_col(self.named_cols()[i]),
                rows@.len() == r,
                forall|k: int|
                    0 <= k < r ==> (#[trigger] rows@[k])@.len() == self.names().len() && forall|
                        c: int,
                    |
                        0 <= c < self.names().len() ==> #[trigger] rows@[k]@[c] == self.cell(
                            RowId { idx: k as usize },
                            self.named_cols()[c],
                        ),
            decreases self.next_row_idx - r,
        {
            let row = RowId { idx: r };
            let mut line: Vec<Option<DbVal>> = Vec::new();
            let mut c: usize = 0;
            while c < self.id_map.len()
                invariant
                    self.wf(),
                    c <= self.id_map@.len(),
                    self.names().len() == self.named_cols().len(),
                    self.names().len() == self.id_map@.len(),
                    forall|i: int| 0 <= i < self.names().len() ==> #[trigger] self.has_col(self.named_cols()[i]),
                    line@.len() == c,
                    forall|k: int|
                        0 <= k < c ==> #[trigger] line@[k] == self.cell(row, self.named_cols()[k]),
                decreases self.id_map@.len() - c,
            {
                let id = self.id_map[c].1;
                assert(id == self.named_cols()[c as int]);
                assert(self.has_col(self.named_cols()[c as int]));
                let v = match self.get((row, id)) {
                    Some(x) => Some(x.to_owned()),
                    None => None,
                };
                line.push(v);
                c = c + 1;
            }
            rows.push(line);
            r = r + 1;
        }
        (names, rows)
    }
}

impl Table {
    /// Gives the column named `name` a new, empty column of type `ty`; the
    /// column it named stays stored, without a name.
    pub(crate) fn retype(&mut self, name: &str, ty: DbType) -> (id: ColId)
        requires
            old(self).wf(),
            old(self).columns().dom().contains(name@),
            old(self).next_index(ty) < usize::MAX,
        ensures
            final(self).wf(),
            final(self).rows() == old(self).rows(),
            id == (ColId { idx: old(self).next_index(ty) as usize, ty }),
            final(self).columns() == old(self).columns().insert(name@, id),
            final(self).names() == old(self).names(),
            forall|t: DbType|
                final(self).next_index(t) == old(self).next_index(t) + if t == ty {
                    1int
                } else {
                    0int
                },
            forall|row: RowId, col: ColId|
                col != id ==> #[trigger] final(self).cell(row, col) == old(self).cell(row, col),
            forall|row: RowId| #[trigger] final(self).cell(row, id) is None,
    {
        let i = match self.find(name) {
            Some(i) => i,
            None => {
                return ColId { idx: 0, ty };
            },
        };
        let ghost old_t = *self;
        let id = match ty {
            DbType::String => {
                let idx = self.next_string_idx;
                self.next_string_idx = self.next_string_idx + 1;
                let id = ColId { idx, ty };
                self.strings.push(Col::new(id, name.to_owned()));
                id
            },
            DbType::Integer => {
                let idx = self.next_integer_idx;
                self.next_integer_idx = self.next_integer_idx + 1;
                let id = ColId { idx, ty };
                self.integers.push(Col::new(id, name.to_owned()));
                id
            },
            DbType::Boolean => {
                let idx = self.next_boolean_idx;
                self.next_boolean_idx = self.next_boolean_idx + 1;
                let id = ColId { idx, ty };
                self.booleans.push(Col::new(id, name.to_owned()));
                id
            },
            DbType::Double => {
                let idx = self.next_double_idx;
                self.next_double_idx = self.next_double_idx + 1;
                let id = ColId { idx, ty };
                self.doubles.push(Col::new(id, name.to_owned()));
                id
            },
        };
        let key = self.id_map[i].0.clone();
        self.id_map.set(i, (key, id));
        proof {
            let n = old_t.id_map@.len() as int;
            assert(self.id_map@.len() == n);
            assert forall|a: int, b: int|
                0 <= a < b < self.id_map@.len() implies #[trigger] self.id_map@[a].0@
                != #[trigger] self.id_map@[b].0@ by {
                assert(old_t.id_map@[a].0@ != old_t.id_map@[b].0@);
            }
            assert forall|k: int| 0 <= k < self.id_map@.len() implies #[trigger] self.has_col(
                self.id_map@[k].1,
            ) by {
                if k != i {
                    assert(old_t.has_col(old_t.id_map@[k].1));
                }
            }
            assert forall|col: ColId| #[trigger] self.has_col(col) implies (self.col_at(col) matches Some(
                m,
            ) && m.0 == col) by {
                if col != id {
                    assert(old_t.has_col(col));
                    assert(self.col_at(col) == old_t.col_at(col));
                }
            }
            assert forall|k: int| 0 <= k < self.id_map@.len() implies #[trigger] self.col_at(
                self.id_map@[k].1,
            ) == Some((self.id_map@[k].1, self.id_map@[k].0@)) by {
                if k != i {
                    assert(old_t.id_map@[k] == self.id_map@[k]);
                    assert(old_t.has_col(old_t.id_map@[k].1));
                    assert(old_t.col_at(old_t.id_map@[k].1) == Some(
                        (old_t.id_map@[k].1, old_t.id_map@[k].0@),
                    ));
                    assert(self.col_at(self.id_map@[k].1) == old_t.col_at(old_t.id_map@[k].1));
                }
            }
            assert(self.names() =~= old_t.names());
            assert forall|k: Seq<char>| #[trigger] self.columns().dom().contains(k) == old_t.columns().insert(name@, id).dom().contains(k) by {
                if self.columns().dom().contains(k) {
                    let j = choose|j: int| 0 <= j < self.id_map@.len() && #[trigger] self.id_map@[j].0@ == k;
                    assert(old_t.id_map@[j].0@ == k);
                }
                if old_t.columns().dom().contains(k) {
                    let j = choose|j: int| 0 <= j < old_t.id_map@.len() && #[trigger] old_t.id_map@[j].0@ == k;
                    assert(self.id_map@[j].0@ == k);
                }
            }
            assert forall|k: Seq<char>| #[trigger] self.columns().dom().contains(k) implies self.columns()[k] == old_t.columns().insert(name@, id)[k] by {
                let j = choose|j: int| 0 <= j < self.id_map@.len() && #[trigger] self.id_map@[j].0@ == k;
                if k == name@ {
                    assert(j == i) by {
                        if j < i {
                            assert(self.id_map@[j].0@ != self.id_map@[i as int].0@);
                        } else if i < j {
                            assert(self.id_map@[i as int].0@ != self.id_map@[j].0@);
                        }
                    }
                } else {
                    let j2 = choose|j: int| 0 <= j < old_t.id_map@.len() && #[trigger] old_t.id_map@[j].0@ == k;
                    assert(self.id_map@[j2].0@ == k);
                    assert(j == j2) by {
                        if j < j2 {
                            assert(self.id_map@[j].0@ != self.id_map@[j2].0@);
                        } else if j2 < j {
                            assert(self.id_map@[j2].0@ != self.id_map@[j].0@);
                        }
                    }
                }
            }
            assert(self.columns() =~= old_t.columns().insert(name@, id));
            assert forall|row: RowId, col: ColId| row.idx >= self.rows() implies #[trigger] self.cell(
                row,
                col,
            ) is None by {
                assert(old_t.cell(row, col) is None);
            }
        }
        id
    }
}

impl Default for Table {
    /// An empty table (see [`Table::new`]).
    fn default() -> (t: Self)
        ensures
            t.wf(),
            t.rows() == 0,
            t.columns() == Map::<Seq<char>, ColId>::empty(),
    {
        Table::new()
    }
}

fn clone_cols<T: Clone>(v: &Vec<Col<T>>) -> (c: Vec<Col<T>>)
    ensures
        c@.len() == v@.len(),
        forall|i: int|
            0 <= i < v@.len() ==> #[trigger] c@[i].col_id() == v@[i].col_id() && c@[i].col_name()
                == v@[i].col_name() && c@[i].cells().len() == v@[i].cells().len() && forall|k: int|
                0 <= k < v@[i].cells().len() ==> match (#[trigger] v@[i].cells()[k], c@[i].cells()[k]) {
                    (Some(a), Some(b)) => cloned::<T>(a, b),
                    (None, None) => true,
                    _ => false,
                },
{
    let mut c: Vec<Col<T>> = Vec::new();
    let mut i: usize = 0;
    while i < v.len()
        invariant
            i <= v@.len(),
            c@.len() == i,
            forall|j: int|
                0 <= j < i ==> #[trigger] c@[j].col_id() == v@[j].col_id() && c@[j].col_name()
                    == v@[j].col_name() && c@[j].cells().len() == v@[j].cells().len() && forall|k: int|
                    0 <= k < v@[j].cells().len() ==> match (#[trigger] v@[j].cells()[k], c@[j].cells()[k]) {
                        (Some(a), Some(b)) => cloned::<T>(a, b),
                        (None, None) => true,
                        _ => false,
                    },
        decreases v@.len() - i,
    {
        c.push(v[i].clone());
        i = i + 1;
    }
    c
}

impl Clone for Table {
    /// A copy of the table: the same columns, rows and indices.
    fn clone(&self) -> (t: Self)
        ensures
            self.wf() ==> t.columns() == self.columns(),
            t.rows() == self.rows(),
            t.wf() == self.wf(),
            forall|ty: DbType| t.next_index(ty) == self.next_index(ty),
            forall|row: RowId, col: ColId| #[trigger] t.cell(row, col) == self.cell(row, col),
            t.names() == self.names(),
    {
        let mut id_map: Vec<(String, ColId)> = Vec::new();
        let mut i: usize = 0;
        while i < self.id_map.len()
            invariant
                i <= self.id_map@.len(),
                id_map@.len() == i,
                forall|j: int| 0 <= j < i ==> #[trigger] id_map@[j].0@ == self.id_map@[j].0@
                    && id_map@[j].1 == self.id_map@[j].1,
            decreases self.id_map@.len() - i,
        {
            let name = self.id_map[i].0.clone();
            let ghost before = id_map@;
            id_map.push((name, self.id_map[i].1));
            assert forall|j: int| 0 <= j < i + 1 implies #[trigger] id_map@[j].0@ == self.id_map@[j].0@
                && id_map@[j].1 == self.id_map@[j].1 by {
                if j < i {
                    assert(id_map@[j] == before[j]);
                }
            }
            i = i + 1;
        }
        let t = Table {
            id_map,
            next_row_idx: self.next_row_idx,
            next_string_idx: self.next_string_idx,
            next_integer_idx: self.next_integer_idx,
            next_boolean_idx: self.next_boolean_idx,
            next_double_idx: self.next_double_idx,
            strings: clone_cols(&self.strings),
            integers: clone_cols(&self.integers),
            booleans: clone_cols(&self.booleans),
            doubles: clone_cols(&self.doubles),
        };
        assert forall|k: Seq<char>| #[trigger] t.columns().dom().contains(k) == self.columns().dom().contains(k) by {
            if t.columns().dom().contains(k) {
                let j = choose|j: int| 0 <= j < t.id_map@.len() && #[trigger] t.id_map@[j].0@ == k;
                assert(self.id_map@[j].0@ == k);
            }
            if self.columns().dom().contains(k) {
                let j = choose|j: int| 0 <= j < self.id_map@.len() && #[trigger] self.id_map@[j].0@ == k;
                assert(t.id_map@[j].0@ == k);
            }
        }
        proof {
            if self.wf() {
            assert forall|k: Seq<char>| #[trigger] t.columns().dom().contains(k) implies t.columns()[k]
                == self.columns()[k] by {
                let j1 = choose|j: int| 0 <= j < t.id_map@.len() && #[trigger] t.id_map@[j].0@ == k;
                let j2 = choose|j: int|
                    0 <= j < self.id_map@.len() && #[trigger] self.id_map@[j].0@ == k;
                assert(self.id_map@[j1].0@ == k);
                assert(j1 == j2) by {
                    if j1 < j2 {
                        assert(self.id_map@[j1].0@ != self.id_map@[j2].0@);
                    } else if j2 < j1 {
                        assert(self.id_map@[j2].0@ != self.id_map@[j1].0@);
                    }
                }
            }
            assert(t.columns() =~= self.columns());
            }
        }
        proof {
            assert forall|col: ColId| #[trigger] t.col_at(col) == self.col_at(col) by {
                let k = col.idx as int;
                match col.ty {
                    DbType::String => if k < self.strings@.len() {
                        assert(t.strings@[k].col_id() == self.strings@[k].col_id());
                    },
                    DbType::Integer => if k < self.integers@.len() {
                        assert(t.integers@[k].col_id() == self.integers@[k].col_id());
                    },
                    DbType::Boolean => if k < self.booleans@.len() {
                        assert(t.booleans@[k].col_id() == self.booleans@[k].col_id());
                    },
                    DbType::Double => if k < self.doubles@.len() {
                        assert(t.doubles@[k].col_id() == self.doubles@[k].col_id());
                    },
                }
            }
            t.lemma_wf_same(*self);
            assert(t.names() =~= self.names());
            assert forall|row: RowId, col: ColId| #[trigger] t.cell(row, col) == self.cell(row, col) by {
                let k = col.idx as int;
                let r = row.idx as int;
                match col.ty {
                    DbType::String => if k < self.strings@.len() && 0 <= r < self.strings@[k].cells().len() {
                        assert(t.strings@[k].col_id() == self.strings@[k].col_id());
                        assert(t.strings@[k].cells().len() == self.strings@[k].cells().len());
                        let x = self.strings@[k].cells()[r];
                        assert(t.strings@[k].cells()[r] == x);
                    },
                    DbType::Integer => if k < self.integers@.len() && 0 <= r < self.integers@[k].cells().len() {
                        assert(t.integers@[k].col_id() == self.integers@[k].col_id());
                        assert(t.integers@[k].cells().len() == self.integers@[k].cells().len());
                        let x = self.integers@[k].cells()[r];
                        assert(t.integers@[k].cells()[r] == x);
                    },
                    DbType::Boolean => if k < self.booleans@.len() && 0 <= r < self.booleans@[k].cells().len() {
                        assert(t.booleans@[k].col_id() == self.booleans@[k].col_id());
                        assert(t.booleans@[k].cells().len() == self.booleans@[k].cells().len());
                        let x = self.booleans@[k].cells()[r];
                        assert(t.booleans@[k].cells()[r] == x);
                    },
                    DbType::Double => if k < self.doubles@.len() && 0 <= r < self.doubles@[k].cells().len() {
                        assert(t.doubles@[k].col_id() == self.doubles@[k].col_id());
                        assert(t.doubles@[k].cells().len() == self.doubles@[k].cells().len());
                        let x = self.doubles@[k].cells()[r];
                        assert(t.doubles@[k].cells()[r] == x);
                    },
                }
            }
            if self.nulls_past_end() {
                assert forall|row: RowId, col: ColId| row.idx >= t.rows() implies #[trigger] t.cell(
                    row,
                    col,
                ) is None by {
                    assert(self.cell(row, col) is None);
                }
            }
            if t.nulls_past_end() {
                assert forall|row: RowId, col: ColId| row.idx >= self.rows() implies #[trigger] self.cell(
                    row,
                    col,
                ) is None by {
                    assert(t.cell(row, col) is None);
                }
            }
        }
        t
    }
}

/// The two character lists are equal.
fn same_chars(a: &Vec<char>, b: &Vec<char>) -> (r: bool)
    ensures
        r == (a@ == b@),
{
    if a.len() != b.len() {
        return false;
    }
    let mut i: usize = 0;
    while i < a.len()
        invariant
            a.len() == b.len(),
            i <= a.len(),
            forall|j: int| 0 <= j < i ==> a@[j] == b@[j],
        decreases a.len() - i,
    {
        if a[i] != b[i] {
            assert(a@[i as int] != b@[i as int]);
            return false;
        }
        i = i + 1;
    }
    assert(a@ =~= b@);
    true
}

} // verus!
