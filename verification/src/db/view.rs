//! Views of a table: a row (the table and a row handle) and a column (a
//! reference to the column of its type).
use vstd::prelude::*;
use crate::db::col::Col;
use crate::db::table::{boolean_val, double_val, integer_val, string_val, Table};
use crate::db::types::{ColId, DbRef, DbType, DbVal, RowId};

verus! {

/// A row of a table.
#[derive(Clone, Copy)]
pub struct RowRef<'a> {
    pub table: &'a Table,
    pub id: RowId,
}

/// A row of a table that can be written.
pub struct RowMut<'a> {
    pub table: &'a mut Table,
    pub id: RowId,
}

/// A column of a table, of one of the four types.
#[derive(Clone, Copy)]
pub enum ColRef<'a> {
    String(&'a Col<String>),
    Integer(&'a Col<i64>),
    Boolean(&'a Col<bool>),
    Double(&'a Col<u64>),
}

/// A column of a table that can be written, of one of the four types.
pub enum ColMut<'a> {
    String(&'a mut Col<String>),
    Integer(&'a mut Col<i64>),
    Boolean(&'a mut Col<bool>),
    Double(&'a mut Col<u64>),
}

impl<'a> ColMut<'a> {
    /// The column's handle.
    pub open spec fn handle(self) -> ColId {
        match self {
            ColMut::String(c) => c.col_id(),
            ColMut::Integer(c) => c.col_id(),
            ColMut::Boolean(c) => c.col_id(),
            ColMut::Double(c) => c.col_id(),
        }
    }

    /// The type of the values the column holds.
    pub open spec fn kind(self) -> DbType {
        match self {
            ColMut::String(_) => DbType::String,
            ColMut::Integer(_) => DbType::Integer,
            ColMut::Boolean(_) => DbType::Boolean,
            ColMut::Double(_) => DbType::Double,
        }
    }

    /// The column's name.
    pub open spec fn label(self) -> Seq<char> {
        match self {
            ColMut::String(c) => c.col_name(),
            ColMut::Integer(c) => c.col_name(),
            ColMut::Boolean(c) => c.col_name(),
            ColMut::Double(c) => c.col_name(),
        }
    }

    /// The value in row `i`, or nothing for a null.
    pub open spec fn value_at(self, i: int) -> Option<DbVal> {
        match self {
            ColMut::String(c) => string_val(c.cell(i)),
            ColMut::Integer(c) => integer_val(c.cell(i)),
            ColMut::Boolean(c) => boolean_val(c.cell(i)),
            ColMut::Double(c) => double_val(c.cell(i)),
        }
    }

    /// The column's handle.
    pub fn id(&self) -> (id: ColId)
        ensures
            id == self.handle(),
    {
        match self {
            ColMut::String(c) => c.id(),
            ColMut::Integer(c) => c.id(),
            ColMut::Boolean(c) => c.id(),
            ColMut::Double(c) => c.id(),
        }
    }

    /// The column's name.
    pub fn name(&self) -> (s: &str)
        ensures
            s@ == self.label(),
    {
        match self {
            ColMut::String(c) => c.name(),
            ColMut::Integer(c) => c.name(),
            ColMut::Boolean(c) => c.name(),
            ColMut::Double(c) => c.name(),
        }
    }

    /// The value in row `row`, or nothing for a null or a row past the end.
    pub fn get(&self, row: RowId) -> (r: Option<DbRef<'_>>)
        ensures
            match r {
                Some(v) => self.value_at(row.idx as int) == Some(v.value()),
                None => self.value_at(row.idx as int) is None,
            },
    {
        match self {
            ColMut::String(c) => match c.get(row) {
                Some(v) => Some(DbRef::String(v)),
                None => None,
            },
            ColMut::Integer(c) => match c.get(row) {
                Some(v) => Some(DbRef::Integer(v)),
                None => None,
            },
            ColMut::Boolean(c) => match c.get(row) {
                Some(v) => Some(DbRef::Boolean(v)),
                None => None,
            },
            ColMut::Double(c) => match c.get(row) {
                Some(v) => Some(DbRef::Double(v)),
                None => None,
            },
        }
    }
}

impl<'a> ColMut<'a> {
    /// Stores `val`, which must be of the column's type, in row `row`;
    /// gives back what the row held. No other row changes.
    pub fn put(&mut self, row: RowId, val: DbVal) -> (r: Option<DbVal>)
        requires
            val.type_of() == old(self).kind(),
            row.idx < usize::MAX,
        ensures
            r == old(self).value_at(row.idx as int),
            final(self).value_at(row.idx as int) == Some(val),
            forall|i: int| i != row.idx ==> #[trigger] final(self).value_at(i) == old(self).value_at(i),
            final(self).handle() == old(self).handle(),
            final(self).label() == old(self).label(),
            final(self).kind() == old(self).kind(),
    {
        match (self, val) {
            (ColMut::String(c), DbVal::String(v)) => match c.put(row, v) {
                Some(p) => Some(DbVal::String(p)),
                None => None,
            },
            (ColMut::Integer(c), DbVal::Integer(v)) => match c.put(row, v) {
                Some(p) => Some(DbVal::Integer(p)),
                None => None,
            },
            (ColMut::Boolean(c), DbVal::Boolean(v)) => match c.put(row, v) {
                Some(p) => Some(DbVal::Boolean(p)),
                None => None,
            },
            (ColMut::Double(c), DbVal::Double(v)) => match c.put(row, v) {
                Some(p) => Some(DbVal::Double(p)),
                None => None,
            },
            _ => None,
        }
    }

    /// Takes the value out of row `row`, leaving a null. No other row
    /// changes.
    pub fn take(&mut self, row: RowId) -> (r: Option<DbVal>)
        ensures
            r == old(self).value_at(row.idx as int),
            final(self).value_at(row.idx as int) is None,
            forall|i: int| i != row.idx ==> #[trigger] final(self).value_at(i) == old(self).value_at(i),
            final(self).handle() == old(self).handle(),
            final(self).label() == old(self).label(),
    {
        match self {
            ColMut::String(c) => match c.take(row) {
                Some(p) => Some(DbVal::String(p)),
                None => None,
            },
            ColMut::Integer(c) => match c.take(row) {
                Some(p) => Some(DbVal::Integer(p)),
                None => None,
            },
            ColMut::Boolean(c) => match c.take(row) {
                Some(p) => Some(DbVal::Boolean(p)),
                None => None,
            },
            ColMut::Double(c) => match c.take(row) {
                Some(p) => Some(DbVal::Double(p)),
                None => None,
            },
        }
    }
}

impl<'a> RowRef<'a> {
    /// The value in this row of column `col`, or nothing for a null.
    pub fn get(&self, col: ColId) -> (r: Option<DbRef<'a>>)
        requires
            self.table.wf(),
            self.table.has_col(col),
        ensures
            match r {
                Some(v) => self.table.cell(self.id, col) == Some(v.value()),
                None => self.table.cell(self.id, col) is None,
            },
    {
        self.table.get((self.id, col))
    }

    /// Each column the table stores (see [`Table::all_col_ids`]) with this
    /// row's value in it.
    pub fn iter(&self) -> (v: Vec<(ColRef<'a>, Option<DbRef<'a>>)>)
        requires
            self.table.wf(),
        ensures
            v@.len() == self.table.all_col_ids().len(),
            forall|i: int|
                0 <= i < v@.len() ==> (#[trigger] v@[i]).0.handle() == self.table.all_col_ids()[i]
                    && match v@[i].1 {
                    Some(x) => self.table.cell(self.id, self.table.all_col_ids()[i]) == Some(x.value()),
                    None => self.table.cell(self.id, self.table.all_col_ids()[i]) is None,
                },
    {
        let cols = self.table.iter_cols();
        let mut v: Vec<(ColRef<'a>, Option<DbRef<'a>>)> = Vec::new();
        let mut i: usize = 0;
        while i < cols.len()
            invariant
                self.table.wf(),
                i <= cols@.len(),
                cols@.len() == self.table.all_col_ids().len(),
                forall|k: int|
                    0 <= k < cols@.len() ==> #[trigger] cols@[k].handle() == self.table.all_col_ids()[k]
                        && forall|row: RowId| #[trigger] cols@[k].value_at(row.idx as int)
                        == self.table.cell(row, self.table.all_col_ids()[k]),
                v@.len() == i,
                forall|k: int|
                    0 <= k < i ==> (#[trigger] v@[k]).0.handle() == self.table.all_col_ids()[k]
                        && match v@[k].1 {
                        Some(x) => self.table.cell(self.id, self.table.all_col_ids()[k]) == Some(
                            x.value(),
                        ),
                        None => self.table.cell(self.id, self.table.all_col_ids()[k]) is None,
                    },
            decreases cols@.len() - i,
        {
            let c = cols[i];
            let val = c.get(self.id);
            assert(cols@[i as int].handle() == self.table.all_col_ids()[i as int]);
            assert(cols@[i as int].value_at(self.id.idx as int) == self.table.cell(self.id, self.table.all_col_ids()[i as int]));
            v.push((c, val));
            i = i + 1;
        }
        v
    }
}

impl<'a> ColRef<'a> {
    /// The column's handle.
    pub open spec fn handle(self) -> ColId {
        match self {
            ColRef::String(c) => c.col_id(),
            ColRef::Integer(c) => c.col_id(),
            ColRef::Boolean(c) => c.col_id(),
            ColRef::Double(c) => c.col_id(),
        }
    }

    /// The column's name.
    pub open spec fn label(self) -> Seq<char> {
        match self {
            ColRef::String(c) => c.col_name(),
            ColRef::Integer(c) => c.col_name(),
            ColRef::Boolean(c) => c.col_name(),
            ColRef::Double(c) => c.col_name(),
        }
    }

    /// The value in row `i`, or nothing for a null.
    pub open spec fn value_at(self, i: int) -> Option<DbVal> {
        match self {
            ColRef::String(c) => string_val(c.cell(i)),
            ColRef::Integer(c) => integer_val(c.cell(i)),
            ColRef::Boolean(c) => boolean_val(c.cell(i)),
            ColRef::Double(c) => double_val(c.cell(i)),
        }
    }

    /// The number of rows the column holds cells for.
    pub open spec fn height(self) -> nat {
        match self {
            ColRef::String(c) => c.cells().len(),
            ColRef::Integer(c) => c.cells().len(),
            ColRef::Boolean(c) => c.cells().len(),
            ColRef::Double(c) => c.cells().len(),
        }
    }

    /// The column's handle.
    pub fn id(&self) -> (id: ColId)
        ensures
            id == self.handle(),
    {
        match self {
            ColRef::String(c) => c.id(),
            ColRef::Integer(c) => c.id(),
            ColRef::Boolean(c) => c.id(),
            ColRef::Double(c) => c.id(),
        }
    }

    /// The column's name.
    pub fn name(&self) -> (s: &'a str)
        ensures
            s@ == self.label(),
    {
        match *self {
            ColRef::String(c) => c.name(),
            ColRef::Integer(c) => c.name(),
            ColRef::Boolean(c) => c.name(),
            ColRef::Double(c) => c.name(),
        }
    }

    /// The value in row `row`, or nothing for a null or a row past the end.
    pub fn get(&self, row: RowId) -> (r: Option<DbRef<'a>>)
        ensures
            match r {
                Some(v) => self.value_at(row.idx as int) == Some(v.value()),
                None => self.value_at(row.idx as int) is None,
            },
    {
        match *self {
            ColRef::String(c) => match c.get(row) {
                Some(v) => Some(DbRef::String(v)),
                None => None,
            },
            ColRef::Integer(c) => match c.get(row) {
                Some(v) => Some(DbRef::Integer(v)),
                None => None,
            },
            ColRef::Boolean(c) => match c.get(row) {
                Some(v) => Some(DbRef::Boolean(v)),
                None => None,
            },
            ColRef::Double(c) => match c.get(row) {
                Some(v) => Some(DbRef::Double(v)),
                None => None,
            },
        }
    }

    /// The column's cells, row by row, as values.
    pub fn iter(&self) -> (v: Vec<Option<DbRef<'a>>>)
        ensures
            v@.len() == self.height(),
            forall|i: int|
                0 <= i < v@.len() ==> match #[trigger] v@[i] {
                    Some(x) => self.value_at(i) == Some(x.value()),
                    None => self.value_at(i) is None,
                },
    {
        let n = match *self {
            ColRef::String(c) => c.len(),
            ColRef::Integer(c) => c.len(),
            ColRef::Boolean(c) => c.len(),
            ColRef::Double(c) => c.len(),
        };
        let mut v: Vec<Option<DbRef<'a>>> = Vec::new();
        let mut i: usize = 0;
        while i < n
            invariant
                n == self.height(),
                i <= n,
                v@.len() == i,
                forall|j: int|
                    0 <= j < i ==> match #[trigger] v@[j] {
                        Some(x) => self.value_at(j) == Some(x.value()),
                        None => self.value_at(j) is None,
                    },
            decreases n - i,
        {
            v.push(self.get(RowId { idx: i }));
            i = i + 1;
        }
        v
    }
}

impl<'a> RowMut<'a> {
    /// The value in this row of column `col`, or nothing for a null.
    pub fn get(&self, col: ColId) -> (r: Option<DbRef<'_>>)
        requires
            self.table.wf(),
            self.table.has_col(col),
        ensures
            match r {
                Some(v) => old(self.table).cell(self.id, col) == Some(v.value()),
                None => old(self.table).cell(self.id, col) is None,
            },
    {
        self.table.get((self.id, col))
    }

    /// Stores `val` in this row of column `col` (see [`Table::put`]).
    pub fn put(&mut self, col: ColId, val: DbVal) -> (r: Option<DbVal>)
        requires
            old(self).table.wf(),
            old(self).table.has_col(col),
            val.type_of() == col.ty,
            old(self).id.idx < old(self).table.rows(),
        ensures
            final(self).id == old(self).id,
            r == old(self).table.cell(old(self).id, col),
            final(self).table.cell(old(self).id, col) == Some(val),
            forall|row: RowId, c: ColId|
                (row, c) != (old(self).id, col) ==> #[trigger] final(self).table.cell(row, c)
                    == old(self).table.cell(row, c),
            final(self).table.wf(),
            final(self).table.rows() == old(self).table.rows(),
            final(self).table.columns() == old(self).table.columns(),
    {
        self.table.put((self.id, col), val)
    }

    /// Takes the value out of this row of column `col` (see
    /// [`Table::take`]).
    pub fn take(&mut self, col: ColId) -> (r: Option<DbVal>)
        requires
            old(self).table.wf(),
            old(self).table.has_col(col),
        ensures
            final(self).id == old(self).id,
            r == old(self).table.cell(old(self).id, col),
            final(self).table.cell(old(self).id, col) is None,
            forall|row: RowId, c: ColId|
                (row, c) != (old(self).id, col) ==> #[trigger] final(self).table.cell(row, c)
                    == old(self).table.cell(row, c),
            final(self).table.wf(),
            final(self).table.rows() == old(self).table.rows(),
            final(self).table.columns() == old(self).table.columns(),
    {
        self.table.take((self.id, col))
    }
}

} // verus!
