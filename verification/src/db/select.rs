//! Select queries: which columns to show, which rows to keep (a filter),
//! and how to order them.
use vstd::prelude::*;
use vstd::std_specs::convert::IntoSpec;
use crate::db::order::{cell_rel, col_rel, compare_cells, lemma_col_rel_flip, lemma_col_rel_trans, Relation};
use crate::db::table::Table;
use crate::db::types::{ColId, DbVal, RowId};
use crate::db::view::{ColRef, RowRef};

verus! {

/// Sorts the rows of a query by a column.
#[derive(Clone, Copy, Debug, PartialEq, Eq, Structural)]
pub struct OrderBy {
    pub col: ColId,
    pub order: Order,
}

/// A direction to sort in.
#[derive(Clone, Copy, Debug, PartialEq, Eq, Structural)]
pub enum Order {
    Ascending,
    Descending,
}

/// A condition on a row. Comparisons follow [`cell_rel`]: a null equals a
/// null and comes before every value, and values of different types are
/// neither equal nor ordered.
#[derive(Debug, PartialEq)]
pub enum Filter {
    IsNull(ColId),
    IsNonNull(ColId),
    Eq(ColId, DbVal),
    Ne(ColId, DbVal),
    Gt(ColId, DbVal),
    Lt(ColId, DbVal),
    Ge(ColId, DbVal),
    Le(ColId, DbVal),
    And(Box<Filter>, Box<Filter>),
    Or(Box<Filter>, Box<Filter>),
    Xor(Box<Filter>, Box<Filter>),
    Not(Box<Filter>),
}

impl Filter {
    /// Every column the filter reads is a column of `t`.
    pub open spec fn reads_only(self, t: Table) -> bool
        decreases self,
    {
        match self {
            Filter::IsNull(c) => t.has_col(c),
            Filter::IsNonNull(c) => t.has_col(c),
            Filter::Eq(c, _) => t.has_col(c),
            Filter::Ne(c, _) => t.has_col(c),
            Filter::Gt(c, _) => t.has_col(c),
            Filter::Lt(c, _) => t.has_col(c),
            Filter::Ge(c, _) => t.has_col(c),
            Filter::Le(c, _) => t.has_col(c),
            Filter::And(a, b) => a.reads_only(t) && b.reads_only(t),
            Filter::Or(a, b) => a.reads_only(t) && b.reads_only(t),
            Filter::Xor(a, b) => a.reads_only(t) && b.reads_only(t),
            Filter::Not(a) => a.reads_only(t),
        }
    }

    /// Row `row` of `t` meets the filter.
    pub open spec fn holds(self, t: Table, row: RowId) -> bool
        decreases self,
    {
        match self {
            Filter::IsNull(c) => t.cell(row, c) is None,
            Filter::IsNonNull(c) => t.cell(row, c) is Some,
            Filter::Eq(c, v) => cell_rel(t.cell(row, c), Some(v)) == Some(Relation::Equal),
            Filter::Ne(c, v) => cell_rel(t.cell(row, c), Some(v)) != Some(Relation::Equal),
            Filter::Gt(c, v) => cell_rel(t.cell(row, c), Some(v)) == Some(Relation::Greater),
            Filter::Lt(c, v) => cell_rel(t.cell(row, c), Some(v)) == Some(Relation::Less),
            Filter::Ge(c, v) => cell_rel(t.cell(row, c), Some(v)) == Some(Relation::Greater)
                || cell_rel(t.cell(row, c), Some(v)) == Some(Relation::Equal),
            Filter::Le(c, v) => cell_rel(t.cell(row, c), Some(v)) == Some(Relation::Less)
                || cell_rel(t.cell(row, c), Some(v)) == Some(Relation::Equal),
            Filter::And(a, b) => a.holds(t, row) && b.holds(t, row),
            Filter::Or(a, b) => a.holds(t, row) || b.holds(t, row),
            Filter::Xor(a, b) => a.holds(t, row) != b.holds(t, row),
            Filter::Not(a) => !a.holds(t, row),
        }
    }

    /// How the row's value in `col` compares to `v`.
    fn compare_with(row: RowRef<'_>, col: ColId, v: &DbVal) -> (r: Option<Relation>)
        requires
            row.table.wf(),
            row.table.has_col(col),
        ensures
            r == cell_rel(row.table.cell(row.id, col), Some(*v)),
    {
        let here = row.get(col);
        compare_cells(here, Some(v.as_ref()))
    }

    /// The row meets the filter: `true` keeps it.
    pub fn apply(&self, row: RowRef<'_>) -> (b: bool)
        requires
            row.table.wf(),
            self.reads_only(*row.table),
        ensures
            b == self.holds(*row.table, row.id),
        decreases self,
    {
        match self {
            Filter::IsNull(c) => row.get(*c).is_none(),
            Filter::IsNonNull(c) => row.get(*c).is_some(),
            Filter::Eq(c, v) => Self::compare_with(row, *c, v) == Some(Relation::Equal),
            Filter::Ne(c, v) => Self::compare_with(row, *c, v) != Some(Relation::Equal),
            Filter::Gt(c, v) => Self::compare_with(row, *c, v) == Some(Relation::Greater),
            Filter::Lt(c, v) => Self::compare_with(row, *c, v) == Some(Relation::Less),
            Filter::Ge(c, v) => {
                let r = Self::compare_with(row, *c, v);
                r == Some(Relation::Greater) || r == Some(Relation::Equal)
            },
            Filter::Le(c, v) => {
                let r = Self::compare_with(row, *c, v);
                r == Some(Relation::Less) || r == Some(Relation::Equal)
            },
            Filter::And(a, b) => {
                let x = a.apply(row);
                let y = b.apply(row);
                x && y
            },
            Filter::Or(a, b) => {
                let x = a.apply(row);
                let y = b.apply(row);
                x || y
            },
            Filter::Xor(a, b) => {
                let x = a.apply(row);
                let y = b.apply(row);
                x != y
            },
            Filter::Not(a) => !a.apply(row),
        }
    }
}

impl Filter {
    /// The value in `col` is null.
    pub fn is_null(col: ColId) -> (f: Self)
        ensures
            f == Filter::IsNull(col),
    {
        Filter::IsNull(col)
    }

    /// The value in `col` is not null.
    pub fn is_non_null(col: ColId) -> (f: Self)
        ensures
            f == Filter::IsNonNull(col),
    {
        Filter::IsNonNull(col)
    }

    /// The value in `col` equals `val` (converted to a value).
    pub fn eq<V: Into<DbVal>>(col: ColId, val: V) -> (f: Self)
        ensures
            f matches Filter::Eq(c, _) && c == col,
            <V as IntoSpec<DbVal>>::obeys_into_spec() ==> f == Filter::Eq(col, val.into_spec()),
    {
        Filter::Eq(col, val.into())
    }

    /// The value in `col` differs from `val` (converted to a value).
    pub fn ne<V: Into<DbVal>>(col: ColId, val: V) -> (f: Self)
        ensures
            f matches Filter::Ne(c, _) && c == col,
            <V as IntoSpec<DbVal>>::obeys_into_spec() ==> f == Filter::Ne(col, val.into_spec()),
    {
        Filter::Ne(col, val.into())
    }

    /// The value in `col` is greater than `val` (converted to a value).
    pub fn gt<V: Into<DbVal>>(col: ColId, val: V) -> (f: Self)
        ensures
            f matches Filter::Gt(c, _) && c == col,
            <V as IntoSpec<DbVal>>::obeys_into_spec() ==> f == Filter::Gt(col, val.into_spec()),
    {
        Filter::Gt(col, val.into())
    }

    /// The value in `col` is less than `val` (converted to a value).
    pub fn lt<V: Into<DbVal>>(col: ColId, val: V) -> (f: Self)
        ensures
            f matches Filter::Lt(c, _) && c == col,
            <V as IntoSpec<DbVal>>::obeys_into_spec() ==> f == Filter::Lt(col, val.into_spec()),
    {
        Filter::Lt(col, val.into())
    }

    /// The value in `col` is at least `val` (converted to a value).
    pub fn ge<V: Into<DbVal>>(col: ColId, val: V) -> (f: Self)
        ensures
            f matches Filter::Ge(c, _) && c == col,
            <V as IntoSpec<DbVal>>::obeys_into_spec() ==> f == Filter::Ge(col, val.into_spec()),
    {
        Filter::Ge(col, val.into())
    }

    /// The value in `col` is at most `val` (converted to a value).
    pub fn le<V: Into<DbVal>>(col: ColId, val: V) -> (f: Self)
        ensures
            f matches Filter::Le(c, _) && c == col,
            <V as IntoSpec<DbVal>>::obeys_into_spec() ==> f == Filter::Le(col, val.into_spec()),
    {
        Filter::Le(col, val.into())
    }

    /// Holds where both filters hold.
    pub fn and(self, filter: Filter) -> (f: Self)
        ensures
            f == Filter::And(Box::new(self), Box::new(filter)),
    {
        Filter::And(Box::new(self), Box::new(filter))
    }

    /// Holds where either filter holds.
    pub fn or(self, filter: Filter) -> (f: Self)
        ensures
            f == Filter::Or(Box::new(self), Box::new(filter)),
    {
        Filter::Or(Box::new(self), Box::new(filter))
    }

    /// Holds where exactly one of the filters holds.
    pub fn xor(self, filter: Filter) -> (f: Self)
        ensures
            f == Filter::Xor(Box::new(self), Box::new(filter)),
    {
        Filter::Xor(Box::new(self), Box::new(filter))
    }
}

/// A select query: the columns to show, an optional filter on the rows, and
/// the orderings to sort the rows by, the first one deciding first.
pub struct Select {
    cols: Vec<ColId>,
    filter: Option<Filter>,
    order_by: Vec<OrderBy>,
}

impl Select {
    /// The columns to show, in order.
    pub closed spec fn columns(self) -> Seq<ColId> {
        self.cols@
    }

    /// The filter on the rows, if any.
    pub closed spec fn condition(self) -> Option<Filter> {
        self.filter
    }

    /// The orderings, in the order they were added.
    pub closed spec fn orderings(self) -> Seq<OrderBy> {
        self.order_by@
    }

    /// A query showing the given columns, keeping every row, unordered.
    pub fn new(cols: Vec<ColId>) -> (s: Self)
        ensures
            s.columns() == cols@,
            s.condition() is None,
            s.orderings() == Seq::<OrderBy>::empty(),
    {
        Select { cols, filter: None, order_by: Vec::new() }
    }

    /// A query showing every column of the table, keeping every row,
    /// unordered.
    pub fn all(table: &Table) -> (s: Self)
        ensures
            s.columns() == table.all_col_ids(),
            s.condition() is None,
            s.orderings() == Seq::<OrderBy>::empty(),
    {
        Select { cols: table.iter_col_ids(), filter: None, order_by: Vec::new() }
    }

    /// The query with one more filter: a row must meet the earlier filter
    /// and this one.
    pub fn filter(self, filter: Filter) -> (s: Self)
        ensures
            s.columns() == self.columns(),
            s.orderings() == self.orderings(),
            s.condition() == match self.condition() {
                Some(old_filter) => Some(Filter::And(Box::new(old_filter), Box::new(filter))),
                None => Some(filter),
            },
    {
        let Select { cols, filter: old_filter, order_by } = self;
        let f = match old_filter {
            Some(o) => Filter::And(Box::new(o), Box::new(filter)),
            None => filter,
        };
        Select { cols, filter: Some(f), order_by }
    }

    /// The query with one more ordering, which decides only between rows
    /// that the earlier orderings leave tied.
    pub fn order_by(self, col: ColId, order: Order) -> (s: Self)
        ensures
            s.columns() == self.columns(),
            s.condition() == self.condition(),
            s.orderings() == self.orderings().push(OrderBy { col, order }),
    {
        let Select { cols, filter, mut order_by } = self;
        order_by.push(OrderBy { col, order });
        Select { cols, filter, order_by }
    }
}

/// How rows `a` and `b` of `t` compare in the column of `ob`, in its
/// direction.
pub open spec fn order_rel(t: Table, ob: OrderBy, a: RowId, b: RowId) -> Relation {
    let r = col_rel(t.cell(a, ob.col), t.cell(b, ob.col));
    match ob.order {
        Order::Ascending => r,
        Order::Descending => r.flip(),
    }
}

/// How rows compare under the orderings from the `k`-th on: the first that
/// does not tie decides.
pub open spec fn keys_rel(t: Table, obs: Seq<OrderBy>, k: int, a: RowId, b: RowId) -> Relation
    decreases obs.len() - k,
{
    if k < 0 || k >= obs.len() {
        Relation::Equal
    } else {
        let r = order_rel(t, obs[k], a, b);
        if r != Relation::Equal {
            r
        } else {
            keys_rel(t, obs, k + 1, a, b)
        }
    }
}

/// Row `a` comes before row `b` in a query's result: the orderings put it
/// first, or tie and the table has it first.
pub open spec fn comes_before(t: Table, obs: Seq<OrderBy>, a: RowId, b: RowId) -> bool {
    let r = keys_rel(t, obs, 0, a, b);
    r == Relation::Less || (r == Relation::Equal && a.idx < b.idx)
}

proof fn lemma_order_rel(t: Table, ob: OrderBy, a: RowId, b: RowId, c: RowId)
    ensures
        order_rel(t, ob, b, a) == order_rel(t, ob, a, b).flip(),
        order_rel(t, ob, a, a) == Relation::Equal,
        order_rel(t, ob, a, b) == Relation::Equal ==> order_rel(t, ob, a, c) == order_rel(
            t,
            ob,
            b,
            c,
        ),
        order_rel(t, ob, b, c) == Relation::Equal ==> order_rel(t, ob, a, c) == order_rel(
            t,
            ob,
            a,
            b,
        ),
        order_rel(t, ob, a, b) == Relation::Less && order_rel(t, ob, b, c) == Relation::Less
            ==> order_rel(t, ob, a, c) == Relation::Less,
{
    let (x, y, z) = (t.cell(a, ob.col), t.cell(b, ob.col), t.cell(c, ob.col));
    t.lemma_cell_type(a, ob.col);
    t.lemma_cell_type(b, ob.col);
    t.lemma_cell_type(c, ob.col);
    lemma_col_rel_flip(x, y, ob.col.ty);
    lemma_col_rel_flip(y, z, ob.col.ty);
    lemma_col_rel_flip(x, z, ob.col.ty);
    lemma_col_rel_trans(x, y, z, ob.col.ty);
    lemma_col_rel_trans(z, y, x, ob.col.ty);
}

proof fn lemma_keys_rel(t: Table, obs: Seq<OrderBy>, k: int, a: RowId, b: RowId, c: RowId)
    requires
        0 <= k,
    ensures
        keys_rel(t, obs, k, b, a) == keys_rel(t, obs, k, a, b).flip(),
        keys_rel(t, obs, k, a, a) == Relation::Equal,
        keys_rel(t, obs, k, a, b) == Relation::Equal ==> keys_rel(t, obs, k, a, c) == keys_rel(
            t,
            obs,
            k,
            b,
            c,
        ),
        keys_rel(t, obs, k, b, c) == Relation::Equal ==> keys_rel(t, obs, k, a, c) == keys_rel(
            t,
            obs,
            k,
            a,
            b,
        ),
        keys_rel(t, obs, k, a, b) == Relation::Less && keys_rel(t, obs, k, b, c) == Relation::Less
            ==> keys_rel(t, obs, k, a, c) == Relation::Less,
    decreases obs.len() - k,
{
    if k < obs.len() {
        lemma_order_rel(t, obs[k], a, b, c);
        lemma_keys_rel(t, obs, k + 1, a, b, c);
    }
}

/// The result order of a query is a strict total order on the rows of a
/// table: no row comes before itself, of two different rows exactly one
/// comes first, and it is transitive. So the rows a query keeps have a
/// single order.
pub proof fn lemma_comes_before(t: Table, obs: Seq<OrderBy>, a: RowId, b: RowId, c: RowId)
    ensures
        !comes_before(t, obs, a, a),
        a != b ==> (comes_before(t, obs, a, b) != comes_before(t, obs, b, a)),
        comes_before(t, obs, a, b) && comes_before(t, obs, b, c) ==> comes_before(t, obs, a, c),
{
    lemma_keys_rel(t, obs, 0, a, b, c);
    if a != b {
        assert(a.idx != b.idx);
    }
}

/// Row `row` of `t` is kept by the filter, if there is one.
pub open spec fn kept(t: Table, filter: Option<Filter>, row: RowId) -> bool {
    match filter {
        Some(f) => f.holds(t, row),
        None => true,
    }
}

/// The rows in `rows` are in result order.
pub open spec fn in_result_order(t: Table, obs: Seq<OrderBy>, rows: Seq<RowId>) -> bool {
    forall|i: int, j: int| 0 <= i < j < rows.len() ==> comes_before(t, obs, #[trigger] rows[i], #[trigger] rows[j])
}

impl Table {
    /// Row `a` comes before row `b` under the orderings `obs` (see
    /// [`comes_before`]).
    fn row_before(&self, obs: &Vec<OrderBy>, a: RowId, b: RowId) -> (r: bool)
        requires
            self.wf(),
            forall|i: int| 0 <= i < obs@.len() ==> #[trigger] self.has_col(obs@[i].col),
        ensures
            r == comes_before(*self, obs@, a, b),
    {
        let mut k: usize = 0;
        while k < obs.len()
            invariant
                self.wf(),
                forall|i: int| 0 <= i < obs@.len() ==> #[trigger] self.has_col(obs@[i].col),
                k <= obs@.len(),
                keys_rel(*self, obs@, 0, a, b) == keys_rel(*self, obs@, k as int, a, b),
            decreases obs@.len() - k,
        {
            let ob = obs[k];
            assert(self.has_col(obs@[k as int].col));
            let c = match compare_cells(self.get((a, ob.col)), self.get((b, ob.col))) {
                Some(r) => r,
                None => Relation::Equal,
            };
            let r = match ob.order {
                Order::Ascending => c,
                Order::Descending => c.flipped(),
            };
            if r != Relation::Equal {
                return r == Relation::Less;
            }
            k = k + 1;
        }
        a.idx < b.idx
    }

    /// The columns and the rows a query selects: the rows of the table that
    /// the filter keeps, in result order (see [`comes_before`]).
    pub fn select_helper(&self, select: Select) -> (r: (Vec<ColId>, Vec<RowId>))
        requires
            self.wf(),
            select.condition() matches Some(f) ==> f.reads_only(*self),
            forall|i: int|
                0 <= i < select.orderings().len() ==> #[trigger] self.has_col(
                    select.orderings()[i].col,
                ),
        ensures
            r.0@ == select.columns(),
            in_result_order(*self, select.orderings(), r.1@),
            forall|row: RowId|
                r.1@.contains(row) <==> (row.idx < self.rows() && kept(
                    *self,
                    select.condition(),
                    row,
                )),
    {
        let ghost obs = select.orderings();
        let ghost cond = select.condition();
        let Select { cols, filter, order_by } = select;
        let mut rows: Vec<RowId> = Vec::new();
        let n = self.num_rows();
        let mut i: usize = 0;
        while i < n
            invariant
                self.wf(),
                n == self.rows(),
                i <= n,
                obs == order_by@,
                cond == filter,
                filter matches Some(f) ==> f.reads_only(*self),
                forall|k: int| 0 <= k < obs.len() ==> #[trigger] self.has_col(obs[k].col),
                in_result_order(*self, obs, rows@),
                forall|row: RowId| rows@.contains(row) <==> (row.idx < i && kept(*self, cond, row)),
            decreases n - i,
        {
            let row = RowId { idx: i };
            let keep = match &filter {
                Some(f) => f.apply(self.row(row)),
                None => true,
            };
            if keep {
                let mut p: usize = 0;
                while p < rows.len()
                    invariant
                        self.wf(),
                        forall|k: int| 0 <= k < obs.len() ==> #[trigger] self.has_col(obs[k].col),
                        obs == order_by@,
                        p <= rows@.len(),
                        forall|q: int| 0 <= q < p ==> comes_before(*self, obs, #[trigger] rows@[q], row),
                        forall|r: RowId| rows@.contains(r) ==> r.idx < i,
                        row == (RowId { idx: i }),
                    ensures
                        p <= rows@.len(),
                        forall|q: int| 0 <= q < p ==> comes_before(*self, obs, #[trigger] rows@[q], row),
                        p < rows@.len() ==> comes_before(*self, obs, row, rows@[p as int]),
                    decreases rows@.len() - p,
                {
                    let here = rows[p];
                    if self.row_before(&order_by, row, here) {
                        break;
                    }
                    proof {
                        assert(rows@.contains(here));
                        lemma_comes_before(*self, obs, row, here, row);
                    }
                    p = p + 1;
                }
                let ghost before = rows@;
                assert(kept(*self, cond, row));
                proof {
                    assert forall|q: int| p <= q < before.len() implies comes_before(
                        *self,
                        obs,
                        row,
                        #[trigger] before[q],
                    ) by {
                        if q > p {
                            lemma_comes_before(*self, obs, row, before[p as int], before[q]);
                        }
                    }
                }
                rows.insert(p, row);
                proof {
                    assert forall|a: int, b: int| 0 <= a < b < rows@.len() implies comes_before(
                        *self,
                        obs,
                        #[trigger] rows@[a],
                        #[trigger] rows@[b],
                    ) by {
                        if a < p && b == p {
                        } else if a < p && b > p {
                            assert(rows@[b] == before[b - 1]);
                        } else if a == p {
                            assert(rows@[b] == before[b - 1]);
                        } else if b < p {
                        } else {
                            assert(rows@[a] == before[a - 1]);
                            assert(rows@[b] == before[b - 1]);
                        }
                    }
                    assert forall|r: RowId| rows@.contains(r) <==> (r.idx < i + 1 && kept(
                        *self,
                        cond,
                        r,
                    )) by {
                        if rows@.contains(r) {
                            let k = choose|k: int| 0 <= k < rows@.len() && rows@[k] == r;
                            if k < p {
                                assert(before[k] == r);
                                assert(before.contains(r));
                            } else if k > p {
                                assert(before[k - 1] == r);
                                assert(before.contains(r));
                            } else {
                                assert(r == row);
                            }
                        }
                        if r.idx < i + 1 && kept(*self, cond, r) {
                            if r.idx < i {
                                let k = choose|k: int| 0 <= k < before.len() && before[k] == r;
                                if k < p {
                                    assert(rows@[k] == r);
                                } else {
                                    assert(rows@[k + 1] == r);
                                }
                            } else {
                                assert(r == row);
                                assert(rows@[p as int] == row);
                            }
                        }
                    }
                }
            } else {
                proof {
                    assert forall|r: RowId| rows@.contains(r) <==> (r.idx < i + 1 && kept(
                        *self,
                        cond,
                        r,
                    )) by {
                        if r.idx == i {
                            assert(r == row);
                        }
                    }
                }
            }
            i = i + 1;
        }
        (cols, rows)
    }
}

/// The result of a select query on a table: the table, the columns shown
/// and the rows kept, in order.
pub struct TableView<'a> {
    table: &'a Table,
    col_ids: Vec<ColId>,
    row_ids: Vec<RowId>,
}

impl<'a> TableView<'a> {
    /// The table queried.
    pub closed spec fn source(self) -> Table {
        *self.table
    }

    /// The columns shown.
    pub closed spec fn shown(self) -> Seq<ColId> {
        self.col_ids@
    }

    /// The rows kept, in order.
    pub closed spec fn kept_rows(self) -> Seq<RowId> {
        self.row_ids@
    }

    /// The handles of the rows kept, in order.
    pub fn iter_row_ids(&self) -> (v: Vec<RowId>)
        ensures
            v@ == self.kept_rows(),
    {
        self.row_ids.clone()
    }

    /// The table queried.
    pub fn source_table(&self) -> (t: &'a Table)
        ensures
            *t == self.source(),
    {
        self.table
    }

    /// The handles of the columns shown, in order.
    pub fn iter_col_ids(&self) -> (v: Vec<ColId>)
        ensures
            v@ == self.shown(),
    {
        self.col_ids.clone()
    }

    /// Views of the rows kept, in order.
    pub fn iter_rows(&self) -> (v: Vec<RowRef<'a>>)
        ensures
            v@.len() == self.kept_rows().len(),
            forall|i: int|
                0 <= i < v@.len() ==> *(#[trigger] v@[i]).table == self.source() && v@[i].id
                    == self.kept_rows()[i],
    {
        let mut v: Vec<RowRef<'a>> = Vec::new();
        let mut i: usize = 0;
        while i < self.row_ids.len()
            invariant
                i <= self.row_ids@.len(),
                v@.len() == i,
                forall|j: int|
                    0 <= j < i ==> *(#[trigger] v@[j]).table == self.source() && v@[j].id
                        == self.kept_rows()[j],
            decreases self.row_ids@.len() - i,
        {
            v.push(RowRef { table: self.table, id: self.row_ids[i] });
            i = i + 1;
        }
        v
    }

    /// Views of the columns shown, in order; each must be a column of the
    /// table.
    pub fn iter_cols(&self) -> (v: Vec<ColRef<'a>>)
        requires
            self.source().wf(),
            forall|i: int| 0 <= i < self.shown().len() ==> #[trigger] self.source().has_col(self.shown()[i]),
        ensures
            v@.len() == self.shown().len(),
            forall|i: int|
                0 <= i < v@.len() ==> #[trigger] v@[i].handle() == self.shown()[i] && forall|
                    row: RowId,
                | #[trigger] v@[i].value_at(row.idx as int) == self.source().cell(
                    row,
                    self.shown()[i],
                ),
    {
        let mut v: Vec<ColRef<'a>> = Vec::new();
        let mut i: usize = 0;
        while i < self.col_ids.len()
            invariant
                self.source().wf(),
                forall|k: int| 0 <= k < self.shown().len() ==> #[trigger] self.source().has_col(self.shown()[k]),
                i <= self.col_ids@.len(),
                v@.len() == i,
                forall|j: int|
                    0 <= j < i ==> #[trigger] v@[j].handle() == self.shown()[j] && forall|
                        row: RowId,
                    | #[trigger] v@[j].value_at(row.idx as int) == self.source().cell(
                        row,
                        self.shown()[j],
                    ),
            decreases self.col_ids@.len() - i,
        {
            let id = self.col_ids[i];
            assert(self.source().has_col(self.shown()[i as int]));
            v.push(self.table.col(id));
            i = i + 1;
        }
        v
    }
}

impl<'a> TableView<'a> {
    /// What is shown in place of a result with no rows or no columns.
    pub fn empty_note(&self) -> (note: Option<&'static str>)
        ensures
            note == if self.kept_rows().len() == 0 {
                Some("<no matching rows>")
            } else if self.shown().len() == 0 {
                Some("<no columns selected>")
            } else {
                None
            },
    {
        if self.row_ids.len() == 0 {
            Some("<no matching rows>")
        } else if self.col_ids.len() == 0 {
            Some("<no columns selected>")
        } else {
            None
        }
    }

    /// The names of the columns shown and, for each row kept, the value of
    /// each column shown.
    pub fn grid(&self) -> (g: (Vec<String>, Vec<Vec<Option<DbVal>>>))
        requires
            self.source().wf(),
            forall|i: int| 0 <= i < self.shown().len() ==> #[trigger] self.source().has_col(self.shown()[i]),
        ensures
            g.0@.len() == self.shown().len(),
            forall|c: int|
                0 <= c < self.shown().len() ==> forall|n: Seq<char>|
                    self.source().columns().dom().contains(n) && self.source().columns()[n]
                        == self.shown()[c] ==> (#[trigger] g.0@[c])@ == n,
            g.1@.len() == self.kept_rows().len(),
            forall|r: int|
                0 <= r < g.1@.len() ==> (#[trigger] g.1@[r])@.len() == self.shown().len() && forall|
                    c: int,
                |
                    0 <= c < self.shown().len() ==> #[trigger] g.1@[r]@[c] == self.source().cell(
                        self.kept_rows()[r],
                        self.shown()[c],
                    ),
    {
        let mut names: Vec<String> = Vec::new();
        let mut c: usize = 0;
        while c < self.col_ids.len()
            invariant
                self.source().wf(),
                forall|i: int| 0 <= i < self.shown().len() ==> #[trigger] self.source().has_col(self.shown()[i]),
                c <= self.col_ids@.len(),
                names@.len() == c,
                forall|k: int|
                    0 <= k < c ==> forall|n: Seq<char>|
                        self.source().columns().dom().contains(n) && self.source().columns()[n]
                            == self.shown()[k] ==> (#[trigger] names@[k])@ == n,
            decreases self.col_ids@.len() - c,
        {
            assert(self.source().has_col(self.shown()[c as int]));
            let col = self.table.col(self.col_ids[c]);
            names.push(col.name().to_owned());
            c = c + 1;
        }
        let mut rows: Vec<Vec<Option<DbVal>>> = Vec::new();
        let mut r: usize = 0;
        while r < self.row_ids.len()
            invariant
                self.source().wf(),
                forall|i: int| 0 <= i < self.shown().len() ==> #[trigger] self.source().has_col(self.shown()[i]),
                r <= self.row_ids@.len(),
                rows@.len() == r,
                forall|k: int|
                    0 <= k < r ==> (#[trigger] rows@[k])@.len() == self.shown().len() && forall|
                        c: int,
                    |
                        0 <= c < self.shown().len() ==> #[trigger] rows@[k]@[c]
                            == self.source().cell(self.kept_rows()[k], self.shown()[c]),
            decreases self.row_ids@.len() - r,
        {
            let row = self.row_ids[r];
            let mut line: Vec<Option<DbVal>> = Vec::new();
            let mut c: usize = 0;
            while c < self.col_ids.len()
                invariant
                    self.source().wf(),
                    forall|i: int| 0 <= i < self.shown().len() ==> #[trigger] self.source().has_col(self.shown()[i]),
                    c <= self.col_ids@.len(),
                    line@.len() == c,
                    forall|k: int|
                        0 <= k < c ==> #[trigger] line@[k] == self.source().cell(row, self.shown()[k]),
                decreases self.col_ids@.len() - c,
            {
                assert(self.source().has_col(self.shown()[c as int]));
                let v = match self.table.get((row, self.col_ids[c])) {
                    Some(x) => Some(x.to_owned()),
                    None => None,
                };
                line.push(v);
                c = c + 1;
            }
            rows.push(line);
            r = r + 1;
        }
        (names, rows)
    }
}

/// The result of a select query on a table that can be written: the
/// table, the columns shown and the rows kept, in order.
pub struct TableViewMut<'a> {
    table: &'a mut Table,
    col_ids: Vec<ColId>,
    row_ids: Vec<RowId>,
}

impl<'a> TableViewMut<'a> {
    /// The table queried.
    pub closed spec fn source(self) -> Table {
        *self.table
    }

    /// The columns shown.
    pub closed spec fn shown(self) -> Seq<ColId> {
        self.col_ids@
    }

    /// The rows kept, in order.
    pub closed spec fn kept_rows(self) -> Seq<RowId> {
        self.row_ids@
    }

    /// The same result, read only.
    pub fn as_view(&self) -> (v: TableView<'_>)
        ensures
            v.source() == self.source(),
            v.shown() == self.shown(),
            v.kept_rows() == self.kept_rows(),
    {
        TableView { table: &*self.table, col_ids: self.col_ids.clone(), row_ids: self.row_ids.clone() }
    }
}

impl Table {
    /// Runs a select query (see [`Table::select_helper`]).
    pub fn select(&self, select: Select) -> (v: TableView<'_>)
        requires
            self.wf(),
            select.condition() matches Some(f) ==> f.reads_only(*self),
            forall|i: int|
                0 <= i < select.orderings().len() ==> #[trigger] self.has_col(
                    select.orderings()[i].col,
                ),
        ensures
            v.source() == *self,
            v.shown() == select.columns(),
            in_result_order(*self, select.orderings(), v.kept_rows()),
            forall|row: RowId|
                v.kept_rows().contains(row) <==> (row.idx < self.rows() && kept(
                    *self,
                    select.condition(),
                    row,
                )),
    {
        let (col_ids, row_ids) = self.select_helper(select);
        TableView { table: self, col_ids, row_ids }
    }
}

impl Table {
    /// Runs a select query (see [`Table::select_helper`]), keeping the
    /// table writable through the result.
    pub fn select_mut(&mut self, select: Select) -> (v: TableViewMut<'_>)
        requires
            old(self).wf(),
            select.condition() matches Some(f) ==> f.reads_only(*old(self)),
            forall|i: int|
                0 <= i < select.orderings().len() ==> #[trigger] old(self).has_col(
                    select.orderings()[i].col,
                ),
        ensures
            v.source() == *old(self),
            v.shown() == select.columns(),
            in_result_order(*old(self), select.orderings(), v.kept_rows()),
            forall|row: RowId|
                v.kept_rows().contains(row) <==> (row.idx < old(self).rows() && kept(
                    *old(self),
                    select.condition(),
                    row,
                )),
    {
        let (col_ids, row_ids) = self.select_helper(select);
        TableViewMut { table: self, col_ids, row_ids }
    }
}

/// Rows tie under the orderings before the `k`-th.
proof fn lemma_tied_prefix(t: Table, obs: Seq<OrderBy>, k: int, a: RowId, b: RowId)
    requires
        0 <= k <= obs.len(),
        forall|m: int| 0 <= m < k ==> #[trigger] order_rel(t, obs[m], a, b) == Relation::Equal,
    ensures
        keys_rel(t, obs, 0, a, b) == keys_rel(t, obs, k, a, b),
    decreases k,
{
    if k > 0 {
        assert(order_rel(t, obs[k - 1], a, b) == Relation::Equal);
        lemma_tied_prefix(t, obs, k - 1, a, b);
    }
}

/// The orderings of a query are applied from the most important to the
/// least: of two rows in result order, where the first `k` orderings tie
/// and the `k`-th does not, that ordering puts the earlier row first; where
/// all orderings tie, the earlier row comes first in the table.
pub proof fn law_result_order_follows_orderings(
    t: Table,
    obs: Seq<OrderBy>,
    rows: Seq<RowId>,
    i: int,
    j: int,
)
    requires
        in_result_order(t, obs, rows),
        0 <= i < j < rows.len(),
    ensures
        forall|k: int|
            0 <= k < obs.len() && (forall|m: int|
                0 <= m < k ==> #[trigger] order_rel(t, obs[m], rows[i], rows[j]) == Relation::Equal)
                && order_rel(t, obs[k], rows[i], rows[j]) != Relation::Equal ==> #[trigger] order_rel(
                t,
                obs[k],
                rows[i],
                rows[j],
            ) == Relation::Less,
        (forall|m: int|
            0 <= m < obs.len() ==> #[trigger] order_rel(t, obs[m], rows[i], rows[j]) == Relation::Equal)
            ==> rows[i].idx < rows[j].idx,
{
    let a = rows[i];
    let b = rows[j];
    assert(comes_before(t, obs, a, b));
    assert forall|k: int|
        0 <= k < obs.len() && (forall|m: int|
            0 <= m < k ==> #[trigger] order_rel(t, obs[m], a, b) == Relation::Equal) && order_rel(
            t,
            obs[k],
            a,
            b,
        ) != Relation::Equal implies #[trigger] order_rel(t, obs[k], a, b) == Relation::Less by {
        lemma_tied_prefix(t, obs, k, a, b);
    }
    if forall|m: int| 0 <= m < obs.len() ==> #[trigger] order_rel(t, obs[m], a, b) == Relation::Equal {
        lemma_tied_prefix(t, obs, obs.len() as int, a, b);
    }
}

/// An ordering by a column in descending direction puts two rows the other
/// way round from the ascending one; in ascending direction a null comes
/// before any value, and two rows whose values are equal tie.
pub proof fn law_order_directions(t: Table, col: ColId, a: RowId, b: RowId)
    ensures
        order_rel(t, OrderBy { col, order: Order::Descending }, a, b) == order_rel(
            t,
            OrderBy { col, order: Order::Ascending },
            b,
            a,
        ),
        t.cell(a, col) is None && t.cell(b, col) is Some ==> order_rel(
            t,
            OrderBy { col, order: Order::Ascending },
            a,
            b,
        ) == Relation::Less,
        t.cell(a, col) == t.cell(b, col) ==> order_rel(
            t,
            OrderBy { col, order: Order::Ascending },
            a,
            b,
        ) == Relation::Equal,
{
    t.lemma_cell_type(a, col);
    t.lemma_cell_type(b, col);
    lemma_col_rel_flip(t.cell(a, col), t.cell(b, col), col.ty);
    lemma_col_rel_flip(t.cell(b, col), t.cell(a, col), col.ty);
}

} // verus!
