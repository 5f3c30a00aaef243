//! A column of nullable values of type `T`: the values in a `Vec`, and
//! which of them are present in a bit vector (`bit_vec::BitVec`).
use bit_vec::BitVec;
use vstd::prelude::*;
use crate::db::types::{ColId, RowId};

verus! {

#[verifier::external_type_specification]
#[verifier::external_body]
#[verifier::reject_recursive_types(B)]
pub struct ExBitVec<B>(BitVec<B>);

/// The bits a bit vector holds, in order.
pub uninterp spec fn bits_of(v: BitVec) -> Seq<bool>;

/// `BitVec::new`: an empty bit vector.
#[verifier::external_body]
fn bits_new() -> (v: BitVec)
    ensures
        bits_of(v) == Seq::<bool>::empty(),
{
    BitVec::new()
}

/// `BitVec::push`: appends a bit. It panics when the length would overflow,
/// which `requires` rules out.
#[verifier::external_body]
fn bits_push(v: &mut BitVec, bit: bool)
    requires
        bits_of(*old(v)).len() < usize::MAX,
    ensures
        bits_of(*final(v)) == bits_of(*old(v)).push(bit),
{
    v.push(bit)
}

/// `BitVec::get`: the bit at `i`, or nothing past the end.
#[verifier::external_body]
fn bits_get(v: &BitVec, i: usize) -> (b: Option<bool>)
    ensures
        b == if i < bits_of(*v).len() {
            Some(bits_of(*v)[i as int])
        } else {
            None
        },
{
    v.get(i)
}

/// `BitVec::set`: overwrites the bit at `i`. It panics when `i` is past the
/// end, which `requires` rules out.
#[verifier::external_body]
fn bits_set(v: &mut BitVec, i: usize, bit: bool)
    requires
        i < bits_of(*old(v)).len(),
    ensures
        bits_of(*final(v)) == bits_of(*old(v)).update(i as int, bit),
{
    v.set(i, bit)
}

/// `BitVec::clone`: a bit vector with the same bits.
#[verifier::external_body]
fn bits_clone(v: &BitVec) -> (c: BitVec)
    ensures
        bits_of(c) == bits_of(*v),
{
    v.clone()
}

/// A column of a table: its handle, its name, and for each row a value
/// that may be null.
pub struct Col<T> {
    id: ColId,
    name: String,
    data: Vec<T>,
    occupied: BitVec,
}

impl<T> Col<T> {
    /// Every row has a value and a presence bit.
    #[verifier::type_invariant]
    spec fn wf(self) -> bool {
        self.data@.len() == bits_of(self.occupied).len()
    }

    /// The column's cells, row by row: the value, or nothing for a null.
    pub closed spec fn cells(self) -> Seq<Option<T>> {
        Seq::new(
            self.data@.len(),
            |i: int|
                if bits_of(self.occupied)[i] {
                    Some(self.data@[i])
                } else {
                    None
                },
        )
    }

    /// The column's handle.
    pub closed spec fn col_id(self) -> ColId {
        self.id
    }

    /// The column's name.
    pub closed spec fn col_name(self) -> Seq<char> {
        self.name@
    }

    /// An empty column with the given handle and name.
    pub fn new(id: ColId, name: String) -> (c: Self)
        ensures
            c.col_id() == id,
            c.col_name() == name@,
            c.cells() == Seq::<Option<T>>::empty(),
    {
        let c = Self { id, name, data: Vec::new(), occupied: bits_new() };
        assert(c.cells() =~= Seq::<Option<T>>::empty());
        c
    }

    /// The column's handle.
    pub fn id(&self) -> (id: ColId)
        ensures
            id == self.col_id(),
    {
        self.id
    }

    /// The column's name.
    pub fn name(&self) -> (s: &str)
        ensures
            s@ == self.col_name(),
    {
        self.name.as_str()
    }

    /// The number of rows the column holds cells for.
    pub fn len(&self) -> (n: usize)
        ensures
            n == self.cells().len(),
    {
        self.data.len()
    }

    /// The column's cells, row by row (see [`Col::cells`]).
    pub fn iter(&self) -> (v: Vec<Option<&T>>)
        ensures
            v@.len() == self.cells().len(),
            forall|i: int|
                0 <= i < v@.len() ==> match #[trigger] v@[i] {
                    Some(r) => self.cells()[i] == Some(*r),
                    None => self.cells()[i] is None,
                },
    {
        proof {
            use_type_invariant(self);
        }
        let mut v: Vec<Option<&T>> = Vec::new();
        let mut i: usize = 0;
        while i < self.data.len()
            invariant
                i <= self.data@.len(),
                self.data@.len() == bits_of(self.occupied).len(),
                v@.len() == i,
                forall|j: int|
                    0 <= j < i ==> match #[trigger] v@[j] {
                        Some(r) => self.cells()[j] == Some(*r),
                        None => self.cells()[j] is None,
                    },
            decreases self.data@.len() - i,
        {
            let present = bits_get(&self.occupied, i);
            if present == Some(true) {
                v.push(Some(&self.data[i]));
            } else {
                v.push(None);
            }
            i = i + 1;
        }
        v
    }
}

impl<T: Clone> Clone for Col<T> {
    /// A copy of the column: the same handle, name and rows, each value cloned.
    fn clone(&self) -> (c: Self)
        ensures
            c.col_id() == self.col_id(),
            c.col_name() == self.col_name(),
            c.cells().len() == self.cells().len(),
            forall|i: int|
                0 <= i < self.cells().len() ==> match (#[trigger] self.cells()[i], c.cells()[i]) {
                    (Some(a), Some(b)) => cloned::<T>(a, b),
                    (None, None) => true,
                    _ => false,
                },
    {
        proof {
            use_type_invariant(self);
        }
        let data = self.data.clone();
        let c = Col { id: self.id, name: self.name.clone(), data, occupied: bits_clone(&self.occupied) };
        assert forall|i: int| 0 <= i < self.cells().len() implies match (#[trigger] self.cells()[i], c.cells()[i]) {
            (Some(a), Some(b)) => cloned::<T>(a, b),
            (None, None) => true,
            _ => false,
        } by {
            assert(cloned::<T>(self.data@[i], c.data@[i]));
        }
        c
    }
}

/// The cells that values and presence bits describe: the value where the
/// bit is set, nothing where it is clear.
pub open spec fn cells_of<T>(data: Seq<T>, bits: Seq<bool>) -> Seq<Option<T>> {
    Seq::new(data.len(), |i: int| if bits[i] { Some(data[i]) } else { None })
}

/// `cells` with null cells appended until there is one for row `row`.
pub open spec fn padded<T>(cells: Seq<Option<T>>, row: int) -> Seq<Option<T>> {
    if cells.len() > row {
        cells
    } else {
        cells + Seq::new((row + 1 - cells.len()) as nat, |i: int| None::<T>)
    }
}

/// Appends nulls to a column's values and bits until row `row` exists.
fn pad<T: Default>(data: &mut Vec<T>, bits: &mut BitVec, row: usize)
    requires
        old(data)@.len() == bits_of(*old(bits)).len(),
        row < usize::MAX,
    ensures
        final(data)@.len() == bits_of(*final(bits)).len(),
        cells_of(final(data)@, bits_of(*final(bits))) == padded(
            cells_of(old(data)@, bits_of(*old(bits))),
            row as int,
        ),
{
    let ghost start = cells_of(data@, bits_of(*bits));
    let ghost n0 = data@.len();
    while data.len() <= row
        invariant
            data@.len() == bits_of(*bits).len(),
            n0 <= data@.len(),
            data@.len() <= row + 1 || data@.len() == n0,
            row < usize::MAX,
            cells_of(data@, bits_of(*bits)) == start + Seq::new(
                (data@.len() - n0) as nat,
                |i: int| None::<T>,
            ),
        decreases row + 1 - data@.len(),
    {
        let ghost before = cells_of(data@, bits_of(*bits));
        data.push(T::default());
        bits_push(bits, false);
        assert(cells_of(data@, bits_of(*bits)) =~= before.push(None));
        assert(cells_of(data@, bits_of(*bits)) =~= start + Seq::new(
            (data@.len() - n0) as nat,
            |i: int| None::<T>,
        ));
    }
    proof {
        if n0 > row {
            assert(cells_of(data@, bits_of(*bits)) =~= start);
        }
    }
}

impl<T> Col<T> {
    /// The cell of row `i`: nothing past the last row.
    pub open spec fn cell(self, i: int) -> Option<T> {
        if 0 <= i < self.cells().len() {
            self.cells()[i]
        } else {
            None
        }
    }

    proof fn lemma_cells(self)
        ensures
            self.cells() == cells_of(self.data@, bits_of(self.occupied)),
    {
        assert(self.cells() =~= cells_of(self.data@, bits_of(self.occupied)));
    }
}

impl<T: Default> Col<T> {
    /// Pads the column with nulls until it has a cell for row `row`.
    pub fn extend_with_null(&mut self, row: usize)
        requires
            row < usize::MAX,
        ensures
            final(self).col_id() == old(self).col_id(),
            final(self).col_name() == old(self).col_name(),
            final(self).cells() == padded(old(self).cells(), row as int),
    {
        let mut whole = Col { id: self.id, name: String::new(), data: Vec::new(), occupied: bits_new() };
        std::mem::swap(self, &mut whole);
        proof {
            use_type_invariant(&whole);
            whole.lemma_cells();
        }
        let Col { id, name, mut data, mut occupied } = whole;
        pad(&mut data, &mut occupied, row);
        *self = Col { id, name, data, occupied };
        proof {
            self.lemma_cells();
        }
    }
}

impl<T> Col<T> {
    /// The value in row `id`, or nothing for a null or a row past the end.
    pub fn get<'a>(&'a self, id: RowId) -> (r: Option<&'a T>)
        ensures
            match r {
                Some(v) => self.cell(id.idx as int) == Some(*v),
                None => self.cell(id.idx as int) is None,
            },
    {
        proof {
            use_type_invariant(self);
        }
        if id.idx < self.data.len() && bits_get(&self.occupied, id.idx) == Some(true) {
            Some(&self.data[id.idx])
        } else {
            None
        }
    }
}

impl<T: Default> Col<T> {
    /// The value in row `id`, mutably, or nothing for a null or a row past
    /// the end.
    pub fn get_mut<'a>(&'a mut self, id: RowId) -> (r: Option<&'a mut T>)
        ensures
            match r {
                Some(e) => old(self).cell(id.idx as int) == Some(*e) && final(self).cells()
                    == old(self).cells().update(id.idx as int, Some(*final(e))),
                None => old(self).cell(id.idx as int) is None && final(self).cells() == old(
                    self,
                ).cells(),
            },
            final(self).col_id() == old(self).col_id(),
            final(self).col_name() == old(self).col_name(),
    {
        proof {
            use_type_invariant(&*self);
        }
        if id.idx < self.data.len() && bits_get(&self.occupied, id.idx) == Some(true) {
            Some(&mut self.data[id.idx])
        } else {
            None
        }
    }

    /// Stores `val` in row `id`, padding the column with nulls up to that
    /// row; gives back what the row held.
    pub fn put(&mut self, id: RowId, val: T) -> (r: Option<T>)
        requires
            id.idx < usize::MAX,
        ensures
            r == old(self).cell(id.idx as int),
            final(self).col_id() == old(self).col_id(),
            final(self).col_name() == old(self).col_name(),
            final(self).cells().len() == padded(old(self).cells(), id.idx as int).len(),
            forall|i: int|
                0 <= i < final(self).cells().len() && i != id.idx ==> #[trigger] final(self).cells()[i]
                    == padded(old(self).cells(), id.idx as int)[i],
            final(self).cell(id.idx as int) == Some(val),
            forall|i: int| i != id.idx ==> #[trigger] final(self).cell(i) == old(self).cell(i),
    {
        let v: T = val;
        let row = id.idx;
        let mut whole = Col { id: self.id, name: String::new(), data: Vec::new(), occupied: bits_new() };
        std::mem::swap(self, &mut whole);
        proof {
            use_type_invariant(&whole);
            whole.lemma_cells();
        }
        let Col { id: cid, name, mut data, mut occupied } = whole;
        pad(&mut data, &mut occupied, row);
        let ghost mid = cells_of(data@, bits_of(occupied));
        assert(mid.len() == data@.len());
        assert(mid[row as int] == old(self).cell(row as int));
        let ghost d0 = data@;
        let was = bits_get(&occupied, row);
        let mut slot = v;
        std::mem::swap(&mut data[row], &mut slot);
        bits_set(&mut occupied, row, true);
        assert(slot == d0[row as int]);
        assert(cells_of(data@, bits_of(occupied)) =~= mid.update(row as int, Some(data@[row as int])));
        *self = Col { id: cid, name, data, occupied };
        proof {
            self.lemma_cells();
        }
        if was == Some(true) {
            Some(slot)
        } else {
            None
        }
    }

    /// Takes the value out of row `id`, leaving a null there.
    pub fn take(&mut self, id: RowId) -> (r: Option<T>)
        ensures
            r == old(self).cell(id.idx as int),
            final(self).col_id() == old(self).col_id(),
            final(self).col_name() == old(self).col_name(),
            final(self).cells() == if id.idx < old(self).cells().len() {
                old(self).cells().update(id.idx as int, None)
            } else {
                old(self).cells()
            },
            final(self).cell(id.idx as int) is None,
            forall|i: int| i != id.idx ==> #[trigger] final(self).cell(i) == old(self).cell(i),
    {
        let row = id.idx;
        let mut whole = Col { id: self.id, name: String::new(), data: Vec::new(), occupied: bits_new() };
        std::mem::swap(self, &mut whole);
        proof {
            use_type_invariant(&whole);
            whole.lemma_cells();
        }
        let Col { id: cid, name, mut data, mut occupied } = whole;
        let ghost start = cells_of(data@, bits_of(occupied));
        let mut r: Option<T> = None;
        if row < data.len() {
            if bits_get(&occupied, row) == Some(true) {
                let mut slot = T::default();
                std::mem::swap(&mut data[row], &mut slot);
                r = Some(slot);
            }
            bits_set(&mut occupied, row, false);
            assert(cells_of(data@, bits_of(occupied)) =~= start.update(row as int, None));
        } else {
            assert(cells_of(data@, bits_of(occupied)) =~= start);
        }
        *self = Col { id: cid, name, data, occupied };
        proof {
            self.lemma_cells();
        }
        r
    }
}

} // verus!
