//! The tables of a session, by name: creating, removing, renaming, copying
//! and opening them.
use vstd::prelude::*;
use crate::db::table::Table;
use crate::db::types::{ColId, RowId};
use crate::text::chars_of;

verus! {

/// Why a change to the tables was refused.
#[derive(Clone, Copy, Debug, PartialEq, Eq, Structural)]
pub enum CatalogError {
    /// A table of that name exists already.
    AlreadyExists,
    /// No table has that name.
    DoesNotExist,
    /// The source and the destination are the same name.
    SameName,
    /// No table has the source name.
    SourceMissing,
    /// A table has the destination name already.
    DestinationExists,
}

impl CatalogError {
    /// What the prompt says of the error.
    pub fn message(&self) -> (s: &'static str)
        ensures
            s@ == match self {
                CatalogError::AlreadyExists => "table already exists"@,
                CatalogError::DoesNotExist => "table does not exist"@,
                CatalogError::SameName => "source and destination must be distinct"@,
                CatalogError::SourceMissing => "source table does not exist"@,
                CatalogError::DestinationExists => "destination table already exists"@,
            },
    {
        match self {
            CatalogError::AlreadyExists => "table already exists",
            CatalogError::DoesNotExist => "table does not exist",
            CatalogError::SameName => "source and destination must be distinct",
            CatalogError::SourceMissing => "source table does not exist",
            CatalogError::DestinationExists => "destination table already exists",
        }
    }
}

/// The tables of a session, each under its own name.
pub struct Catalog {
    entries: Vec<(String, Table)>,
}

/// `t` is a copy of `s`: the same columns, rows and cells.
pub open spec fn same_contents(s: Table, t: Table) -> bool {
    &&& t.wf() == s.wf()
    &&& t.rows() == s.rows()
    &&& t.names() == s.names()
    &&& t.columns() == s.columns()
    &&& forall|row: RowId, col: ColId| #[trigger] t.cell(row, col) == s.cell(row, col)
}

/// `t` is an empty table.
pub open spec fn is_empty_table(t: Table) -> bool {
    &&& t.wf()
    &&& t.rows() == 0
    &&& t.names() == Seq::<Seq<char>>::empty()
    &&& t.columns() == Map::<Seq<char>, ColId>::empty()
}

impl Catalog {
    /// No two tables share a name, and every table is well formed.
    pub closed spec fn wf(self) -> bool {
        &&& forall|i: int, j: int|
            0 <= i < j < self.entries@.len() ==> #[trigger] self.entries@[i].0@
                != #[trigger] self.entries@[j].0@
        &&& forall|i: int| 0 <= i < self.entries@.len() ==> (#[trigger] self.entries@[i]).1.wf()
    }

    /// The tables, by name.
    pub closed spec fn tables(self) -> Map<Seq<char>, Table> {
        Map::new(
            |k: Seq<char>| exists|i: int| 0 <= i < self.entries@.len() && #[trigger] self.entries@[i].0@ == k,
            |k: Seq<char>|
                self.entries@[choose|i: int|
                    0 <= i < self.entries@.len() && #[trigger] self.entries@[i].0@ == k].1,
        )
    }

    /// With unique names, the entry at `i` is the table of its name.
    proof fn lemma_entry(self, i: int)
        requires
            self.wf(),
            0 <= i < self.entries@.len(),
        ensures
            self.tables().dom().contains(self.entries@[i].0@),
            self.tables()[self.entries@[i].0@] == self.entries@[i].1,
    {
        let k = self.entries@[i].0@;
        assert(self.entries@[i].0@ == k);
        let j = choose|j: int| 0 <= j < self.entries@.len() && #[trigger] self.entries@[j].0@ == k;
        if j != i {
            if j < i {
                assert(self.entries@[j].0@ != self.entries@[i].0@);
            } else {
                assert(self.entries@[i].0@ != self.entries@[j].0@);
            }
        }
    }

    /// No tables.
    pub fn new() -> (c: Self)
        ensures
            c.wf(),
            c.tables() == Map::<Seq<char>, Table>::empty(),
    {
        let c = Catalog { entries: Vec::new() };
        assert(c.tables() =~= Map::<Seq<char>, Table>::empty());
        c
    }

    /// Where the table of that name sits, if there is one.
    fn find(&self, name: &str) -> (r: Option<usize>)
        requires
            self.wf(),
        ensures
            r matches Some(i) ==> i < self.entries@.len() && self.entries@[i as int].0@ == name@,
            r is None <==> !self.tables().dom().contains(name@),
    {
        let target = chars_of(name);
        let mut i: usize = 0;
        while i < self.entries.len()
            invariant
                i <= self.entries@.len(),
                target@ == name@,
                forall|j: int| 0 <= j < i ==> #[trigger] self.entries@[j].0@ != name@,
            decreases self.entries@.len() - i,
        {
            let here = chars_of(self.entries[i].0.as_str());
            if same_chars(&here, &target) {
                return Some(i);
            }
            i = i + 1;
        }
        None
    }

    /// There is a table of that name.
    pub fn contains(&self, name: &str) -> (b: bool)
        requires
            self.wf(),
        ensures
            b == self.tables().dom().contains(name@),
    {
        self.find(name).is_some()
    }

    /// The number of tables.
    pub fn len(&self) -> (n: usize)
        requires
            self.wf(),
        ensures
            n == self.tables().dom().len(),
    {
        proof {
            self.lemma_len();
        }
        self.entries.len()
    }

    proof fn lemma_len(self)
        requires
            self.wf(),
        ensures
            self.tables().dom().finite(),
            self.tables().dom().len() == self.entries@.len(),
    {
        let names = Seq::new(self.entries@.len(), |i: int| self.entries@[i].0@);
        assert(names.no_duplicates());
        names.unique_seq_to_set();
        assert(self.tables().dom() =~= names.to_set()) by {
            assert forall|k: Seq<char>| #[trigger] names.to_set().contains(k) implies self.tables().dom().contains(k) by {
                let i = choose|i: int| 0 <= i < names.len() && names[i] == k;
                assert(self.entries@[i].0@ == k);
            }
            assert forall|k: Seq<char>| self.tables().dom().contains(k) implies #[trigger] names.to_set().contains(k) by {
                let i = choose|i: int| 0 <= i < self.entries@.len() && #[trigger] self.entries@[i].0@ == k;
                assert(names[i] == k);
            }
        }
    }

    /// The table of that name, if there is one.
    pub fn get(&self, name: &str) -> (r: Option<&Table>)
        requires
            self.wf(),
        ensures
            match r {
                Some(t) => self.tables().dom().contains(name@) && *t == self.tables()[name@],
                None => !self.tables().dom().contains(name@),
            },
    {
        match self.find(name) {
            Some(i) => {
                proof {
                    self.lemma_entry(i as int);
                }
                Some(&self.entries[i].1)
            },
            None => None,
        }
    }

    /// The names and tables, in the order they were added.
    pub fn iter(&self) -> (v: Vec<(&str, &Table)>)
        requires
            self.wf(),
        ensures
            v@.len() == self.tables().dom().len(),
            forall|i: int|
                0 <= i < v@.len() ==> self.tables().dom().contains((#[trigger] v@[i]).0@)
                    && *v@[i].1 == self.tables()[v@[i].0@],
            forall|k: Seq<char>| #[trigger] self.tables().dom().contains(k) ==> exists|i: int|
                0 <= i < v@.len() && (#[trigger] v@[i]).0@ == k,
    {
        proof {
            self.lemma_len();
        }
        let mut v: Vec<(&str, &Table)> = Vec::new();
        let mut i: usize = 0;
        while i < self.entries.len()
            invariant
                self.wf(),
                i <= self.entries@.len(),
                v@.len() == i,
                forall|j: int|
                    0 <= j < i ==> (#[trigger] v@[j]).0@ == self.entries@[j].0@ && *v@[j].1
                        == self.entries@[j].1,
            decreases self.entries@.len() - i,
        {
            v.push((self.entries[i].0.as_str(), &self.entries[i].1));
            i = i + 1;
        }
        assert forall|j: int|
            0 <= j < v@.len() implies self.tables().dom().contains((#[trigger] v@[j]).0@) && *v@[j].1
            == self.tables()[v@[j].0@] by {
            self.lemma_entry(j);
        }
        assert forall|k: Seq<char>| #[trigger] self.tables().dom().contains(k) implies exists|j: int|
            0 <= j < v@.len() && (#[trigger] v@[j]).0@ == k by {
            let j = choose|j: int| 0 <= j < self.entries@.len() && #[trigger] self.entries@[j].0@ == k;
            assert(v@[j].0@ == k);
        }
        v
    }
}

impl Catalog {
    /// Two catalogs whose entries have the same names and tables hold the
    /// same tables.
    proof fn lemma_same(self, other: Catalog)
        requires
            self.wf(),
            self.entries@.len() == other.entries@.len(),
            forall|i: int|
                0 <= i < self.entries@.len() ==> (#[trigger] self.entries@[i]).0@ == other.entries@[i].0@
                    && self.entries@[i].1 == other.entries@[i].1,
        ensures
            self.tables() == other.tables(),
            self.wf() == other.wf(),
    {
        assert forall|k: Seq<char>| #[trigger] self.tables().dom().contains(k) == other.tables().dom().contains(k) by {
            if self.tables().dom().contains(k) {
                let i = choose|i: int| 0 <= i < self.entries@.len() && #[trigger] self.entries@[i].0@ == k;
                assert(other.entries@[i].0@ == k);
            }
            if other.tables().dom().contains(k) {
                let i = choose|i: int| 0 <= i < other.entries@.len() && #[trigger] other.entries@[i].0@ == k;
                assert(self.entries@[i].0@ == k);
            }
        }
        assert forall|k: Seq<char>| #[trigger] self.tables().dom().contains(k) implies self.tables()[k]
            == other.tables()[k] by {
            let i = choose|i: int| 0 <= i < self.entries@.len() && #[trigger] self.entries@[i].0@ == k;
            let j = choose|j: int| 0 <= j < other.entries@.len() && #[trigger] other.entries@[j].0@ == k;
            assert(self.entries@[i] == self.entries@[i]);
            assert(other.entries@[j] == other.entries@[j]);
            assert(self.entries@[j].0@ == k);
            assert(other.entries@[i].0@ == k);
            assert(i == j) by {
                if i < j {
                    assert(self.entries@[i].0@ != self.entries@[j].0@);
                } else if j < i {
                    assert(self.entries@[j].0@ != self.entries@[i].0@);
                }
            }
            assert(self.entries@[i].1 == other.entries@[i].1);
        }
        assert(self.tables() =~= other.tables());
        if self.wf() {
            assert forall|i: int, j: int|
                0 <= i < j < other.entries@.len() implies #[trigger] other.entries@[i].0@
                != #[trigger] other.entries@[j].0@ by {
                assert(self.entries@[i].0@ != self.entries@[j].0@);
            }
            assert forall|i: int| 0 <= i < other.entries@.len() implies (#[trigger] other.entries@[i]).1.wf() by {
                assert(self.entries@[i].1.wf());
            }
        }
        if other.wf() {
            assert forall|i: int, j: int|
                0 <= i < j < self.entries@.len() implies #[trigger] self.entries@[i].0@
                != #[trigger] self.entries@[j].0@ by {
                assert(other.entries@[i].0@ != other.entries@[j].0@);
            }
            assert forall|i: int| 0 <= i < self.entries@.len() implies (#[trigger] self.entries@[i]).1.wf() by {
                assert(other.entries@[i].1.wf());
            }
        }
    }

    /// Adds a table under a name no table has.
    pub fn insert(&mut self, name: String, table: Table)
        requires
            old(self).wf(),
            !old(self).tables().dom().contains(name@),
            table.wf(),
        ensures
            final(self).wf(),
            final(self).tables() == old(self).tables().insert(name@, table),
    {
        let ghost old_c = *self;
        let ghost key = name@;
        let ghost t = table;
        self.entries.push((name, table));
        proof {
            let n = old_c.entries@.len() as int;
            assert(self.entries@[n].0@ == key);
            assert forall|i: int, j: int|
                0 <= i < j < self.entries@.len() implies #[trigger] self.entries@[i].0@
                != #[trigger] self.entries@[j].0@ by {
                if j == n {
                    assert(old_c.entries@[i].0@ != key) by {
                        if old_c.entries@[i].0@ == key {
                            assert(old_c.tables().dom().contains(key));
                        }
                    }
                } else {
                    assert(old_c.entries@[i] == self.entries@[i] && old_c.entries@[j] == self.entries@[j]);
                }
            }
            assert forall|i: int| 0 <= i < self.entries@.len() implies (#[trigger] self.entries@[i]).1.wf() by {
                if i < n {
                    assert(old_c.entries@[i] == self.entries@[i]);
                }
            }
            assert forall|k: Seq<char>| #[trigger] self.tables().dom().contains(k) == old_c.tables().insert(key, t).dom().contains(k) by {
                if self.tables().dom().contains(k) {
                    let i = choose|i: int| 0 <= i < self.entries@.len() && #[trigger] self.entries@[i].0@ == k;
                    if i < n {
                        assert(old_c.entries@[i].0@ == k);
                    }
                }
                if old_c.tables().dom().contains(k) {
                    let i = choose|i: int| 0 <= i < old_c.entries@.len() && #[trigger] old_c.entries@[i].0@ == k;
                    assert(self.entries@[i].0@ == k);
                }
            }
            assert forall|k: Seq<char>| #[trigger] self.tables().dom().contains(k) implies self.tables()[k]
                == old_c.tables().insert(key, t)[k] by {
                let i = choose|i: int| 0 <= i < self.entries@.len() && #[trigger] self.entries@[i].0@ == k;
                self.lemma_entry(i);
                if i < n {
                    assert(old_c.entries@[i] == self.entries@[i]);
                    old_c.lemma_entry(i);
                }
            }
            assert(self.tables() =~= old_c.tables().insert(key, t));
        }
    }

    /// The table of that name, to change, if there is one: once the borrow
    /// ends, the catalog holds the changed table under that name and the
    /// others as they were, and stays well formed if the table does.
    pub fn get_mut(&mut self, name: &str) -> (r: Option<&mut Table>)
        requires
            old(self).wf(),
        ensures
            match r {
                Some(t) => old(self).tables().dom().contains(name@)
                    && *t == old(self).tables()[name@]
                    && final(self).tables() == old(self).tables().insert(name@, *final(t))
                    && (final(t).wf() ==> final(self).wf()),
                None => !old(self).tables().dom().contains(name@)
                    && final(self).tables() == old(self).tables()
                    && final(self).wf(),
            },
    {
        match self.find(name) {
            Some(i) => {
                proof {
                    self.lemma_entry(i as int);
                    Self::lemma_table_update(*self, i as int);
                }
                let entry = &mut self.entries[i];
                Some(&mut entry.1)
            },
            None => None,
        }
    }

    /// A catalog that differs from `old_c` only in the table of entry `i`
    /// holds that table under the entry's name and the others as they were,
    /// and is well formed if that table is.
    proof fn lemma_table_update(old_c: Catalog, i: int)
        requires
            old_c.wf(),
            0 <= i < old_c.entries@.len(),
        ensures
            forall|c: Catalog|
                #![trigger c.tables()]
                #![trigger c.wf()]
                c.entries@.len() == old_c.entries@.len() && (forall|j: int|
                    0 <= j < c.entries@.len() && j != i ==> c.entries@[j] == old_c.entries@[j])
                    && c.entries@[i].0 == old_c.entries@[i].0 ==> c.tables() == old_c.tables().insert(
                    old_c.entries@[i].0@,
                    c.entries@[i].1,
                ) && (c.entries@[i].1.wf() ==> c.wf()),
    {
        let key = old_c.entries@[i].0@;
        assert forall|c: Catalog|
            c.entries@.len() == old_c.entries@.len() && (forall|j: int|
                0 <= j < c.entries@.len() && j != i ==> c.entries@[j] == old_c.entries@[j])
                && c.entries@[i].0 == old_c.entries@[i].0 implies #[trigger] c.tables()
            == old_c.tables().insert(key, c.entries@[i].1) && (c.entries@[i].1.wf() ==> c.wf()) by {
            let nt = c.entries@[i].1;
            assert forall|a: int, b: int|
                0 <= a < b < c.entries@.len() implies #[trigger] c.entries@[a].0@
                != #[trigger] c.entries@[b].0@ by {
                assert(old_c.entries@[a].0@ != old_c.entries@[b].0@);
                if a != i {
                    assert(c.entries@[a] == old_c.entries@[a]);
                }
                if b != i {
                    assert(c.entries@[b] == old_c.entries@[b]);
                }
            }
            assert forall|k: Seq<char>| #[trigger] c.tables().dom().contains(k) == old_c.tables().insert(
                key,
                nt,
            ).dom().contains(k) by {
                if c.tables().dom().contains(k) {
                    let j = choose|j: int| 0 <= j < c.entries@.len() && #[trigger] c.entries@[j].0@ == k;
                    if j != i {
                        assert(c.entries@[j] == old_c.entries@[j]);
                    }
                    assert(old_c.entries@[j].0@ == k);
                }
                if old_c.tables().dom().contains(k) {
                    let j = choose|j: int| 0 <= j < old_c.entries@.len() && #[trigger] old_c.entries@[j].0@ == k;
                    if j != i {
                        assert(c.entries@[j] == old_c.entries@[j]);
                    }
                    assert(c.entries@[j].0@ == k);
                }
                if k == key {
                    assert(c.entries@[i].0@ == k);
                }
            }
            assert forall|k: Seq<char>| #[trigger] c.tables().dom().contains(k) implies c.tables()[k]
                == old_c.tables().insert(key, nt)[k] by {
                let j = choose|j: int| 0 <= j < c.entries@.len() && #[trigger] c.entries@[j].0@ == k;
                let jj = choose|jj: int| 0 <= jj < c.entries@.len() && #[trigger] c.entries@[jj].0@ == k;
                assert(j == jj);
                if j != i {
                    assert(c.entries@[j] == old_c.entries@[j]);
                    old_c.lemma_entry(j);
                    assert(k != key);
                } else {
                    assert(k == key);
                }
            }
            assert(c.tables() =~= old_c.tables().insert(key, nt));
            if nt.wf() {
                assert forall|j: int| 0 <= j < c.entries@.len() implies (#[trigger] c.entries@[j]).1.wf() by {
                    if j != i {
                        assert(c.entries@[j] == old_c.entries@[j]);
                    }
                }
            }
        }
    }

    /// Takes out the entry at `i`.
    fn take_entry(&mut self, i: usize) -> (t: Table)
        requires
            old(self).wf(),
            i < old(self).entries@.len(),
        ensures
            final(self).wf(),
            t == old(self).tables()[old(self).entries@[i as int].0@],
            t.wf(),
            final(self).tables() == old(self).tables().remove(old(self).entries@[i as int].0@),
    {
        let ghost old_c = *self;
        let ghost key = self.entries@[i as int].0@;
        proof {
            old_c.lemma_entry(i as int);
        }
        let (_, t) = self.entries.remove(i);
        proof {
            assert forall|a: int| 0 <= a < self.entries@.len() implies #[trigger] self.entries@[a] == old_c.entries@[if a < i {
                a
            } else {
                a + 1
            }] by {
            }
            assert forall|a: int, b: int|
                0 <= a < b < self.entries@.len() implies #[trigger] self.entries@[a].0@
                != #[trigger] self.entries@[b].0@ by {
                let a2 = if a < i { a } else { a + 1 };
                let b2 = if b < i { b } else { b + 1 };
                assert(old_c.entries@[a2].0@ != old_c.entries@[b2].0@);
            }
            assert forall|a: int| 0 <= a < self.entries@.len() implies (#[trigger] self.entries@[a]).1.wf() by {
                let a2 = if a < i { a } else { a + 1 };
                assert(old_c.entries@[a2].1.wf());
            }
            assert forall|k: Seq<char>| #[trigger] self.tables().dom().contains(k) == old_c.tables().remove(key).dom().contains(k) by {
                if self.tables().dom().contains(k) {
                    let a = choose|a: int| 0 <= a < self.entries@.len() && #[trigger] self.entries@[a].0@ == k;
                    let a2 = if a < i { a } else { a + 1 };
                    assert(old_c.entries@[a2].0@ == k);
                    assert(k != key) by {
                        if a2 < i {
                            assert(old_c.entries@[a2].0@ != old_c.entries@[i as int].0@);
                        } else {
                            assert(old_c.entries@[i as int].0@ != old_c.entries@[a2].0@);
                        }
                    }
                }
                if old_c.tables().remove(key).dom().contains(k) {
                    let a = choose|a: int| 0 <= a < old_c.entries@.len() && #[trigger] old_c.entries@[a].0@ == k;
                    assert(a != i);
                    let a1 = if a < i { a } else { a - 1 };
                    assert(self.entries@[a1].0@ == k);
                }
            }
            assert forall|k: Seq<char>| #[trigger] self.tables().dom().contains(k) implies self.tables()[k]
                == old_c.tables().remove(key)[k] by {
                let a = choose|a: int| 0 <= a < self.entries@.len() && #[trigger] self.entries@[a].0@ == k;
                self.lemma_entry(a);
                let a2 = if a < i { a } else { a + 1 };
                old_c.lemma_entry(a2);
            }
            assert(self.tables() =~= old_c.tables().remove(key));
        }
        t
    }

    /// Removes the table of that name.
    pub fn remove(&mut self, name: &str) -> (r: Result<(), CatalogError>)
        requires
            old(self).wf(),
        ensures
            final(self).wf(),
            r is Ok <==> old(self).tables().dom().contains(name@),
            r is Ok ==> final(self).tables() == old(self).tables().remove(name@),
            r is Err ==> r == Err::<(), CatalogError>(CatalogError::DoesNotExist)
                && final(self).tables() == old(self).tables(),
    {
        let i = match self.find(name) {
            Some(i) => i,
            None => {
                return Err(CatalogError::DoesNotExist);
            },
        };
        let _ = self.take_entry(i);
        Ok(())
    }

    /// Adds an empty table of that name, unless one exists.
    pub fn create(&mut self, name: &str) -> (r: Result<(), CatalogError>)
        requires
            old(self).wf(),
        ensures
            final(self).wf(),
            r is Ok <==> !old(self).tables().dom().contains(name@),
            r is Ok ==> final(self).tables() == old(self).tables().insert(
                name@,
                final(self).tables()[name@],
            ) && is_empty_table(final(self).tables()[name@]),
            r is Err ==> r == Err::<(), CatalogError>(CatalogError::AlreadyExists)
                && final(self).tables() == old(self).tables(),
    {
        if self.contains(name) {
            return Err(CatalogError::AlreadyExists);
        }
        let t = Table::new();
        self.insert(name.to_owned(), t);
        Ok(())
    }

    /// Makes sure a table of that name exists, adding an empty one if need
    /// be; tells whether it was added.
    pub fn open(&mut self, name: &str) -> (added: bool)
        requires
            old(self).wf(),
        ensures
            final(self).wf(),
            added == !old(self).tables().dom().contains(name@),
            added ==> final(self).tables() == old(self).tables().insert(
                name@,
                final(self).tables()[name@],
            ) && is_empty_table(final(self).tables()[name@]),
            !added ==> final(self).tables() == old(self).tables(),
    {
        if self.contains(name) {
            return false;
        }
        let t = Table::new();
        self.insert(name.to_owned(), t);
        true
    }

    /// Gives the table named `src` the name `dst`: the names must differ,
    /// `src` must exist and `dst` must not.
    pub fn rename(&mut self, src: &str, dst: &str) -> (r: Result<(), CatalogError>)
        requires
            old(self).wf(),
        ensures
            final(self).wf(),
            r == if src@ == dst@ {
                Err(CatalogError::SameName)
            } else if !old(self).tables().dom().contains(src@) {
                Err(CatalogError::SourceMissing)
            } else if old(self).tables().dom().contains(dst@) {
                Err(CatalogError::DestinationExists)
            } else {
                Ok(())
            },
            r is Ok ==> final(self).tables() == old(self).tables().remove(src@).insert(
                dst@,
                old(self).tables()[src@],
            ),
            r is Err ==> final(self).tables() == old(self).tables(),
    {
        if same_chars(&chars_of(src), &chars_of(dst)) {
            return Err(CatalogError::SameName);
        }
        let i = match self.find(src) {
            Some(i) => i,
            None => {
                return Err(CatalogError::SourceMissing);
            },
        };
        if self.contains(dst) {
            return Err(CatalogError::DestinationExists);
        }
        let t = self.take_entry(i);
        self.insert(dst.to_owned(), t);
        Ok(())
    }

    /// Adds a copy of the table named `src` under the name `dst`: the names
    /// must differ, `src` must exist and `dst` must not.
    pub fn copy(&mut self, src: &str, dst: &str) -> (r: Result<(), CatalogError>)
        requires
            old(self).wf(),
        ensures
            final(self).wf(),
            r == if src@ == dst@ {
                Err(CatalogError::SameName)
            } else if !old(self).tables().dom().contains(src@) {
                Err(CatalogError::SourceMissing)
            } else if old(self).tables().dom().contains(dst@) {
                Err(CatalogError::DestinationExists)
            } else {
                Ok(())
            },
            r is Ok ==> final(self).tables() == old(self).tables().insert(
                dst@,
                final(self).tables()[dst@],
            ) && same_contents(old(self).tables()[src@], final(self).tables()[dst@]),
            r is Err ==> final(self).tables() == old(self).tables(),
    {
        if same_chars(&chars_of(src), &chars_of(dst)) {
            return Err(CatalogError::SameName);
        }
        let copy = match self.get(src) {
            Some(t) => t.clone(),
            None => {
                return Err(CatalogError::SourceMissing);
            },
        };
        if self.contains(dst) {
            return Err(CatalogError::DestinationExists);
        }
        self.insert(dst.to_owned(), copy);
        Ok(())
    }
}

/// The two character lists are equal.
fn same_chars(a: &Vec<char>, b: &Vec<char>) -> (r: bool)
    ensures
        r == (a@ == b@),
{
    if a.len() != b.len() {
        return false;
    }
    let mut i: usize = 0;
    while i < a.len()
        invariant
            a.len() == b.len(),
            i <= a.len(),
            forall|j: int| 0 <= j < i ==> a@[j] == b@[j],
        decreases a.len() - i,
    {
        if a[i] != b[i] {
            assert(a@[i as int] != b@[i as int]);
            return false;
        }
        i = i + 1;
    }
    assert(a@ =~= b@);
    true
}

} // verus!
