//! Storage of values of type `T`, indexed by an id.
use vstd::prelude::*;

verus! {

/// A store of values of type `T`, read through references of type
/// `Ref<'a>` that the implementor picks.
pub trait Storage<T> {
    type Id: 'static;

    type Ref<'a> where Self: 'a;

    /// The value with the given id, if there is one.
    fn get<'a>(&'a self, id: Self::Id) -> Option<Self::Ref<'a>>;
}

/// A store that can also be written.
pub trait StorageMut<T>: Storage<T> {
    type RefMut<'a> where Self: 'a;

    /// The value with the given id, mutably, if there is one.
    fn get_mut<'a>(&'a mut self, id: Self::Id) -> Option<Self::RefMut<'a>>;

    /// Replaces the value in a slot, returning the old one.
    fn put(&mut self, id: Self::Id, val: impl Into<T>) -> Option<T>;

    /// Takes the value out of a slot, leaving it empty.
    fn take(&mut self, id: Self::Id) -> Option<T>;
}

} // verus!
