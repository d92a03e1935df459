//! A single value in a cell of its own.
use vstd::prelude::*;

verus! {

/// A storage for one value.
///
/// A reference returned by `get_ref` stays good until the next `update`, which
/// may move the value elsewhere.
pub trait SingleStorage<T> {
    /// Whether the storage holds a value that can be read.
    spec fn readable(&self) -> bool;

    /// Whether the storage is in a state from which it can be updated.
    spec fn updatable(&self) -> bool;

    /// The value that a read returns.
    spec fn stored(&self) -> T;

    /// Returns a reference to the stored value.
    fn get_ref(&self) -> (r: &T)
        requires
            self.readable(),
        ensures
            *r == self.stored(),
    ;

    /// Replaces the stored value.
    fn update(&mut self, value: &T)
        requires
            old(self).updatable(),
        ensures
            final(self).readable(),
            final(self).updatable(),
            final(self).stored() == *value,
    ;
}

/// One value in a cell of its own.
///
/// On a device the cell is a page of flash, and a write to it is a single
/// call of the platform's write primitive, which a loss of power may cut
/// short. Here the cell is ordinary memory and a write always completes; what
/// a write that was cut short leaves behind is described where it matters,
/// in the storages built on this one.
#[derive(Copy, Clone)]
pub struct AlignedStorage<T> {
    value: T,
}

impl<T> View for AlignedStorage<T> {
    type V = T;

    closed spec fn view(&self) -> T {
        self.value
    }
}

impl<T> AlignedStorage<T> {
    /// Creates a storage that holds `value`.
    pub fn new(value: T) -> (s: AlignedStorage<T>)
        ensures
            s@ == value,
    {
        AlignedStorage { value: value }
    }
}

impl<T: Copy> SingleStorage<T> for AlignedStorage<T> {
    open spec fn readable(&self) -> bool {
        true
    }

    open spec fn updatable(&self) -> bool {
        true
    }

    open spec fn stored(&self) -> T {
        self@
    }

    fn get_ref(&self) -> (r: &T) {
        &self.value
    }

    fn update(&mut self, value: &T)
        ensures
            final(self)@ == *value,
    {
        self.value = *value;
    }
}

} // verus!
