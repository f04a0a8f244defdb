use vstd::prelude::*;

verus! {

/// Grants exclusive access to the value it wraps: on a single core the
/// one mutable view at a time that a lock would provide is enforced here
/// by the borrow rules themselves, so a second concurrent view cannot
/// even be formed.
pub struct UPSafeCell<T> {
    /// The guarded value.
    pub inner: T,
}

impl<T> UPSafeCell<T> {
    /// The guarded value, for contracts.
    pub open spec fn view_inner(&self) -> T {
        self.inner
    }

    /// Wraps a value; the caller is the single core that will ever touch it.
    pub fn new(value: T) -> (r: UPSafeCell<T>)
        ensures
            r.view_inner() == value,
    {
        UPSafeCell { inner: value }
    }

    /// Takes the one live mutable view of the value.
    pub fn exclusice_access(&mut self) -> (r: &mut T)
        ensures
            *r == old(self).view_inner(),
            final(self).view_inner() == *final(r),
    {
        &mut self.inner
    }
}

} // verus!
