//! The wrapper that marks a value as decoded from a multipart body.

use vstd::prelude::*;

verus! {

/// A value of the target shape `T`, decoded from a `multipart/form-data` body.
///
/// Its view is the wrapped value itself.
pub struct Multipart<T>(T);

impl<T> View for Multipart<T> {
    type V = T;

    closed spec fn view(&self) -> T {
        self.0
    }
}

impl<T> Multipart<T> {
    /// Wraps `data`.
    pub fn new(data: T) -> (wrapped: Self)
        ensures
            wrapped@ == data,
    {
        Multipart::<T>(data)
    }

    /// Gives the wrapped value back.
    pub fn into_inner(self) -> (data: T)
        ensures
            data == self@,
    {
        self.0
    }
}

impl<T> core::ops::Deref for Multipart<T> {
    type Target = T;

    /// A shared reference to the wrapped value.
    fn deref(&self) -> (data: &T)
        ensures
            *data == self@,
    {
        &self.0
    }
}

impl<T> core::ops::DerefMut for Multipart<T> {
    /// A mutable reference to the wrapped value: what the caller leaves
    /// behind it is what the wrapper holds afterwards.
    fn deref_mut(&mut self) -> (data: &mut T)
        ensures
            *data == old(self)@,
            final(self)@ == *final(data),
    {
        &mut self.0
    }
}

} // verus!
