//! A value in a wrapper, shared between threads.
use vstd::prelude::*;
use std::sync::Arc;

verus! {

/// A value with a named field around it.
#[derive(Default, Debug)]
pub struct Wrapper<T> {
    pub inner: T,
}

/// A wrapped value shared, read only, between owners.
#[derive(Default, Debug)]
pub struct WrappedShared<T> {
    inner: Arc<Wrapper<T>>,
}

impl<T> WrappedShared<T> {
    /// The shared value.
    pub closed spec fn value(&self) -> T {
        self.inner.inner
    }

    pub fn from_inner(inner: T) -> (r: Self)
        ensures
            r.value() == inner,
    {
        WrappedShared { inner: Arc::new(Wrapper { inner }) }
    }

    pub fn inner(&self) -> (r: &T)
        ensures
            *r == self.value(),
    {
        &self.inner.inner
    }
}

} // verus!
