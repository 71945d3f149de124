//! Values shared between owners on one thread.
use vstd::prelude::*;
use std::cell::RefCell;
use std::rc::Rc;

verus! {

#[verifier::external_type_specification]
#[verifier::external_body]
#[verifier::reject_recursive_types(T)]
pub struct ExRefCell<T: ?Sized>(RefCell<T>);

/// `Rc::clone`: another pointer to the same value.
#[verifier::external_body]
fn clone_rc<T>(rc: &Rc<T>) -> (r: Rc<T>)
    ensures
        r == *rc,
{
    Rc::clone(rc)
}

/// `RefCell::new`: a cell that holds `value`.
///
/// Trusted, and its contract claims nothing of the cell it returns.
#[verifier::external_body]
fn new_ref_cell<T>(value: T) -> (r: RefCell<T>) {
    RefCell::new(value)
}

/// A value shared, read only, between owners on one thread.
#[derive(Debug)]
pub struct UnparallelShared<T> {
    inner: Rc<T>,
}

impl<T> Clone for UnparallelShared<T> {
    fn clone(&self) -> (r: Self)
        ensures
            r.value() == self.value(),
    {
        UnparallelShared { inner: clone_rc(&self.inner) }
    }
}

impl<T> UnparallelShared<T> {
    /// The shared value.
    pub closed spec fn value(&self) -> T {
        *self.inner
    }

    pub fn from_inner(inner: T) -> (r: Self)
        ensures
            r.value() == inner,
    {
        UnparallelShared { inner: Rc::new(inner) }
    }

    pub fn inner(&self) -> (r: &T)
        ensures
            *r == self.value(),
    {
        &*self.inner
    }
}

/// A value shared, and changed through a cell, between owners on one thread.
#[derive(Debug)]
#[verifier::reject_recursive_types(T)]
pub struct UnparallelSharedMut<T> {
    inner: Rc<RefCell<T>>,
}

impl<T> Clone for UnparallelSharedMut<T> {
    fn clone(&self) -> (r: Self)
        ensures
            r.cell() == self.cell(),
    {
        UnparallelSharedMut { inner: clone_rc(&self.inner) }
    }
}

impl<T> UnparallelSharedMut<T> {
    /// The shared cell.
    pub closed spec fn cell(&self) -> RefCell<T> {
        *self.inner
    }

    /// Shares a new cell that holds `inner`. The contract leaves what the cell holds unsaid.
    pub fn from_inner(inner: T) -> (r: Self) {
        UnparallelSharedMut { inner: Rc::new(new_ref_cell(inner)) }
    }

    pub fn inner(&self) -> (r: &RefCell<T>)
        ensures
            *r == self.cell(),
    {
        &*self.inner
    }
}

} // verus!
