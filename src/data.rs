//! Storage strategies for shared data.
//!
//! The [`Data`] trait is the capability that string views use to reach their backing buffer: it
//! can create a handle, borrow the value, ask for exclusive access to it, and duplicate the
//! handle. Each handle is modelled by the value it gives access to ([`Data::value`]); a handle
//! that grants exclusive access is one that no other live handle can observe, so mutating
//! through it changes that handle's value alone.
use std::boxed::Box;
use std::rc::Rc;
use std::sync::Arc;
use vstd::prelude::*;

verus! {

/// Set of common operations on shared data.
///
/// Implementers give immutable access to the inner value and may give mutable access when
/// nothing else can observe it (a reference count of one, or a value that is never shared).
pub trait Data<T: Clone>: Clone + Sized {
    /// The value that this handle gives access to.
    spec fn value(&self) -> T;

    /// Create some new data.
    fn new(value: T) -> (r: Self)
        ensures
            r.value() == value,
    ;

    /// Returns an immutable reference to the shared data.
    fn get(&self) -> (r: &T)
        ensures
            *r == self.value(),
    ;

    /// Returns a mutable reference to the data when no other handle can observe it.
    ///
    /// What is written through the reference becomes this handle's value; on `None` the
    /// handle is left as it was.
    fn get_mut(&mut self) -> (r: Option<&mut T>)
        ensures
            match r {
                Some(m) => *m == old(self).value() && final(self).value() == *final(m),
                None => final(self).value() == old(self).value(),
            },
    ;

    /// Another handle on the same value: shared for reference counting strategies, a full
    /// copy (by `T::clone`) for the others.
    fn duplicate(&self) -> (r: Self)
        ensures
            cloned::<T>(self.value(), r.value()),
    ;
}

/// Relies on `Arc::get_mut`: a mutable reference is handed out only while no other `Arc`
/// points at the value, and is a reference to that value.
#[verifier::external_body]
fn arc_get_mut<T>(this: &mut Arc<T>) -> (r: Option<&mut T>)
    ensures
        match r {
            Some(m) => *m == **old(this) && **final(this) == *final(m),
            None => *final(this) == *old(this),
        },
{
    Arc::get_mut(this)
}

/// Relies on `Arc::clone`: the new `Arc` points at the same value.
#[verifier::external_body]
fn arc_clone<T>(this: &Arc<T>) -> (r: Arc<T>)
    ensures
        *r == **this,
{
    Arc::clone(this)
}

/// Relies on `Rc::get_mut`: a mutable reference is handed out only while no other `Rc`
/// points at the value, and is a reference to that value.
#[verifier::external_body]
fn rc_get_mut<T>(this: &mut Rc<T>) -> (r: Option<&mut T>)
    ensures
        match r {
            Some(m) => *m == **old(this) && **final(this) == *final(m),
            None => *final(this) == *old(this),
        },
{
    Rc::get_mut(this)
}

/// Relies on `Rc::clone`: the new `Rc` points at the same value.
#[verifier::external_body]
fn rc_clone<T>(this: &Rc<T>) -> (r: Rc<T>)
    ensures
        *r == **this,
{
    Rc::clone(this)
}

impl<T: Clone> Data<T> for Arc<T> {
    open spec fn value(&self) -> T {
        **self
    }

    fn new(value: T) -> (r: Self) {
        Arc::new(value)
    }

    fn get(&self) -> (r: &T) {
        &**self
    }

    fn get_mut(&mut self) -> (r: Option<&mut T>) {
        arc_get_mut(self)
    }

    fn duplicate(&self) -> (r: Self) {
        arc_clone(self)
    }
}

impl<T: Clone> Data<T> for Rc<T> {
    open spec fn value(&self) -> T {
        **self
    }

    fn new(value: T) -> (r: Self) {
        Rc::new(value)
    }

    fn get(&self) -> (r: &T) {
        &**self
    }

    fn get_mut(&mut self) -> (r: Option<&mut T>) {
        rc_get_mut(self)
    }

    fn duplicate(&self) -> (r: Self) {
        rc_clone(self)
    }
}

impl<T: Clone> Data<T> for Box<T> {
    open spec fn value(&self) -> T {
        **self
    }

    fn new(value: T) -> (r: Self) {
        Box::new(value)
    }

    fn get(&self) -> (r: &T) {
        &**self
    }

    fn get_mut(&mut self) -> (r: Option<&mut T>)
        ensures
            r is Some,
    {
        Some(&mut **self)
    }

    fn duplicate(&self) -> (r: Self) {
        self.clone()
    }
}

/// Container for data which is not actually shared, but is cloned.
#[derive(Clone, Debug)]
pub struct Cloned<T>(T);

impl<T: Clone> Data<T> for Cloned<T> {
    closed spec fn value(&self) -> T {
        self.0
    }

    fn new(value: T) -> (r: Self) {
        Cloned(value)
    }

    fn get(&self) -> (r: &T) {
        &self.0
    }

    fn get_mut(&mut self) -> (r: Option<&mut T>)
        ensures
            r is Some,
    {
        Some(&mut self.0)
    }

    fn duplicate(&self) -> (r: Self) {
        Cloned(self.0.clone())
    }
}

/// Duplicating a handle on a `String` gives a handle on an equal `String`.
pub proof fn lemma_duplicate_string<S: Data<String>>(a: S, b: S)
    requires
        cloned::<String>(a.value(), b.value()),
    ensures
        a.value() == b.value(),
{
}

} // verus!
