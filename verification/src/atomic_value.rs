//! Cells that hold a reference-counted value and swap it for another.
//!
//! A cell has one owner at a time: reading takes a shared borrow, replacing takes an exclusive
//! one. Tasks that share a cell put it behind a lock.

use std::sync::Arc;
use vstd::prelude::*;

verus! {

/// A cell that may hold a value.
pub struct AtomicValue<T> {
    p: Option<Arc<T>>,
}

impl<T> View for AtomicValue<T> {
    type V = Option<T>;

    closed spec fn view(&self) -> Option<T> {
        match self.p {
            Some(v) => Some(*v),
            None => None,
        }
    }
}

impl<T> AtomicValue<T> {
    /// A cell that holds `val`.
    pub fn new(val: T) -> (cell: Self)
        ensures
            cell@ == Some(val),
    {
        AtomicValue { p: Some(Arc::new(val)) }
    }

    /// The value held at the moment, if any.
    pub fn load(&self) -> (res: Option<Arc<T>>)
        ensures
            match res {
                Some(v) => self@ == Some(*v),
                None => self@ is None,
            },
    {
        match &self.p {
            Some(v) => Some(v.clone()),
            None => None,
        }
    }

    /// Replaces whatever the cell holds by `val`.
    pub fn store(&mut self, val: T)
        ensures
            final(self)@ == Some(val),
    {
        self.p = Some(Arc::new(val));
    }
}

/// A cell that always holds a value.
pub struct AtomicValueUnchecked<T> {
    value: Arc<T>,
}

impl<T> View for AtomicValueUnchecked<T> {
    type V = T;

    closed spec fn view(&self) -> T {
        *self.value
    }
}

impl<T> AtomicValueUnchecked<T> {
    /// A cell that holds `val`.
    pub fn new(val: T) -> (cell: Self)
        ensures
            cell@ == val,
    {
        AtomicValueUnchecked { value: Arc::new(val) }
    }

    /// The value held at the moment. A later `store` leaves the returned value as it is.
    pub fn load(&self) -> (res: Arc<T>)
        ensures
            *res == self@,
    {
        self.value.clone()
    }

    /// Replaces the value by `val`.
    pub fn store(&mut self, val: T)
        ensures
            final(self)@ == val,
    {
        self.value = Arc::new(val);
    }
}

/// Where a [`Value`] points: nowhere, to the mark of an expunged entry, or to a value.
pub enum Pointer<V> {
    Null,
    Expunged,
    To(Arc<V>),
}

/// The pointer cell of a map entry.
pub struct Value<V> {
    pub ptr: Pointer<V>,
}

impl<V> Value<V> {
    /// A cell that points to `val`.
    pub fn new(val: V) -> (cell: Self)
        ensures
            cell.ptr == Pointer::To(Arc::new(val)),
    {
        Value { ptr: Pointer::To(Arc::new(val)) }
    }

    /// A cell that points where `ptr` does.
    pub fn from_ptr(ptr: Pointer<V>) -> (cell: Self)
        ensures
            cell.ptr == ptr,
    {
        Value { ptr }
    }
}

} // verus!
