use vstd::prelude::*;
use vstd::std_specs::cmp::PartialEqSpec;

verus! {

/// A single cell of a grid: owns exactly one value.
///
/// In contracts a `Point<T>` is viewed as the `T` it wraps.
#[derive(Debug, Copy)]
pub struct Point<T>(pub(crate) T);

impl<T: Clone> Clone for Point<T> {
    /// The clone wraps a clone of the contained value.
    fn clone(&self) -> (r: Self)
        ensures
            cloned::<T>(self@, r@),
    {
        Point(self.0.clone())
    }
}

impl<T> View for Point<T> {
    type V = T;

    open(crate) spec fn view(&self) -> T {
        self.0
    }
}

impl<T> Point<T> {
    /// Wraps `value` in a cell.
    pub fn new(value: T) -> (r: Self)
        ensures
            r@ == value,
    {
        Point(value)
    }

    /// Consumes the cell and returns the owned value.
    pub fn unwrap(self) -> (r: T)
        ensures
            r == self@,
    {
        self.0
    }

    /// A reference to the contained value.
    pub fn value(&self) -> (r: &T)
        ensures
            *r == self@,
    {
        &self.0
    }

    /// A mutable reference to the contained value.
    pub fn value_mut(&mut self) -> (r: &mut T)
        ensures
            *r == old(self)@,
            final(self)@ == *final(r),
    {
        &mut self.0
    }
}

impl<T> From<T> for Point<T> {
    /// Wraps `value` in a cell, as [`Point::new`] does.
    fn from(value: T) -> Self {
        Point(value)
    }
}

impl<T> vstd::std_specs::convert::FromSpecImpl<T> for Point<T> {
    open spec fn obeys_from_spec() -> bool {
        true
    }

    open(crate) spec fn from_spec(v: T) -> Self {
        Point(v)
    }
}

impl<T: PartialEq> PartialEq for Point<T> {
    fn eq(&self, other: &Self) -> bool {
        self.0 == other.0
    }
}

impl<T: PartialEq> vstd::std_specs::cmp::PartialEqSpecImpl for Point<T> {
    open spec fn obeys_eq_spec() -> bool {
        T::obeys_eq_spec()
    }

    open spec fn eq_spec(&self, other: &Self) -> bool {
        self@.eq_spec(&other@)
    }
}

} // verus!
