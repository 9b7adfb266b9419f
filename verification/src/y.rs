use crate::point::Point;
use crate::x::is_default;
use crate::Asymetrical;
use crate::Mode;
use crate::Symetrical;
use vstd::prelude::*;
use vstd::std_specs::cmp::PartialEqSpec;

verus! {

/// A row of a grid: an ordered sequence of cells, tagged with the grid's
/// shape discipline. The tag only selects which operations exist; the
/// storage is the same under either discipline.
///
/// In contracts a `Y<T, M>` is viewed as the `Seq<T>` of its cell values.
#[derive(Debug)]
pub struct Y<T, M: Mode>(pub(crate) Vec<Point<T>>, pub(crate) core::marker::PhantomData<M>);

impl<T: Clone, M: Mode> Clone for Y<T, M> {
    /// The clone has the same length, each cell holding a clone of the
    /// original cell's value.
    fn clone(&self) -> (r: Self)
        ensures
            r@.len() == self@.len(),
            forall|i: int| 0 <= i < self@.len() ==> cloned::<T>(self@[i], #[trigger] r@[i]),
    {
        let r = Y(self.0.clone(), core::marker::PhantomData);
        proof {
            assert forall|i: int| 0 <= i < self@.len() implies cloned::<T>(
                self@[i],
                #[trigger] r@[i],
            ) by {
                assert(cloned::<Point<T>>(self.0@[i], r.0@[i]));
            }
        }
        r
    }
}

impl<T, M: Mode> View for Y<T, M> {
    type V = Seq<T>;

    open(crate) spec fn view(&self) -> Seq<T> {
        self.0@.map(|i: int, p: Point<T>| p@)
    }
}

impl<T, M: Mode> Y<T, M> {
    /// An empty row.
    pub fn new() -> (r: Self)
        ensures
            r@ == Seq::<T>::empty(),
    {
        let r = Y(Vec::new(), core::marker::PhantomData);
        proof {
            assert(r@ =~= Seq::<T>::empty());
        }
        r
    }

    /// The number of cells in the row.
    pub fn len(&self) -> (n: usize)
        ensures
            n == self@.len(),
    {
        self.0.len()
    }

    /// Appends one cell holding `value` at the end of the row.
    pub fn push(&mut self, value: T)
        ensures
            final(self)@ == old(self)@.push(value),
    {
        self.0.push(Point(value));
        proof {
            assert(self@ =~= old(self)@.push(value));
        }
    }

    /// Removes and returns the last cell's value, or `None` if the row is
    /// empty.
    pub fn pop(&mut self) -> (r: Option<T>)
        ensures
            old(self)@.len() == 0 ==> r is None && final(self)@ == old(self)@,
            old(self)@.len() > 0 ==> r == Some(old(self)@.last()) && final(self)@ == old(self)@.drop_last(),
    {
        let r = self.0.pop();
        proof {
            if old(self)@.len() > 0 {
                assert(self@ =~= old(self)@.drop_last());
            }
        }
        match r {
            Some(p) => Some(p.0),
            None => None,
        }
    }

    /// A reference to the value of cell `i`, or `None` if `i` is out of
    /// bounds.
    pub fn get(&self, i: usize) -> (r: Option<&T>)
        ensures
            i < self@.len() ==> r == Some(&self@[i as int]),
            i >= self@.len() ==> r is None,
    {
        if i < self.0.len() {
            Some(&self.0[i].0)
        } else {
            None
        }
    }

    /// A mutable reference to the value of cell `i`, or `None` if `i` is out
    /// of bounds.
    pub fn get_mut(&mut self, i: usize) -> (r: Option<&mut T>)
        ensures
            i >= old(self)@.len() ==> r is None && final(self)@ == old(self)@,
            i < old(self)@.len() ==> r is Some && *r.unwrap() == old(self)@[i as int]
                && final(self)@ == old(self)@.update(i as int, *final(r.unwrap())),
    {
        if i < self.0.len() {
            let p = &mut self.0[i];
            Some(&mut p.0)
        } else {
            proof {
                assert(final(self)@ =~= old(self)@);
            }
            None
        }
    }

    /// Overwrites the value of cell `i` with `value`.
    pub(crate) fn set(&mut self, i: usize, value: T)
        requires
            i < old(self)@.len(),
        ensures
            final(self)@ == old(self)@.update(i as int, value),
    {
        let p = &mut self.0[i];
        *p = Point(value);
        proof {
            assert(self@ =~= old(self)@.update(i as int, value));
        }
    }

    /// An empty row whose storage has room for `capacity` cells.
    pub fn with_capacity(capacity: usize) -> (r: Self)
        ensures
            r@ == Seq::<T>::empty(),
    {
        let r = Y(Vec::with_capacity(capacity), core::marker::PhantomData);
        proof {
            assert(r@ =~= Seq::<T>::empty());
        }
        r
    }
}

impl<T: Clone, M: Mode> Y<T, M> {
    /// Resizes the row in place so that its length equals `new_len` exactly:
    /// shrinks by truncating from the end, or grows by appending cells that
    /// each hold a clone of `value`.
    pub fn resize(&mut self, new_len: usize, value: T)
        ensures
            new_len <= old(self)@.len() ==> final(self)@ == old(self)@.subrange(0, new_len as int),
            new_len > old(self)@.len() ==> {
                &&& final(self)@.len() == new_len
                &&& final(self)@.subrange(0, old(self)@.len() as int) == old(self)@
                &&& forall|i: int|
                    old(self)@.len() <= i < new_len ==> cloned::<T>(value, #[trigger] final(self)@[i])
            },
    {
        if new_len <= self.0.len() {
            self.0.truncate(new_len);
            proof {
                assert(self@ =~= old(self)@.subrange(0, new_len as int));
            }
        } else {
            while self.0.len() < new_len
                invariant
                    old(self)@.len() < new_len,
                    old(self)@.len() <= self@.len() <= new_len,
                    self@.subrange(0, old(self)@.len() as int) =~= old(self)@,
                    forall|i: int|
                        old(self)@.len() <= i < self@.len() ==> cloned::<T>(
                            value,
                            #[trigger] self@[i],
                        ),
                decreases new_len - self@.len(),
            {
                let ghost prev = self@;
                let c = value.clone();
                self.0.push(Point(c));
                proof {
                    assert(self@ =~= prev.push(c));
                }
            }
            proof {
                assert(final(self)@.subrange(0, old(self)@.len() as int) =~= old(self)@);
            }
        }
    }
}

impl<T> Y<T, Symetrical> {
    /// Relabels a symetrical row as jagged. The cells are unchanged; only
    /// the discipline tag differs.
    pub fn to_jagged(self) -> (r: Y<T, Asymetrical>)
        ensures
            r@ == self@,
    {
        Y(self.0, core::marker::PhantomData)
    }
}

impl<T: core::default::Default> Y<T, Asymetrical> {
    /// Pads the row on the right with default-valued cells until its length
    /// is exactly `len`, then relabels it as symetrical. No cell is dropped.
    pub(crate) fn pad_to(self, len: usize) -> (r: Y<T, Symetrical>)
        requires
            self@.len() <= len,
        ensures
            r@.len() == len,
            forall|j: int| 0 <= j < self@.len() ==> r@[j] == self@[j],
            forall|j: int| self@.len() <= j < len ==> is_default(#[trigger] r@[j]),
    {
        let ghost orig = self@;
        let mut cells = self.0;
        while cells.len() < len
            invariant
                orig.len() <= cells@.len() <= len,
                forall|j: int| 0 <= j < orig.len() ==> cells@[j]@ == orig[j],
                forall|j: int| orig.len() <= j < cells@.len() ==> is_default(#[trigger] cells@[j]@),
            decreases len - cells@.len(),
        {
            cells.push(Point(T::default()));
        }
        let r = Y(cells, core::marker::PhantomData);
        r
    }
}

impl<T> Y<T, Asymetrical> {
    /// Relabels a jagged row as symetrical. The cells are unchanged; only
    /// the discipline tag differs: a row carries no length invariant of its
    /// own, all invariant enforcement happens at the grid level.
    pub fn to_rectangular(self) -> (r: Y<T, Symetrical>)
        ensures
            r@ == self@,
    {
        Y(self.0, core::marker::PhantomData)
    }
}

impl<T: Copy, M: Mode> Y<T, M> {
    /// A row holding the values of `v`, in order.
    pub fn from_slice(v: &[T]) -> (r: Self)
        ensures
            r@ == v@,
    {
        let mut cells: Vec<Point<T>> = Vec::new();
        let mut i: usize = 0;
        while i < v.len()
            invariant
                i <= v@.len(),
                cells@.len() == i,
                forall|k: int| 0 <= k < i ==> cells@[k]@ == v@[k],
            decreases v@.len() - i,
        {
            cells.push(Point(v[i]));
            i += 1;
        }
        let r = Y(cells, core::marker::PhantomData);
        proof {
            assert(r@ =~= v@);
        }
        r
    }
}

impl<T, M: Mode> Default for Y<T, M> {
    /// The default row is empty, as [`Y::new`] returns.
    fn default() -> (r: Self)
        ensures
            r@ == Seq::<T>::empty(),
    {
        Y::new()
    }
}

impl<T: PartialEq, M: Mode> PartialEq for Y<T, M> {
    /// Two rows are equal when they have equal length and elementwise-equal
    /// cells.
    fn eq(&self, other: &Self) -> (r: bool) {
        let r = self.0 == other.0;
        proof {
            if T::obeys_eq_spec() {
                assert(self.0@.len() == self@.len());
                assert(other.0@.len() == other@.len());
                if self.0@.len() == other.0@.len() {
                    assert forall|i: int| 0 <= i < self@.len() implies (self.0@[i].eq_spec(
                        &other.0@[i],
                    ) == PartialEqSpec::eq_spec(&self@[i], &other@[i])) by {
                        assert(self.0@[i]@ == self@[i]);
                        assert(other.0@[i]@ == other@[i]);
                    }
                }
            }
        }
        r
    }
}

impl<T: PartialEq, M: Mode> vstd::std_specs::cmp::PartialEqSpecImpl for Y<T, M> {
    open spec fn obeys_eq_spec() -> bool {
        T::obeys_eq_spec()
    }

    open spec fn eq_spec(&self, other: &Self) -> bool {
        self@.len() == other@.len() && (forall|i: int|
            0 <= i < self@.len() ==> PartialEqSpec::eq_spec(&self@[i], &other@[i]))
    }
}

impl<T: Copy> From<&[T]> for Y<T, Asymetrical> {
    /// Builds a jagged row from a slice; the verified logic stands in
    /// [`Y::from_slice`].
    fn from(v: &[T]) -> Self {
        Self::from_slice(v)
    }
}

impl<T: Copy> vstd::std_specs::convert::FromSpecImpl<&[T]> for Y<T, Asymetrical> {
    open spec fn obeys_from_spec() -> bool {
        false
    }

    open spec fn from_spec(v: &[T]) -> Self {
        arbitrary()
    }
}

} // verus!
