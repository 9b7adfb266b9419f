use crate::y::Y;
use crate::Asymetrical;
use crate::Mode;
use crate::Symetrical;
use vstd::prelude::*;
use vstd::std_specs::cmp::PartialEqSpec;

verus! {

/// Holds when every pair of rows has equal length: the invariant of a
/// symetrical grid. An empty grid satisfies it trivially.
pub open spec fn rect<T>(rows: Seq<Seq<T>>) -> bool {
    forall|i: int, j: int|
        0 <= i < rows.len() && 0 <= j < rows.len() ==> rows[i].len() == rows[j].len()
}

/// The column count of a grid: the length of its first row, or 0 when the
/// grid has no rows.
pub open spec fn grid_cols<T>(rows: Seq<Seq<T>>) -> nat {
    if rows.len() == 0 {
        0
    } else {
        rows[0].len()
    }
}

/// Holds when `v` is a value that `T::default()` can return.
pub open spec fn is_default<T: core::default::Default>(v: T) -> bool {
    call_ensures(T::default, (), v)
}

/// The row count of a symetrical grid after growing to include row `x`:
/// growth first makes sure at least one row exists, then adds rows until row
/// `x` does, and never adds more than the requested index needs.
pub open spec fn grown_rows<T>(rows: Seq<Seq<T>>, x: int) -> int {
    let r0 = if rows.len() == 0 {
        1int
    } else {
        rows.len() as int
    };
    if r0 >= x + 1 {
        r0
    } else {
        x + 1
    }
}

/// The column count of a symetrical grid after growing to include column
/// `y`: columns are added until column `y` exists, and never more than the
/// requested index needs.
pub open spec fn grown_cols<T>(rows: Seq<Seq<T>>, y: int) -> int {
    if grid_cols(rows) >= y + 1 {
        grid_cols(rows) as int
    } else {
        y + 1
    }
}

/// The first cell position at or after row `row`, column `col` in row-major
/// order, skipping past the ends of rows, or `None` when no cell at or after
/// that position exists.
pub open spec fn next_cell<T>(rows: Seq<Seq<T>>, row: int, col: int) -> Option<(int, int)>
    decreases rows.len() - row,
{
    if row < 0 || row >= rows.len() {
        None
    } else if 0 <= col < rows[row].len() {
        Some((row, col))
    } else {
        next_cell(rows, row + 1, 0)
    }
}

/// The greatest row length in a grid; 0 when the grid has no rows.
pub open spec fn max_row_len<T>(rows: Seq<Seq<T>>) -> nat
    decreases rows.len(),
{
    if rows.len() == 0 {
        0
    } else if rows.last().len() >= max_row_len(rows.drop_last()) {
        rows.last().len()
    } else {
        max_row_len(rows.drop_last())
    }
}

/// No row is longer than the grid's greatest row length.
pub proof fn lemma_max_row_len_bound<T>(rows: Seq<Seq<T>>, i: int)
    requires
        0 <= i < rows.len(),
    ensures
        rows[i].len() <= max_row_len(rows),
    decreases rows.len(),
{
    if i < rows.len() - 1 {
        lemma_max_row_len_bound(rows.drop_last(), i);
    }
}

/// In a grid whose rows all share one length, the greatest row length is the
/// column count.
pub proof fn lemma_max_row_len_rect<T>(rows: Seq<Seq<T>>)
    requires
        rect(rows),
    ensures
        max_row_len(rows) == grid_cols(rows),
    decreases rows.len(),
{
    if rows.len() > 0 {
        assert(rect(rows.drop_last()));
        lemma_max_row_len_rect(rows.drop_last());
        if rows.len() > 1 {
            assert(grid_cols(rows.drop_last()) == grid_cols(rows));
        }
    }
}

/// Writing one cell's value never changes any row's length, so the
/// rectangular invariant survives it: this is how the invariant outlives
/// writes through `X::get_point_mut` and `IterMut::next`.
pub proof fn lemma_rect_survives_update<T>(rows: Seq<Seq<T>>, x: int, y: int, v: T)
    requires
        rect(rows),
        0 <= x < rows.len(),
        0 <= y < rows[x].len(),
    ensures
        rect(rows.update(x, rows[x].update(y, v))),
{
}

/// The total number of cells in a grid: the sum of its row lengths.
pub open spec fn sum_row_lens<T>(rows: Seq<Seq<T>>) -> nat
    decreases rows.len(),
{
    if rows.len() == 0 {
        0
    } else {
        rows.first().len() + sum_row_lens(rows.drop_first())
    }
}

/// Row-major traversal visits every cell exactly once: the flattened grid
/// holds exactly the sum of the row lengths.
pub proof fn lemma_flatten_count<T>(rows: Seq<Seq<T>>)
    ensures
        rows.flatten().len() == sum_row_lens(rows),
    decreases rows.len(),
{
    if rows.len() > 0 {
        lemma_flatten_count(rows.drop_first());
    }
}

/// Flattening the rows from row `k` on yields row `k`'s cells followed by
/// the cells of the rows after it.
pub proof fn lemma_flatten_skip_step<T>(rows: Seq<Seq<T>>, k: int)
    requires
        0 <= k < rows.len(),
    ensures
        rows.skip(k).flatten() == rows[k] + rows.skip(k + 1).flatten(),
{
    assert(rows.skip(k).first() == rows[k]);
    assert(rows.skip(k).drop_first() =~= rows.skip(k + 1));
}

/// A two-dimensional data structure: an ordered sequence of rows, tagged
/// with a shape discipline. Operations that exist only under one discipline
/// stand on `X<T, Symetrical>` or `X<T, Asymetrical>` alone, so a call under
/// the wrong discipline does not compile.
///
/// In contracts an `X<T, M>` is viewed as a `Seq<Seq<T>>` of its cell
/// values, row by row.
#[derive(Debug)]
pub struct X<T, M: Mode>(pub(crate) Vec<Y<T, M>>);

impl<T: Clone, M: Mode> Clone for X<T, M> {
    /// The clone has the same shape, each cell holding a clone of the
    /// original cell's value.
    fn clone(&self) -> (r: Self)
        ensures
            r@.len() == self@.len(),
            forall|i: int| 0 <= i < self@.len() ==> #[trigger] r@[i].len() == self@[i].len(),
            forall|i: int, j: int|
                0 <= i < self@.len() && 0 <= j < self@[i].len() ==> cloned::<T>(
                    self@[i][j],
                    #[trigger] r@[i][j],
                ),
    {
        let r = X(self.0.clone());
        proof {
            assert forall|i: int| 0 <= i < self@.len() implies #[trigger] r@[i].len()
                == self@[i].len() && (forall|j: int|
                0 <= j < self@[i].len() ==> cloned::<T>(self@[i][j], #[trigger] r@[i][j])) by {
                assert(cloned::<Y<T, M>>(self.0@[i], r.0@[i]));
                assert(self.0@[i]@ == self@[i]);
                assert(r.0@[i]@ == r@[i]);
            }
        }
        r
    }
}

impl<T, M: Mode> View for X<T, M> {
    type V = Seq<Seq<T>>;

    open(crate) spec fn view(&self) -> Seq<Seq<T>> {
        self.0@.map(|i: int, row: Y<T, M>| row@)
    }
}

impl<T, M: Mode> X<T, M> {
    /// An empty grid: zero rows.
    pub fn new() -> (r: Self)
        ensures
            r@ == Seq::<Seq<T>>::empty(),
    {
        let r = X(Vec::new());
        proof {
            assert(r@ =~= Seq::<Seq<T>>::empty());
        }
        r
    }

    /// The number of rows in the grid.
    pub fn len(&self) -> (n: usize)
        ensures
            n == self@.len(),
    {
        self.0.len()
    }

    /// A reference to row `x`.
    pub fn row(&self, x: usize) -> (r: &Y<T, M>)
        requires
            x < self@.len(),
        ensures
            r@ == self@[x as int],
    {
        &self.0[x]
    }

    /// A reference to the value at `(x, y)`, or `None` when either index is
    /// out of bounds. Never grows the grid.
    pub fn get_point(&self, x: usize, y: usize) -> (r: Option<&T>)
        ensures
            x < self@.len() && y < self@[x as int].len() ==> r == Some(&self@[x as int][y as int]),
            !(x < self@.len() && y < self@[x as int].len()) ==> r is None,
    {
        if x >= self.0.len() {
            return None;
        }
        if y >= self.0[x].0.len() {
            return None;
        }
        Some(&self.0[x].0[y].0)
    }

    /// A mutable reference to the value at `(x, y)`, or `None` when either
    /// index is out of bounds. Never grows the grid; writing through the
    /// reference changes that one cell and nothing else.
    pub fn get_point_mut(&mut self, x: usize, y: usize) -> (r: Option<&mut T>)
        ensures
            !(x < old(self)@.len() && y < old(self)@[x as int].len()) ==> r is None
                && final(self)@ == old(self)@,
            x < old(self)@.len() && y < old(self)@[x as int].len() ==> r is Some && *r.unwrap()
                == old(self)@[x as int][y as int] && final(self)@ =~~= old(self)@.update(
                x as int,
                old(self)@[x as int].update(y as int, *final(r.unwrap())),
            ),
    {
        if x >= self.0.len() {
            proof {
                assert(final(self)@ =~= old(self)@);
            }
            return None;
        }
        if y >= self.0[x].0.len() {
            proof {
                assert(final(self)@ =~= old(self)@);
            }
            return None;
        }
        let row = &mut self.0[x];
        let p = &mut row.0[y];
        Some(&mut p.0)
    }

    /// An iterator over every cell's value, row-major: row 0's cells left to
    /// right, then row 1's, and so on. It yields exactly the values of
    /// `self@.flatten()`, in order.
    pub fn iter<'a>(&'a self) -> (r: Iter<'a, T, M>)
        ensures
            r.remaining() == self@.flatten(),
    {
        let r = Iter { grid: self, row: 0, col: 0 };
        proof {
            if self@.len() > 0 {
                lemma_flatten_skip_step(self@, 0);
                assert(self@.skip(0) =~= self@);
                assert(self@[0].skip(0) =~= self@[0]);
                assert(r.remaining() == self@.skip(0).flatten());
            }
        }
        r
    }

    /// A cursor for visiting every cell mutably, row-major, starting at the
    /// first cell. Each [`IterMut::next`] call takes the grid, so no row can
    /// be added or removed between two yielded cells without the cursor
    /// seeing the new shape.
    pub fn iter_mut(&mut self) -> (r: IterMut)
        ensures
            final(self)@ == old(self)@,
            r.pos() == (0int, 0int),
    {
        IterMut { row: 0, col: 0 }
    }

    /// An empty grid whose storage has room for `capacity` rows.
    pub fn with_capacity(capacity: usize) -> (r: Self)
        ensures
            r@ == Seq::<Seq<T>>::empty(),
    {
        let r = X(Vec::with_capacity(capacity));
        proof {
            assert(r@ =~= Seq::<Seq<T>>::empty());
        }
        r
    }
}

impl<T: core::default::Default> X<T, Symetrical> {
    /// Appends a new row and fills it with default-valued cells up to the
    /// grid's current column count, so that every row keeps one common
    /// length.
    pub fn add_row(&mut self)
        requires
            rect(old(self)@),
        ensures
            final(self)@.len() == old(self)@.len() + 1,
            forall|i: int| 0 <= i < old(self)@.len() ==> final(self)@[i] == old(self)@[i],
            final(self)@.last().len() == grid_cols(old(self)@),
            forall|j: int|
                0 <= j < grid_cols(old(self)@) ==> is_default(#[trigger] final(self)@.last()[j]),
            rect(final(self)@),
    {
        let cols = if self.0.len() == 0 {
            0
        } else {
            self.0[0].len()
        };
        let mut row: Y<T, Symetrical> = Y::new();
        let mut j: usize = 0;
        while j < cols
            invariant
                row@.len() == j,
                j <= cols,
                forall|k: int| 0 <= k < j ==> is_default(#[trigger] row@[k]),
            decreases cols - j,
        {
            row.push(T::default());
            j += 1;
        }
        let ghost newrow = row@;
        self.0.push(row);
        proof {
            assert(self@ =~= old(self)@.push(newrow));
        }
    }

    /// Appends one default-valued cell to every row, creating a first, empty
    /// row beforehand when the grid has none. Every row's length grows by
    /// exactly 1, so the common column count grows by exactly 1.
    pub fn add_column(&mut self)
        requires
            rect(old(self)@),
        ensures
            final(self)@.len() == if old(self)@.len() == 0 {
                1int
            } else {
                old(self)@.len() as int
            },
            forall|i: int|
                0 <= i < final(self)@.len() ==> #[trigger] final(self)@[i].len() == grid_cols(
                    old(self)@,
                ) + 1,
            forall|i: int, j: int|
                0 <= i < old(self)@.len() && 0 <= j < old(self)@[i].len() ==> final(self)@[i][j]
                    == old(self)@[i][j],
            forall|i: int|
                0 <= i < final(self)@.len() ==> is_default(#[trigger] final(self)@[i].last()),
            rect(final(self)@),
    {
        if self.0.len() == 0 {
            self.0.push(Y::new());
            proof {
                assert(self@ =~= old(self)@.push(Seq::<T>::empty()));
            }
        }
        let ghost rows0 = self@;
        let n = self.0.len();
        let mut i: usize = 0;
        while i < n
            invariant
                rect(rows0),
                n == self@.len(),
                self@.len() == rows0.len(),
                i <= n,
                forall|k: int| i <= k < n ==> #[trigger] self@[k] == rows0[k],
                forall|k: int|
                    0 <= k < i ==> #[trigger] self@[k].len() == rows0[k].len() + 1,
                forall|k: int, l: int|
                    0 <= k < i && 0 <= l < rows0[k].len() ==> self@[k][l] == rows0[k][l],
                forall|k: int| 0 <= k < i ==> is_default(#[trigger] self@[k].last()),
            decreases n - i,
        {
            let ghost prev = self@;
            let d = T::default();
            let row = &mut self.0[i];
            row.push(d);
            proof {
                assert(self@ =~= prev.update(i as int, prev[i as int].push(d)));
            }
            i += 1;
        }
    }

    /// Places `value` at `(x, y)`, first growing the grid by exactly the
    /// rows and columns needed so that the point exists: new cells other
    /// than `(x, y)` are default-valued, and rows stay at one common length
    /// throughout.
    pub fn push_point(&mut self, x: usize, y: usize, value: T)
        requires
            rect(old(self)@),
            x < usize::MAX,
            y < usize::MAX,
        ensures
            final(self)@.len() == grown_rows(old(self)@, x as int),
            rect(final(self)@),
            forall|i: int|
                0 <= i < final(self)@.len() ==> #[trigger] final(self)@[i].len() == grown_cols(
                    old(self)@,
                    y as int,
                ),
            final(self)@[x as int][y as int] == value,
            forall|i: int, j: int|
                0 <= i < old(self)@.len() && 0 <= j < old(self)@[i].len() && !(i == x && j == y)
                    ==> final(self)@[i][j] == old(self)@[i][j],
            forall|i: int, j: int|
                0 <= i < final(self)@.len() && 0 <= j < final(self)@[i].len() && !(0 <= i < old(
                    self,
                )@.len() && 0 <= j < grid_cols(old(self)@)) && !(i == x && j == y) ==> is_default(
                    #[trigger] final(self)@[i][j],
                ),
    {
        if self.0.len() == 0 {
            self.0.push(Y::new());
            proof {
                assert(self@ =~= old(self)@.push(Seq::<T>::empty()));
            }
        }
        let ghost rows0 = self@;
        let mut cols = self.0[0].len();
        while cols <= y
            invariant
                rect(self@),
                rect(rows0),
                y < usize::MAX,
                self@.len() == rows0.len(),
                rows0.len() >= 1,
                cols == grid_cols(self@),
                grid_cols(rows0) <= cols,
                grid_cols(rows0) <= y ==> cols <= y + 1,
                grid_cols(rows0) > y ==> cols == grid_cols(rows0),
                forall|i: int, j: int|
                    0 <= i < rows0.len() && 0 <= j < rows0[i].len() ==> self@[i][j] == rows0[i][j],
                forall|i: int, j: int|
                    0 <= i < rows0.len() && rows0[i].len() <= j < cols ==> is_default(
                        #[trigger] self@[i][j],
                    ),
            decreases y + 1 - cols,
        {
            let ghost prev = self@;
            self.add_column();
            proof {
                assert forall|i: int, j: int|
                    0 <= i < rows0.len() && 0 <= j < rows0[i].len() implies self@[i][j] == rows0[i][j] by {
                    assert(rows0[i].len() == grid_cols(rows0));
                    assert(prev[i].len() == grid_cols(prev));
                    assert(self@[i][j] == prev[i][j]);
                }
                assert forall|i: int, j: int|
                    0 <= i < rows0.len() && rows0[i].len() <= j < cols + 1 implies is_default(
                    #[trigger] self@[i][j],
                ) by {
                    assert(prev[i].len() == grid_cols(prev));
                    if j < cols {
                        assert(self@[i][j] == prev[i][j]);
                    } else {
                        assert(self@[i].len() == cols + 1);
                        assert(self@[i][j] == self@[i].last());
                    }
                }
            }
            cols = cols + 1;
        }
        let ghost rows1 = self@;
        let mut len = self.0.len();
        while len <= x
            invariant
                rect(self@),
                x < usize::MAX,
                cols == grid_cols(self@),
                len == self@.len(),
                rows1.len() <= len,
                rows1.len() >= 1,
                rows1.len() <= x ==> len <= x + 1,
                rows1.len() > x ==> len == rows1.len(),
                forall|i: int| 0 <= i < rows1.len() ==> #[trigger] self@[i] == rows1[i],
                forall|i: int|
                    rows1.len() <= i < len ==> #[trigger] self@[i].len() == cols,
                forall|i: int, j: int|
                    rows1.len() <= i < len && 0 <= j < cols ==> is_default(#[trigger] self@[i][j]),
            decreases x + 1 - len,
        {
            self.add_row();
            len = len + 1;
        }
        let ghost rows2 = self@;
        proof {
            assert(rows2[x as int].len() == grid_cols(rows2));
        }
        let row = &mut self.0[x];
        row.set(y, value);
        proof {
            assert(self@ =~= rows2.update(x as int, rows2[x as int].update(y as int, value)));
        }
    }

    /// A grid of exactly `x` rows and `y` columns, every cell holding a
    /// default value.
    pub fn with_size(x: usize, y: usize) -> (r: Self)
        ensures
            r@.len() == x,
            forall|i: int| 0 <= i < x ==> #[trigger] r@[i].len() == y,
            forall|i: int, j: int| 0 <= i < x && 0 <= j < y ==> is_default(#[trigger] r@[i][j]),
            rect(r@),
    {
        let mut rows: Vec<Y<T, Symetrical>> = Vec::with_capacity(x);
        let mut i: usize = 0;
        while i < x
            invariant
                rows@.len() == i,
                i <= x,
                forall|k: int| 0 <= k < i ==> #[trigger] rows@[k]@.len() == y,
                forall|k: int, l: int|
                    0 <= k < i && 0 <= l < y ==> is_default(#[trigger] rows@[k]@[l]),
            decreases x - i,
        {
            let mut row: Y<T, Symetrical> = Y::with_capacity(y);
            let mut j: usize = 0;
            while j < y
                invariant
                    row@.len() == j,
                    j <= y,
                    forall|l: int| 0 <= l < j ==> is_default(#[trigger] row@[l]),
                decreases y - j,
            {
                row.push(T::default());
                j += 1;
            }
            rows.push(row);
            i += 1;
        }
        let r = X(rows);
        proof {
            assert(r@.len() == x);
        }
        r
    }
}

impl<T> X<T, Symetrical> {
    /// Relabels a symetrical grid as jagged: the identity conversion. A grid
    /// whose rows share one length is already a valid jagged grid, so the
    /// rows are unchanged.
    pub fn to_jagged(self) -> (r: X<T, Asymetrical>)
        ensures
            r@ == self@,
    {
        let ghost orig = self@;
        let mut src = self.0;
        let mut flipped: Vec<Y<T, Asymetrical>> = Vec::new();
        while src.len() > 0
            invariant
                flipped@.len() + src@.len() == orig.len(),
                forall|k: int| 0 <= k < src@.len() ==> #[trigger] src@[k]@ == orig[k],
                forall|k: int|
                    0 <= k < flipped@.len() ==> #[trigger] flipped@[k]@ == orig[orig.len() - 1 - k],
            decreases src@.len(),
        {
            let row = src.pop().unwrap();
            flipped.push(row.to_jagged());
        }
        let mut out: Vec<Y<T, Asymetrical>> = Vec::new();
        while flipped.len() > 0
            invariant
                out@.len() + flipped@.len() == orig.len(),
                forall|k: int|
                    0 <= k < flipped@.len() ==> #[trigger] flipped@[k]@ == orig[orig.len() - 1 - k],
                forall|k: int| 0 <= k < out@.len() ==> #[trigger] out@[k]@ == orig[k],
            decreases flipped@.len(),
        {
            let row = flipped.pop().unwrap();
            out.push(row);
        }
        let r = X(out);
        proof {
            assert(r@ =~= orig);
        }
        r
    }
}

impl<T> X<T, Asymetrical> {
    /// Appends one empty row at the end of the grid. No resizing is
    /// performed: the new row has zero cells.
    pub fn add_row_no_resize(&mut self)
        ensures
            final(self)@ == old(self)@.push(Seq::<T>::empty()),
    {
        self.0.push(Y::new());
        proof {
            assert(self@ =~= old(self)@.push(Seq::<T>::empty()));
        }
    }

    /// Removes and returns the last row, or `None` if the grid has no rows.
    pub fn pop_row(&mut self) -> (r: Option<Y<T, Asymetrical>>)
        ensures
            old(self)@.len() == 0 ==> r is None && final(self)@ == old(self)@,
            old(self)@.len() > 0 ==> r is Some && r.unwrap()@ == old(self)@.last()
                && final(self)@ == old(self)@.drop_last(),
    {
        let r = self.0.pop();
        proof {
            if old(self)@.len() > 0 {
                assert(self@ =~= old(self)@.drop_last());
            }
        }
        r
    }

    /// Appends a fully formed row at the end of the grid.
    pub fn push_row(&mut self, row: Y<T, Asymetrical>)
        ensures
            final(self)@ == old(self)@.push(row@),
    {
        self.0.push(row);
        proof {
            assert(self@ =~= old(self)@.push(row@));
        }
    }

    /// A mutable reference to row `x`.
    pub fn row_mut(&mut self, x: usize) -> (r: &mut Y<T, Asymetrical>)
        requires
            x < old(self)@.len(),
        ensures
            (*r)@ == old(self)@[x as int],
            final(self)@ == old(self)@.update(x as int, final(r)@),
    {
        &mut self.0[x]
    }

    /// Converts a jagged grid into a symetrical one: every row is padded on
    /// the right with default-valued cells up to the length of the longest
    /// row. No cell is ever dropped or truncated, and a grid whose rows
    /// already share one length comes back equal.
    pub fn to_rectangular(self) -> (r: X<T, Symetrical>) where T: core::default::Default
        ensures
            r@.len() == self@.len(),
            forall|i: int| 0 <= i < self@.len() ==> #[trigger] r@[i].len() == max_row_len(self@),
            forall|i: int, j: int|
                0 <= i < self@.len() && 0 <= j < self@[i].len() ==> r@[i][j] == self@[i][j],
            forall|i: int, j: int|
                0 <= i < self@.len() && self@[i].len() <= j < max_row_len(self@) ==> is_default(
                    #[trigger] r@[i][j],
                ),
            rect(r@),
            rect(self@) ==> r@ == self@,
    {
        let ghost orig = self@;
        let n = self.0.len();
        let mut maxl: usize = 0;
        let mut i: usize = 0;
        while i < n
            invariant
                i <= n,
                n == self@.len(),
                self@ == orig,
                maxl == max_row_len(orig.take(i as int)),
            decreases n - i,
        {
            let li = self.0[i].len();
            if li > maxl {
                maxl = li;
            }
            proof {
                assert(orig.take(i + 1).drop_last() =~= orig.take(i as int));
                assert(orig.take(i + 1).last() == orig[i as int]);
            }
            i += 1;
        }
        proof {
            assert(orig.take(n as int) =~= orig);
        }
        let mut src = self.0;
        let mut flipped: Vec<Y<T, Symetrical>> = Vec::new();
        while src.len() > 0
            invariant
                maxl == max_row_len(orig),
                flipped@.len() + src@.len() == orig.len(),
                forall|k: int| 0 <= k < src@.len() ==> #[trigger] src@[k]@ == orig[k],
                forall|k: int|
                    0 <= k < flipped@.len() ==> #[trigger] flipped@[k]@.len() == maxl,
                forall|k: int, j: int|
                    0 <= k < flipped@.len() && 0 <= j < orig[orig.len() - 1 - k].len()
                        ==> flipped@[k]@[j] == orig[orig.len() - 1 - k][j],
                forall|k: int, j: int|
                    0 <= k < flipped@.len() && orig[orig.len() - 1 - k].len() <= j < maxl
                        ==> is_default(#[trigger] flipped@[k]@[j]),
            decreases src@.len(),
        {
            proof {
                lemma_max_row_len_bound(orig, src@.len() - 1);
            }
            let row = src.pop().unwrap();
            let padded = row.pad_to(maxl);
            flipped.push(padded);
        }
        let mut out: Vec<Y<T, Symetrical>> = Vec::new();
        while flipped.len() > 0
            invariant
                out@.len() + flipped@.len() == orig.len(),
                forall|k: int|
                    0 <= k < flipped@.len() ==> #[trigger] flipped@[k]@.len() == maxl as int,
                forall|k: int, j: int|
                    0 <= k < flipped@.len() && 0 <= j < orig[orig.len() - 1 - k].len()
                        ==> flipped@[k]@[j] == orig[orig.len() - 1 - k][j],
                forall|k: int, j: int|
                    0 <= k < flipped@.len() && orig[orig.len() - 1 - k].len() <= j < maxl
                        ==> is_default(#[trigger] flipped@[k]@[j]),
                forall|k: int| 0 <= k < out@.len() ==> #[trigger] out@[k]@.len() == maxl as int,
                forall|k: int, j: int|
                    0 <= k < out@.len() && 0 <= j < orig[k].len() ==> out@[k]@[j] == orig[k][j],
                forall|k: int, j: int|
                    0 <= k < out@.len() && orig[k].len() <= j < maxl ==> is_default(
                        #[trigger] out@[k]@[j],
                    ),
            decreases flipped@.len(),
        {
            let row = flipped.pop().unwrap();
            out.push(row);
        }
        let r = X(out);
        proof {
            if rect(orig) {
                lemma_max_row_len_rect(orig);
                assert forall|i: int| 0 <= i < orig.len() implies r@[i] == orig[i] by {
                    assert(orig[i].len() == grid_cols(orig));
                    assert(r@[i] =~= orig[i]);
                }
                assert(r@ =~= orig);
            }
        }
        r
    }

    /// Resizes the grid in place so that its row count equals `new_len`
    /// exactly: shrinks by truncating rows from the end, or grows by
    /// appending empty rows.
    pub fn resize(&mut self, new_len: usize)
        ensures
            new_len <= old(self)@.len() ==> final(self)@ == old(self)@.subrange(0, new_len as int),
            new_len > old(self)@.len() ==> {
                &&& final(self)@.len() == new_len
                &&& final(self)@.subrange(0, old(self)@.len() as int) == old(self)@
                &&& forall|i: int|
                    old(self)@.len() <= i < new_len ==> #[trigger] final(self)@[i]
                        == Seq::<T>::empty()
            },
    {
        if new_len <= self.0.len() {
            self.0.truncate(new_len);
            proof {
                assert(self@ =~= old(self)@.subrange(0, new_len as int));
            }
        } else {
            while self.0.len() < new_len
                invariant
                    old(self)@.len() < new_len,
                    old(self)@.len() <= self@.len() <= new_len,
                    self@.subrange(0, old(self)@.len() as int) =~= old(self)@,
                    forall|i: int|
                        old(self)@.len() <= i < self@.len() ==> #[trigger] self@[i]
                            == Seq::<T>::empty(),
                decreases new_len - self@.len(),
            {
                let ghost prev = self@;
                self.0.push(Y::new());
                proof {
                    assert(self@ =~= prev.push(Seq::<T>::empty()));
                }
            }
            proof {
                assert(final(self)@.subrange(0, old(self)@.len() as int) =~= old(self)@);
            }
        }
    }
}

impl<T, M: Mode> Default for X<T, M> {
    /// The default grid is empty, as [`X::new`] returns.
    fn default() -> (r: Self)
        ensures
            r@ == Seq::<Seq<T>>::empty(),
    {
        X::new()
    }
}

impl<T: PartialEq, M: Mode> PartialEq for X<T, M> {
    /// Two grids are equal when they have the same discipline (enforced by
    /// the type), the same row count, and elementwise-equal rows.
    fn eq(&self, other: &Self) -> (r: bool) {
        let r = self.0 == other.0;
        proof {
            if T::obeys_eq_spec() {
                assert(r == self.0.eq_spec(&other.0));
                if r {
                    assert forall|i: int| 0 <= i < self@.len() implies (self@[i].len()
                        == other@[i].len() && (forall|j: int|
                        0 <= j < self@[i].len() ==> PartialEqSpec::eq_spec(
                            &self@[i][j],
                            &other@[i][j],
                        ))) by {
                        assert(self.0@[i].eq_spec(&other.0@[i]));
                        assert(self.0@[i]@ == self@[i]);
                        assert(other.0@[i]@ == other@[i]);
                        assert forall|j: int| 0 <= j < self@[i].len() implies PartialEqSpec::eq_spec(
                            &self@[i][j],
                            &other@[i][j],
                        ) by {
                            assert(PartialEqSpec::eq_spec(&self.0@[i]@[j], &other.0@[i]@[j]));
                        }
                    }
                } else {
                    let deep_eq = self@.len() == other@.len() && (forall|i: int|
                        0 <= i < self@.len() ==> (self@[i].len() == other@[i].len() && (forall|
                            j: int,
                        |
                            0 <= j < self@[i].len() ==> PartialEqSpec::eq_spec(
                                &self@[i][j],
                                &other@[i][j],
                            ))));
                    if deep_eq {
                        assert forall|i: int|
                            0 <= i < self.0@.len() implies self.0@[i].eq_spec(&other.0@[i]) by {
                            assert(self@[i].len() == other@[i].len());
                            assert(self.0@[i]@ == self@[i]);
                            assert(other.0@[i]@ == other@[i]);
                            assert forall|j: int|
                                0 <= j < self.0@[i]@.len() implies PartialEqSpec::eq_spec(
                                &self.0@[i]@[j],
                                &other.0@[i]@[j],
                            ) by {
                                assert(PartialEqSpec::eq_spec(&self@[i][j], &other@[i][j]));
                            }
                        }
                        assert(self.0.eq_spec(&other.0));
                        assert(false);
                    }
                }
            }
        }
        r
    }
}

impl<T: PartialEq, M: Mode> vstd::std_specs::cmp::PartialEqSpecImpl for X<T, M> {
    open spec fn obeys_eq_spec() -> bool {
        T::obeys_eq_spec()
    }

    open spec fn eq_spec(&self, other: &Self) -> bool {
        self@.len() == other@.len() && (forall|i: int|
            0 <= i < self@.len() ==> (self@[i].len() == other@[i].len() && (forall|j: int|
                0 <= j < self@[i].len() ==> PartialEqSpec::eq_spec(&self@[i][j], &other@[i][j]))))
    }
}

impl<T: Copy> X<T, Asymetrical> {
    /// A jagged grid holding the given rows, each row's values in order.
    /// Row lengths are preserved exactly as given, even if they are equal.
    pub fn from_rows(rows: &[&[T]]) -> (r: Self)
        ensures
            r@.len() == rows@.len(),
            forall|i: int| 0 <= i < rows@.len() ==> #[trigger] r@[i] == rows@[i]@,
    {
        let mut out: Vec<Y<T, Asymetrical>> = Vec::new();
        let mut i: usize = 0;
        while i < rows.len()
            invariant
                i <= rows@.len(),
                out@.len() == i,
                forall|k: int| 0 <= k < i ==> #[trigger] out@[k]@ == rows@[k]@,
            decreases rows@.len() - i,
        {
            let row = Y::from_slice(rows[i]);
            out.push(row);
            i += 1;
        }
        let r = X(out);
        proof {
            assert(r@.len() == rows@.len());
        }
        r
    }
}

impl<T: Copy> From<&[&[T]]> for X<T, Asymetrical> {
    /// Builds a jagged grid from a slice of rows; the verified logic stands
    /// in [`X::from_rows`].
    fn from(c: &[&[T]]) -> Self {
        Self::from_rows(c)
    }
}

impl<T: Copy> vstd::std_specs::convert::FromSpecImpl<&[&[T]]> for X<T, Asymetrical> {
    open spec fn obeys_from_spec() -> bool {
        false
    }

    open spec fn from_spec(v: &[&[T]]) -> Self {
        arbitrary()
    }
}

/// An iterator over each value in each row of a grid, row-major. A fresh
/// call of [`X::iter`] is required to traverse the grid again.
pub struct Iter<'a, T, M: Mode> {
    grid: &'a X<T, M>,
    row: usize,
    col: usize,
}

impl<'a, T, M: Mode> Iter<'a, T, M> {
    /// The position sits on a cell, or just past the end of a row, or past
    /// the last row with the column reset.
    #[verifier::type_invariant]
    closed spec fn wf(self) -> bool {
        &&& self.row <= self.grid@.len()
        &&& (self.row < self.grid@.len() ==> self.col <= self.grid@[self.row as int].len())
        &&& (self.row == self.grid@.len() ==> self.col == 0)
    }

    /// The values the iterator has yet to yield, in order.
    pub closed spec fn remaining(self) -> Seq<T> {
        if self.row >= self.grid@.len() {
            Seq::empty()
        } else {
            self.grid@[self.row as int].skip(self.col as int) + self.grid@.skip(
                self.row as int + 1,
            ).flatten()
        }
    }

    /// Yields a reference to the next value in row-major order, or `None`
    /// once every cell has been visited; after that it keeps returning
    /// `None`.
    pub fn next(&mut self) -> (r: Option<&'a T>)
        ensures
            old(self).remaining().len() == 0 ==> r is None && final(self).remaining() == old(
                self,
            ).remaining(),
            old(self).remaining().len() > 0 ==> r is Some && *r.unwrap() == old(self).remaining()[0]
                && final(self).remaining() == old(self).remaining().drop_first(),
    {
        proof {
            use_type_invariant(&*self);
        }
        while self.row < self.grid.0.len() && self.col == self.grid.0[self.row].0.len()
            invariant
                self.wf(),
                self.grid == old(self).grid,
                self.remaining() == old(self).remaining(),
            decreases self.grid@.len() - self.row,
        {
            let ghost prev = *self;
            self.col = 0;
            self.row = self.row + 1;
            proof {
                assert(prev.grid@[prev.row as int].skip(prev.col as int) =~= Seq::<T>::empty());
                if self.row < self.grid@.len() {
                    lemma_flatten_skip_step(self.grid@, self.row as int);
                    assert(self.grid@[self.row as int].skip(0) =~= self.grid@[self.row as int]);
                    assert(self.remaining() =~= prev.remaining());
                } else {
                    assert(self.grid@.skip(self.row as int) =~= Seq::<Seq<T>>::empty());
                    assert(self.remaining() =~= prev.remaining());
                }
            }
        }
        if self.row == self.grid.0.len() {
            proof {
                assert(old(self).remaining().len() == 0);
            }
            return None;
        }
        let ghost mid = *self;
        let v = &self.grid.0[self.row].0[self.col].0;
        proof {
            let rowseq = self.grid@[self.row as int];
            assert(rowseq.skip(self.col as int).first() == rowseq[self.col as int]);
            assert(rowseq.skip(self.col as int).drop_first() =~= rowseq.skip(self.col as int + 1));
            assert(mid.remaining().drop_first() =~= rowseq.skip(self.col as int + 1) + self.grid@.skip(
                self.row as int + 1,
            ).flatten());
        }
        self.col = self.col + 1;
        proof {
            assert(self.remaining() == mid.remaining().drop_first());
            assert(mid.remaining()[0] == mid.grid@[mid.row as int][mid.col as int]);
        }
        Some(v)
    }
}

/// A cursor over each value in each row of a grid, row-major, yielding
/// exclusive access to one cell per step. Verus keeps a long-lived mutable
/// borrow out of the cursor itself, so each [`IterMut::next`] call takes the
/// grid it walks; a fresh [`X::iter_mut`] is required to traverse again.
pub struct IterMut {
    row: usize,
    col: usize,
}

impl IterMut {
    /// The cursor's position: the row and column it visits next.
    pub closed spec fn pos(self) -> (int, int) {
        (self.row as int, self.col as int)
    }

    /// Yields a mutable reference to the value of the first cell at or after
    /// the cursor's position in row-major order, and steps the cursor past
    /// it; or `None` once no cell remains, and ever after. Writing through
    /// the reference changes that one cell and nothing else.
    pub fn next<'a, T, M: Mode>(&mut self, grid: &'a mut X<T, M>) -> (r: Option<&'a mut T>)
        ensures
            match next_cell(old(grid)@, old(self).pos().0, old(self).pos().1) {
                Option::None => r is None && final(grid)@ == old(grid)@ && final(self).pos() == (
                    old(grid)@.len() as int,
                    0int,
                ),
                Option::Some(p) => r is Some && *r.unwrap() == old(grid)@[p.0][p.1]
                    && final(grid)@ =~~= old(grid)@.update(
                    p.0,
                    old(grid)@[p.0].update(p.1, *final(r.unwrap())),
                ) && final(self).pos() == (p.0, p.1 + 1),
            },
    {
        while self.row < grid.0.len() && self.col >= grid.0[self.row].0.len()
            invariant
                grid@ == old(grid)@,
                next_cell(grid@, self.row as int, self.col as int) == next_cell(
                    old(grid)@,
                    old(self).pos().0,
                    old(self).pos().1,
                ),
            decreases grid@.len() - self.row,
        {
            self.col = 0;
            self.row = self.row + 1;
        }
        if self.row >= grid.0.len() {
            self.row = grid.0.len();
            self.col = 0;
            return None;
        }
        let ghost p = (self.row as int, self.col as int);
        let row = &mut grid.0[self.row];
        let v = &mut row.0[self.col].0;
        self.col = self.col + 1;
        Some(v)
    }
}

} // verus!
