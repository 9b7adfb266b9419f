//! Laws that relate several grid operations to one another, stated over the
//! same spec functions and views that the operations' own contracts use.

use crate::x::grid_cols;
use crate::x::grown_cols;
use crate::x::grown_rows;
use crate::x::is_default;
use crate::x::max_row_len;
use crate::x::rect;
use vstd::prelude::*;

verus! {

/// Placing a value into a grid that had no rows grows the grid to exactly
/// `x + 1` rows of exactly `y + 1` columns — no more than the requested
/// point needs. Afterwards `get_point(x, y)` finds the placed value (the
/// point is in bounds, so `get_point` returns `Some` of the cell), and every
/// other cell created by the growth holds a default value.
///
/// The `requires` are what `X::push_point` ensures of a symetrical grid
/// whose view was empty; the `ensures` give what `X::get_point` then
/// returns.
pub proof fn lemma_push_point_on_empty_then_get<T: core::default::Default>(
    rows: Seq<Seq<T>>,
    x: int,
    y: int,
    value: T,
)
    requires
        0 <= x,
        0 <= y,
        rows.len() == grown_rows(Seq::<Seq<T>>::empty(), x),
        forall|i: int|
            0 <= i < rows.len() ==> #[trigger] rows[i].len() == grown_cols(
                Seq::<Seq<T>>::empty(),
                y,
            ),
        rows[x][y] == value,
        forall|i: int, j: int|
            0 <= i < rows.len() && 0 <= j < rows[i].len() && !(i == x && j == y) ==> is_default(
                #[trigger] rows[i][j],
            ),
    ensures
        rows.len() == x + 1,
        forall|i: int| 0 <= i < rows.len() ==> #[trigger] rows[i].len() == y + 1,
        0 <= x < rows.len() && 0 <= y < rows[x].len(),
        rows[x][y] == value,
        forall|i: int, j: int|
            0 <= i < rows.len() && 0 <= j < rows[i].len() && !(i == x && j == y) ==> is_default(
                #[trigger] rows[i][j],
            ),
{
}

/// Converting a symetrical grid to jagged and back returns an equal grid:
/// `to_jagged` keeps the rows unchanged, and `to_rectangular` pads nothing
/// when the rows already share one length.
///
/// `jag` stands for what `X::to_jagged` returns and `back` for what
/// `X::to_rectangular` then returns: the `requires` are those two
/// operations' ensures, and the conclusion is that the round trip is the
/// identity.
pub proof fn lemma_rectangular_round_trip<T>(
    rows: Seq<Seq<T>>,
    jag: Seq<Seq<T>>,
    back: Seq<Seq<T>>,
)
    requires
        rect(rows),
        jag == rows,
        back.len() == jag.len(),
        forall|i: int| 0 <= i < jag.len() ==> #[trigger] back[i].len() == max_row_len(jag),
        forall|i: int, j: int|
            0 <= i < jag.len() && 0 <= j < jag[i].len() ==> back[i][j] == jag[i][j],
    ensures
        back == rows,
{
    crate::x::lemma_max_row_len_rect(rows);
    assert forall|i: int| 0 <= i < rows.len() implies back[i] == rows[i] by {
        assert(rows[i].len() == grid_cols(rows));
        assert(back[i] =~= rows[i]);
    }
    assert(back =~= rows);
}

} // verus!
