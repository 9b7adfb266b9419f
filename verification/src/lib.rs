//! A verified library for two-dimensional, row-ordered data.
//!
//! A grid ([`X`]) is an ordered sequence of rows ([`Y`]), each an ordered
//! sequence of cells ([`Point`]). A grid follows one of two shape
//! disciplines, chosen by a type tag: [`Symetrical`] grids keep every row at
//! one common length, while [`Asymetrical`] grids let row lengths vary.
//! Operations that grow a symetrical grid preserve the equal-length
//! invariant; converting between the two disciplines is an explicit,
//! data-preserving step.

use vstd::prelude::*;

mod laws;
mod point;
mod x;
mod y;

pub use laws::lemma_push_point_on_empty_then_get;
pub use laws::lemma_rectangular_round_trip;
pub use point::Point;
pub use x::grid_cols;
pub use x::grown_cols;
pub use x::grown_rows;
pub use x::is_default;
pub use x::lemma_flatten_count;
pub use x::lemma_rect_survives_update;
pub use x::max_row_len;
pub use x::next_cell;
pub use x::rect;
pub use x::sum_row_lens;
pub use x::Iter;
pub use x::IterMut;
pub use x::X;
pub use y::Y;

verus! {

/// The shape discipline of a grid, fixed at the type level.
pub trait Mode: core::default::Default + Copy + Clone + PartialEq + Eq {
}

/// Tags a grid whose rows all have one common length.
#[derive(Default, Debug, Copy, Clone, PartialEq, Eq, Structural)]
pub struct Symetrical;

impl Mode for Symetrical {
}

/// Tags a grid whose rows may have differing lengths.
#[derive(Default, Debug, Copy, Clone, PartialEq, Eq, Structural)]
pub struct Asymetrical;

impl Mode for Asymetrical {
}

} // verus!
