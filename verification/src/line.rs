//! Straight lines on the integer grid, as the `line_drawing` crate walks them.
use vstd::prelude::*;

verus! {

/// The cells that `line_drawing::Bresenham` yields for the line from
/// (`x0`, `y0`) to (`x1`, `y1`), in the order in which it yields them.
pub uninterp spec fn bresenham_path(x0: i32, y0: i32, x1: i32, y1: i32) -> Seq<(i64, i64)>;

/// Walks `line_drawing::Bresenham::new` from (`x0`, `y0`) to (`x1`, `y1`) and
/// collects every cell it yields.
///
/// Trusted, not proved: the cells are exactly those that the iterator yields
/// for these end points, and, as its documentation says, the line includes
/// both of them: it begins with the start and ends with the end. Nothing more
/// is claimed of the cells between. The walk is made on 64-bit coordinates,
/// where no difference or step of 32-bit end points can overflow, so it ends
/// for every input.
#[verifier::external_body]
pub(crate) fn bresenham_cells(x0: i32, y0: i32, x1: i32, y1: i32) -> (cells: Vec<(i64, i64)>)
    ensures
        cells@ == bresenham_path(x0, y0, x1, y1),
        cells@.len() > 0,
        cells@.first() == (x0 as i64, y0 as i64),
        cells@.last() == (x1 as i64, y1 as i64),
{
    line_drawing::Bresenham::new((x0 as i64, y0 as i64), (x1 as i64, y1 as i64)).collect()
}

} // verus!
