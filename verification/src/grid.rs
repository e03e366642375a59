//! The reference grid that lies under the trace.
use vstd::prelude::*;

verus! {

/// The number of grid lines in each direction.
pub const DIVISIONS: u32 = 5;

/// The brightness of a grid line, in each colour channel.
pub const DIV_BRIGHTNESS: u8 = 24;

/// Where grid line `k` crosses an axis of length `extent`: the lines are one
/// fifth of the axis apart, and the first lies half a step from the edge.
pub open spec fn division_line(extent: int, k: int) -> int {
    (extent / DIVISIONS as int) / 2 + (extent / DIVISIONS as int) * k
}

/// A grid line crosses the axis of length `extent` at `pos`.
pub open spec fn on_division(extent: int, pos: int) -> bool {
    exists|k: int| 0 <= k < DIVISIONS && pos == #[trigger] division_line(extent, k)
}

/// The brightness that the grid gives to the pixel (`x`, `y`) of a raster of
/// `width` by `height` pixels.
pub open spec fn grid_level(width: int, height: int, x: int, y: int) -> u8 {
    if on_division(width, x) || on_division(height, y) {
        DIV_BRIGHTNESS
    } else {
        0
    }
}

/// Tells whether a grid line crosses an axis of length `extent` at `pos`.
pub fn is_on_division(extent: u32, pos: u32) -> (yes: bool)
    ensures
        yes == on_division(extent as int, pos as int),
{
    let step: u32 = extent / DIVISIONS;
    let first: u32 = step / 2;
    let mut found: bool = false;
    let mut k: u32 = 0;
    while k < DIVISIONS
        invariant
            k <= DIVISIONS,
            step == extent / DIVISIONS,
            first == step / 2,
            found == exists|j: int| 0 <= j < k && pos == #[trigger] division_line(extent as int, j),
        decreases DIVISIONS - k,
    {
        assert(step * k <= step * 4) by (nonlinear_arith)
            requires
                0 <= k <= 4,
                0 <= step,
        ;
        if pos == first + step * k {
            found = true;
            assert(pos == division_line(extent as int, k as int));
        }
        k = k + 1;
    }
    found
}

} // verus!
