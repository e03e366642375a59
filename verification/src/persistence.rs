//! The persistence buffer: one 8-bit intensity for each cell of the raster.
use vstd::prelude::*;

verus! {

/// What is left of an intensity after one frame, in hundredths.
pub const DECAY_PERCENT: u32 = 85;

/// A grid of `width` by `height` cells can be held in memory.
pub open spec fn grid_fits(width: u32, height: u32) -> bool {
    width * height <= isize::MAX
}

/// The cell (`x`, `y`) lies inside a grid of `width` by `height` cells.
pub open spec fn in_bounds(width: int, height: int, x: int, y: int) -> bool {
    0 <= x < width && 0 <= y < height
}

/// Where the cell (`x`, `y`) stands in a grid that is stored row by row.
pub open spec fn cell_index(width: int, x: int, y: int) -> int {
    x + y * width
}

/// The sum of two intensities, held at 255.
pub open spec fn saturating_sum(a: u8, b: u8) -> u8 {
    if a + b > 255 {
        255u8
    } else {
        (a + b) as u8
    }
}

/// The cells after `intensity` was added to the cell (`x`, `y`): a cell
/// outside the grid changes nothing.
pub open spec fn accumulated(
    cells: Seq<u8>,
    width: int,
    height: int,
    x: int,
    y: int,
    intensity: u8,
) -> Seq<u8> {
    if in_bounds(width, height, x, y) {
        let i = cell_index(width, x, y);
        cells.update(i, saturating_sum(cells[i], intensity))
    } else {
        cells
    }
}

/// An intensity after `intensity` was added to it `times` times.
pub open spec fn added_times(v: u8, intensity: u8, times: nat) -> u8
    decreases times,
{
    if times == 0 {
        v
    } else {
        saturating_sum(added_times(v, intensity, (times - 1) as nat), intensity)
    }
}

/// An intensity one frame later: 85 hundredths of it, rounded down.
pub open spec fn decayed(v: u8) -> u8 {
    ((v * DECAY_PERCENT) / 100) as u8
}

/// An intensity `frames` frames later.
pub open spec fn decayed_times(v: u8, frames: nat) -> u8
    decreases frames,
{
    if frames == 0 {
        v
    } else {
        decayed(decayed_times(v, (frames - 1) as nat))
    }
}

/// Every cell one frame later.
pub open spec fn decayed_cells(cells: Seq<u8>) -> Seq<u8> {
    Seq::new(cells.len(), |i: int| decayed(cells[i]))
}

/// Intensities of a raster, stored row by row. Drawing adds to a cell and
/// stops at 255; every frame each cell fades by a fixed factor.
pub struct PersistenceBuffer {
    width: u32,
    height: u32,
    cells: Vec<u8>,
}

impl View for PersistenceBuffer {
    type V = Seq<u8>;

    /// The intensities, row by row.
    closed spec fn view(&self) -> Seq<u8> {
        self.cells@
    }
}

impl PersistenceBuffer {
    #[verifier::type_invariant]
    spec fn one_cell_per_pixel(&self) -> bool {
        &&& self.cells@.len() == self.width * self.height
        &&& grid_fits(self.width, self.height)
    }

    /// The number of columns.
    pub closed spec fn spec_width(&self) -> u32 {
        self.width
    }

    /// The number of rows.
    pub closed spec fn spec_height(&self) -> u32 {
        self.height
    }

    /// Whether a grid of this size can be allocated.
    pub fn fits(width: u32, height: u32) -> (yes: bool)
        ensures
            yes == grid_fits(width, height),
    {
        proof {
            lemma_cell_count_bound(width, height);
        }
        let cells: u64 = (width as u64) * (height as u64);
        cells <= isize::MAX as u64
    }

    /// A dark grid of `width` by `height` cells.
    pub fn new(width: u32, height: u32) -> (buffer: PersistenceBuffer)
        requires
            grid_fits(width, height),
        ensures
            buffer.width() == width,
            buffer.height() == height,
            buffer@ == Seq::new((width * height) as nat, |i: int| 0u8),
    {
        proof {
            lemma_cell_count_bound(width, height);
        }
        let count: usize = ((width as u64) * (height as u64)) as usize;
        let cells: Vec<u8> = vec![0u8; count];
        PersistenceBuffer { width, height, cells }
    }

    /// The number of columns.
    #[verifier::when_used_as_spec(spec_width)]
    pub fn width(&self) -> (width: u32)
        ensures
            width == self.spec_width(),
    {
        self.width
    }

    /// The number of rows.
    #[verifier::when_used_as_spec(spec_height)]
    pub fn height(&self) -> (height: u32)
        ensures
            height == self.spec_height(),
    {
        self.height
    }

    /// The intensities, row by row: one for each cell.
    pub fn intensities(&self) -> (cells: &Vec<u8>)
        ensures
            cells@ == self@,
            cells@.len() == self.width() * self.height(),
    {
        proof {
            use_type_invariant(self);
        }
        &self.cells
    }

    /// The intensity of the cell (`x`, `y`), if the grid has such a cell.
    pub fn intensity_at(&self, x: i64, y: i64) -> (found: Option<u8>)
        ensures
            found == if in_bounds(self.width() as int, self.height() as int, x as int, y as int) {
                Some(self@[cell_index(self.width() as int, x as int, y as int)])
            } else {
                None
            },
    {
        proof {
            use_type_invariant(self);
        }
        if 0 <= x && x < self.width as i64 && 0 <= y && y < self.height as i64 {
            proof {
                lemma_cell_index_in_range(
                    self.width as int,
                    self.height as int,
                    x as int,
                    y as int,
                );
            }
            let i: usize = (x as usize) + (y as usize) * (self.width as usize);
            Some(self.cells[i])
        } else {
            None
        }
    }

    /// Adds `intensity` to the cell (`x`, `y`) and stops at 255. A cell outside
    /// the grid is passed over.
    pub fn accumulate(&mut self, x: i64, y: i64, intensity: u8)
        ensures
            final(self).width() == old(self).width(),
            final(self).height() == old(self).height(),
            final(self)@ == accumulated(
                old(self)@,
                old(self).width() as int,
                old(self).height() as int,
                x as int,
                y as int,
                intensity,
            ),
            final(self)@.len() == old(self)@.len(),
    {
        proof {
            use_type_invariant(&*self);
        }
        if 0 <= x && x < self.width as i64 && 0 <= y && y < self.height as i64 {
            proof {
                lemma_cell_index_in_range(
                    self.width as int,
                    self.height as int,
                    x as int,
                    y as int,
                );
            }
            let i: usize = (x as usize) + (y as usize) * (self.width as usize);
            let sum: u8 = self.cells[i].saturating_add(intensity);
            self.cells[i] = sum;
        }
    }

    /// Lets every cell fade: each keeps 85 hundredths of its intensity,
    /// rounded down.
    pub fn decay_all(&mut self)
        ensures
            final(self).width() == old(self).width(),
            final(self).height() == old(self).height(),
            final(self)@ == decayed_cells(old(self)@),
            final(self)@.len() == old(self)@.len(),
    {
        proof {
            use_type_invariant(&*self);
        }
        let count: usize = self.cells.len();
        let mut i: usize = 0;
        while i < count
            invariant
                i <= count,
                count == self.cells@.len(),
                self.cells@.len() == old(self).cells@.len(),
                self.width == old(self).width,
                self.height == old(self).height,
                self.cells@.len() == self.width * self.height,
                grid_fits(self.width, self.height),
                forall|j: int| 0 <= j < i ==> #[trigger] self.cells@[j] == decayed(old(self).cells@[j]),
                forall|j: int| i <= j < count ==> #[trigger] self.cells@[j] == old(self).cells@[j],
            decreases count - i,
        {
            let faded: u32 = (self.cells[i] as u32 * DECAY_PERCENT) / 100;
            self.cells[i] = faded as u8;
            i = i + 1;
        }
    }
}

/// Adding to a cell leaves the grid its size, and every other cell as it was.
pub proof fn lemma_accumulated_touches_one_cell(
    cells: Seq<u8>,
    width: int,
    height: int,
    x: int,
    y: int,
    intensity: u8,
)
    requires
        cells.len() == width * height,
    ensures
        accumulated(cells, width, height, x, y, intensity).len() == cells.len(),
        forall|j: int|
            0 <= j < cells.len() && !(in_bounds(width, height, x, y) && j == cell_index(
                width,
                x,
                y,
            )) ==> accumulated(cells, width, height, x, y, intensity)[j] == cells[j],
{
    if in_bounds(width, height, x, y) {
        lemma_cell_index_in_range(width, height, x, y);
    }
}

/// However often an intensity is added to a cell, the cell holds the true
/// sum where that is at most 255, and 255 where it is more: it never wraps
/// and never goes beyond 255.
pub proof fn lemma_added_times_saturates(v: u8, intensity: u8, times: nat)
    ensures
        added_times(v, intensity, times) == if v + times * intensity > 255 {
            255
        } else {
            v + times * intensity
        },
        v <= added_times(v, intensity, times) <= 255,
    decreases times,
{
    if times > 0 {
        lemma_added_times_saturates(v, intensity, (times - 1) as nat);
        assert(times * intensity == (times - 1) * intensity + intensity) by (nonlinear_arith);
    } else {
        assert(times * intensity == 0) by (nonlinear_arith)
            requires
                times == 0,
        ;
    }
}

/// Decay never brightens: a dark cell stays dark, and a lit cell loses
/// intensity.
pub proof fn lemma_decay_never_brightens(v: u8)
    ensures
        decayed(0) == 0,
        decayed(v) <= v,
        v > 0 ==> decayed(v) < v,
{
}

/// Frame after frame a cell only fades: after more frames it is no brighter
/// than after fewer, and a dark cell stays dark for good.
pub proof fn lemma_repeated_decay_only_fades(v: u8, fewer: nat, more: nat)
    requires
        fewer <= more,
    ensures
        decayed_times(v, more) <= decayed_times(v, fewer) <= v,
        decayed_times(0, more) == 0,
    decreases more,
{
    if more > 0 {
        lemma_repeated_decay_only_fades(0, 0, (more - 1) as nat);
        lemma_decay_never_brightens(decayed_times(v, (more - 1) as nat));
        if fewer < more {
            lemma_repeated_decay_only_fades(v, fewer, (more - 1) as nat);
        } else {
            lemma_repeated_decay_only_fades(v, (fewer - 1) as nat, (more - 1) as nat);
        }
    }
}

/// One frame of decay leaves the grid its size and brightens no cell.
pub proof fn lemma_decayed_cells_only_fade(cells: Seq<u8>)
    ensures
        decayed_cells(cells).len() == cells.len(),
        forall|j: int| 0 <= j < cells.len() ==> #[trigger] decayed_cells(cells)[j] <= cells[j],
        forall|j: int|
            0 <= j < cells.len() && cells[j] == 0 ==> #[trigger] decayed_cells(cells)[j] == 0,
{
}

/// The number of cells of any grid fits in 64 bits.
pub proof fn lemma_cell_count_bound(width: u32, height: u32)
    ensures
        0 <= width * height <= 0xFFFF_FFFE_0000_0001,
{
    assert(0 <= width * height <= 0xFFFF_FFFF * 0xFFFF_FFFF) by (nonlinear_arith)
        requires
            0 <= width <= 0xFFFF_FFFF,
            0 <= height <= 0xFFFF_FFFF,
    ;
}

/// A cell inside the grid has its place among the `width * height` cells.
pub proof fn lemma_cell_index_in_range(width: int, height: int, x: int, y: int)
    requires
        in_bounds(width, height, x, y),
    ensures
        0 <= y * width <= cell_index(width, x, y) < width * height,
{
    assert(0 <= y * width && y * width + width <= height * width) by (nonlinear_arith)
        requires
            0 <= y < height,
            0 <= width,
    ;
}

} // verus!
