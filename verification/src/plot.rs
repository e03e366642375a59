//! The plot: the persistence buffer, the trace drawn into it and the RGBA
//! frame made from it.
use crate::color::{intensity_color, IntensityColorTable};
use crate::grid::{grid_level, is_on_division, on_division, DIV_BRIGHTNESS};
use crate::line::{bresenham_cells, bresenham_path};
use crate::persistence::{
    accumulated, added_times, cell_index, decayed_cells, in_bounds,
    lemma_accumulated_touches_one_cell, lemma_added_times_saturates, lemma_cell_index_in_range,
    saturating_sum, PersistenceBuffer,
};
use vstd::arithmetic::div_mod::lemma_fundamental_div_mod_converse;
use vstd::prelude::*;

verus! {

/// The intensity that the trace adds to each cell it passes.
pub const TRACE_INTENSITY: u8 = 16;

/// A raster of `width` by `height` pixels, four bytes each, can be held in
/// memory.
pub open spec fn raster_fits(width: u32, height: u32) -> bool {
    4 * (width * height) <= isize::MAX
}

/// The cells after a path was drawn into them: `intensity` is added to each
/// cell of the path in turn, but for those that are the cell `skip`.
pub open spec fn drawn(
    cells: Seq<u8>,
    width: int,
    height: int,
    path: Seq<(i64, i64)>,
    skip: (i32, i32),
    intensity: u8,
) -> Seq<u8>
    decreases path.len(),
{
    if path.len() == 0 {
        cells
    } else {
        let before = drawn(cells, width, height, path.drop_last(), skip, intensity);
        let cell = path.last();
        if cell.0 == skip.0 && cell.1 == skip.1 {
            before
        } else {
            accumulated(before, width, height, cell.0 as int, cell.1 as int, intensity)
        }
    }
}

/// The cell `cell` of a path lights the cell that stands at `j` in the
/// buffer: it lies inside the raster, at that place, and is not `skip`.
pub open spec fn lights(width: int, height: int, cell: (i64, i64), skip: (i32, i32), j: int) -> bool {
    &&& !(cell.0 == skip.0 && cell.1 == skip.1)
    &&& in_bounds(width, height, cell.0 as int, cell.1 as int)
    &&& cell_index(width, cell.0 as int, cell.1 as int) == j
}

/// How many cells of `path` light the cell that stands at `j` in the buffer.
pub open spec fn hits(
    width: int,
    height: int,
    path: Seq<(i64, i64)>,
    skip: (i32, i32),
    j: int,
) -> nat
    decreases path.len(),
{
    if path.len() == 0 {
        0
    } else {
        let before = hits(width, height, path.drop_last(), skip, j);
        if lights(width, height, path.last(), skip, j) {
            before + 1
        } else {
            before
        }
    }
}

/// The last of `points`, or `start` where there is none.
pub open spec fn end_of(start: (i32, i32), points: Seq<(i32, i32)>) -> (i32, i32) {
    if points.len() == 0 {
        start
    } else {
        points.last()
    }
}

/// The cells after the trace went from `from` through `points`, one segment
/// to each point. Every segment passes over the end of the one before it; the
/// first passes over `skip`.
pub open spec fn traced(
    cells: Seq<u8>,
    width: int,
    height: int,
    from: (i32, i32),
    skip: (i32, i32),
    points: Seq<(i32, i32)>,
) -> Seq<u8>
    decreases points.len(),
{
    if points.len() == 0 {
        cells
    } else {
        let earlier = points.drop_last();
        let start = end_of(from, earlier);
        let end = points.last();
        drawn(
            traced(cells, width, height, from, skip, earlier),
            width,
            height,
            bresenham_path(start.0, start.1, end.0, end.1),
            end_of(skip, earlier),
            TRACE_INTENSITY,
        )
    }
}

/// One byte of the pixel (`x`, `y`) of the frame. Channels 0, 1 and 2 are
/// red, green and blue: the grid's brightness and the colour of the cell's
/// intensity, added and held at 255. Channel 3, alpha, is 0.
pub open spec fn lit(cells: Seq<u8>, width: int, height: int, x: int, y: int, channel: int) -> u8 {
    let color = intensity_color(cells[cell_index(width, x, y)]);
    let level = if channel == 0 {
        color.0
    } else if channel == 1 {
        color.1
    } else {
        color.2
    };
    if channel == 3 {
        0u8
    } else {
        saturating_sum(grid_level(width, height, x, y), level)
    }
}

/// The frame that shows `cells`: row by row, four bytes a pixel.
pub open spec fn composited(cells: Seq<u8>, width: int, height: int) -> Seq<u8> {
    Seq::new(
        (4 * (width * height)) as nat,
        |i: int| lit(cells, width, height, (i / 4) % width, (i / 4) / width, i % 4),
    )
}

/// What a plot holds.
pub struct PlotView {
    /// The number of columns.
    pub width: u32,
    /// The number of rows.
    pub height: u32,
    /// The persistence buffer, row by row.
    pub cells: Seq<u8>,
    /// The frame, row by row, four bytes (red, green, blue, alpha) a pixel.
    pub frame: Seq<u8>,
    /// The end of the segment drawn last, which the next segment passes over.
    pub last_cell: (i32, i32),
    /// The point from which the trace goes on.
    pub last_point: (i32, i32),
}

impl PlotView {
    /// Both buffers have the size of the raster.
    pub open spec fn wf(self) -> bool {
        &&& raster_fits(self.width, self.height)
        &&& self.cells.len() == self.width * self.height
        &&& self.frame.len() == 4 * (self.width * self.height)
    }

    /// A dark plot of `width` by `height` pixels: the trace starts in the
    /// middle.
    pub open spec fn dark(width: u32, height: u32) -> PlotView {
        PlotView {
            width,
            height,
            cells: Seq::new((width * height) as nat, |i: int| 0u8),
            frame: Seq::new((4 * (width * height)) as nat, |i: int| 0u8),
            last_cell: (0, 0),
            last_point: ((width / 2) as i32, (height / 2) as i32),
        }
    }
}

/// A persistence buffer with the frame that shows it, and the place where the
/// trace stands.
pub struct Plot {
    persistence: PersistenceBuffer,
    pixels: Vec<u8>,
    colors: IntensityColorTable,
    last_cell: (i32, i32),
    last_point: (i32, i32),
}

impl View for Plot {
    type V = PlotView;

    closed spec fn view(&self) -> PlotView {
        PlotView {
            width: self.persistence.width(),
            height: self.persistence.height(),
            cells: self.persistence@,
            frame: self.pixels@,
            last_cell: self.last_cell,
            last_point: self.last_point,
        }
    }
}

impl Plot {
    /// Both buffers have the size of the raster.
    pub open spec fn wf(&self) -> bool {
        self@.wf()
    }

    /// Whether a plot of this size can be allocated.
    pub fn fits(width: u32, height: u32) -> (yes: bool)
        ensures
            yes == raster_fits(width, height),
    {
        proof {
            crate::persistence::lemma_cell_count_bound(width, height);
        }
        let cells: u64 = (width as u64) * (height as u64);
        cells <= (isize::MAX as u64) / 4
    }

    /// A dark plot of `width` by `height` pixels.
    pub fn new(width: u32, height: u32) -> (plot: Plot)
        requires
            raster_fits(width, height),
        ensures
            plot.wf(),
            plot@ == PlotView::dark(width, height),
    {
        let buffer = PersistenceBuffer::new(width, height);
        let bytes: usize = 4 * buffer.intensities().len();
        let pixels: Vec<u8> = vec![0u8; bytes];
        assert(pixels@ =~= Seq::new((4 * (width * height)) as nat, |i: int| 0u8));
        Plot {
            persistence: buffer,
            pixels,
            colors: IntensityColorTable::new(),
            last_cell: (0, 0),
            last_point: ((width / 2) as i32, (height / 2) as i32),
        }
    }

    /// The number of columns.
    pub fn width(&self) -> (width: u32)
        ensures
            width == self@.width,
    {
        self.persistence.width()
    }

    /// The number of rows.
    pub fn height(&self) -> (height: u32)
        ensures
            height == self@.height,
    {
        self.persistence.height()
    }

    /// The persistence buffer, row by row.
    pub fn intensities(&self) -> (cells: &Vec<u8>)
        ensures
            cells@ == self@.cells,
    {
        self.persistence.intensities()
    }

    /// The frame, row by row, four bytes a pixel.
    pub fn pixels(&self) -> (frame: &Vec<u8>)
        ensures
            frame@ == self@.frame,
    {
        &self.pixels
    }

    /// The end of the segment drawn last.
    pub fn last_cell(&self) -> (cell: (i32, i32))
        ensures
            cell == self@.last_cell,
    {
        self.last_cell
    }

    /// The point from which the trace goes on.
    pub fn last_point(&self) -> (point: (i32, i32))
        ensures
            point == self@.last_point,
    {
        self.last_point
    }

    /// Where the cell (`x`, `y`) stands in the persistence buffer.
    pub fn plot_index(&self, x: u32, y: u32) -> (i: usize)
        requires
            cell_index(self@.width as int, x as int, y as int) <= usize::MAX,
        ensures
            i == cell_index(self@.width as int, x as int, y as int),
    {
        (x as usize) + (y as usize) * (self.persistence.width() as usize)
    }

    /// Where the four bytes of the pixel (`x`, `y`) begin in the frame.
    pub fn pixel_index(&self, x: u32, y: u32) -> (i: usize)
        requires
            4 * cell_index(self@.width as int, x as int, y as int) <= usize::MAX,
        ensures
            i == 4 * cell_index(self@.width as int, x as int, y as int),
    {
        self.plot_index(x, y) * 4
    }

    /// Adds `intensity` to the cell (`x`, `y`) of the persistence buffer and
    /// stops at 255. A cell outside the raster is passed over.
    pub fn pixel(&mut self, x: i32, y: i32, intensity: u8)
        requires
            old(self).wf(),
        ensures
            final(self).wf(),
            final(self)@ == (PlotView {
                cells: accumulated(
                    old(self)@.cells,
                    old(self)@.width as int,
                    old(self)@.height as int,
                    x as int,
                    y as int,
                    intensity,
                ),
                ..old(self)@
            }),
    {
        self.persistence.accumulate(x as i64, y as i64, intensity);
    }

    /// Marks the point (`x`, `y`) of the trace: it lights one cell.
    pub fn point(&mut self, x: i32, y: i32, intensity: u8)
        requires
            old(self).wf(),
        ensures
            final(self).wf(),
            final(self)@ == (PlotView {
                cells: accumulated(
                    old(self)@.cells,
                    old(self)@.width as int,
                    old(self)@.height as int,
                    x as int,
                    y as int,
                    intensity,
                ),
                ..old(self)@
            }),
    {
        self.pixel(x, y, intensity);
    }

    /// Draws the cells of `path` in turn, each with `intensity`, but for those
    /// that are the end of the segment drawn last.
    pub fn plot_cells(&mut self, path: &Vec<(i64, i64)>, intensity: u8)
        requires
            old(self).wf(),
        ensures
            final(self).wf(),
            final(self)@ == (PlotView {
                cells: drawn(
                    old(self)@.cells,
                    old(self)@.width as int,
                    old(self)@.height as int,
                    path@,
                    old(self)@.last_cell,
                    intensity,
                ),
                ..old(self)@
            }),
    {
        let skip: (i32, i32) = self.last_cell;
        let mut i: usize = 0;
        while i < path.len()
            invariant
                i <= path@.len(),
                skip == old(self)@.last_cell,
                self.wf(),
                self@ == (PlotView {
                    cells: drawn(
                        old(self)@.cells,
                        old(self)@.width as int,
                        old(self)@.height as int,
                        path@.take(i as int),
                        skip,
                        intensity,
                    ),
                    ..old(self)@
                }),
            decreases path@.len() - i,
        {
            let cell: (i64, i64) = path[i];
            assert(path@.take(i + 1).drop_last() =~= path@.take(i as int));
            if !(cell.0 == skip.0 as i64 && cell.1 == skip.1 as i64) {
                self.persistence.accumulate(cell.0, cell.1, intensity);
            }
            i = i + 1;
        }
        assert(path@.take(i as int) =~= path@);
    }

    /// Lets the trace go on from where it stands through `points`, one segment
    /// to each point.
    pub fn trace(&mut self, points: &Vec<(i32, i32)>)
        requires
            old(self).wf(),
        ensures
            final(self).wf(),
            final(self)@ == (PlotView {
                cells: traced(
                    old(self)@.cells,
                    old(self)@.width as int,
                    old(self)@.height as int,
                    old(self)@.last_point,
                    old(self)@.last_cell,
                    points@,
                ),
                last_cell: end_of(old(self)@.last_cell, points@),
                last_point: end_of(old(self)@.last_point, points@),
                ..old(self)@
            }),
    {
        let mut i: usize = 0;
        while i < points.len()
            invariant
                i <= points@.len(),
                self.wf(),
                self@ == (PlotView {
                    cells: traced(
                        old(self)@.cells,
                        old(self)@.width as int,
                        old(self)@.height as int,
                        old(self)@.last_point,
                        old(self)@.last_cell,
                        points@.take(i as int),
                    ),
                    last_cell: end_of(old(self)@.last_cell, points@.take(i as int)),
                    last_point: end_of(old(self)@.last_point, points@.take(i as int)),
                    ..old(self)@
                }),
            decreases points@.len() - i,
        {
            let from: (i32, i32) = self.last_point;
            let to: (i32, i32) = points[i];
            assert(points@.take(i + 1).drop_last() =~= points@.take(i as int));
            self.dot(from.0, from.1, to.0, to.1);
            self.last_point = to;
            i = i + 1;
        }
        assert(points@.take(i as int) =~= points@);
    }

    /// Draws the segment from (`x0`, `y0`) to (`x1`, `y1`), both ends
    /// included: every cell on it gains the trace's intensity, but for the end
    /// of the segment drawn last, which is not lit twice. Cells outside the
    /// raster are passed over.
    pub fn dot(&mut self, x0: i32, y0: i32, x1: i32, y1: i32)
        requires
            old(self).wf(),
        ensures
            final(self).wf(),
            final(self)@ == (PlotView {
                cells: drawn(
                    old(self)@.cells,
                    old(self)@.width as int,
                    old(self)@.height as int,
                    bresenham_path(x0, y0, x1, y1),
                    old(self)@.last_cell,
                    TRACE_INTENSITY,
                ),
                last_cell: (x1, y1),
                ..old(self)@
            }),
            bresenham_path(x0, y0, x1, y1).len() > 0,
            bresenham_path(x0, y0, x1, y1).first() == (x0 as i64, y0 as i64),
            bresenham_path(x0, y0, x1, y1).last() == (x1 as i64, y1 as i64),
    {
        let path: Vec<(i64, i64)> = bresenham_cells(x0, y0, x1, y1);
        self.plot_cells(&path, TRACE_INTENSITY);
        self.last_cell = (x1, y1);
    }

    /// The red, green and blue byte of the pixel (`x`, `y`). `row` tells
    /// whether a grid line runs along its row.
    fn lit_pixel(&self, x: u32, y: u32, row: bool) -> (rgb: (u8, u8, u8))
        requires
            self.wf(),
            in_bounds(self@.width as int, self@.height as int, x as int, y as int),
            row == on_division(self@.height as int, y as int),
        ensures
            rgb.0 == lit(self@.cells, self@.width as int, self@.height as int, x as int, y as int, 0),
            rgb.1 == lit(self@.cells, self@.width as int, self@.height as int, x as int, y as int, 1),
            rgb.2 == lit(self@.cells, self@.width as int, self@.height as int, x as int, y as int, 2),
    {
        let width: u32 = self.persistence.width();
        proof {
            lemma_cell_index_in_range(
                self@.width as int,
                self@.height as int,
                x as int,
                y as int,
            );
        }
        let base: u8 = if row || is_on_division(width, x) {
            DIV_BRIGHTNESS
        } else {
            0
        };
        let p: usize = self.plot_index(x, y);
        let color: (u8, u8, u8) = self.colors.color(self.persistence.intensities()[p]);
        (
            base.saturating_add(color.0),
            base.saturating_add(color.1),
            base.saturating_add(color.2),
        )
    }

    /// Makes the frame from the persistence buffer: black, then the grid,
    /// then on every pixel the colour of its cell's intensity, added and held
    /// at 255.
    pub fn composite(&mut self)
        requires
            old(self).wf(),
        ensures
            final(self).wf(),
            final(self)@ == (PlotView {
                frame: composited(
                    old(self)@.cells,
                    old(self)@.width as int,
                    old(self)@.height as int,
                ),
                ..old(self)@
            }),
    {
        let width: u32 = self.persistence.width();
        let height: u32 = self.persistence.height();
        let ghost frame = composited(self@.cells, width as int, height as int);
        let mut y: u32 = 0;
        while y < height
            invariant
                y <= height,
                width == old(self)@.width,
                height == old(self)@.height,
                frame == composited(old(self)@.cells, width as int, height as int),
                self.wf(),
                self@ == (PlotView { frame: self@.frame, ..old(self)@ }),
                4 * (y * width) <= frame.len(),
                forall|j: int| 0 <= j < 4 * (y * width) ==> self@.frame[j] == frame[j],
            decreases height - y,
        {
            let row: bool = is_on_division(height, y);
            let mut x: u32 = 0;
            while x < width
                invariant
                    x <= width,
                    y < height,
                    row == on_division(height as int, y as int),
                    width == old(self)@.width,
                    height == old(self)@.height,
                    frame == composited(old(self)@.cells, width as int, height as int),
                    self.wf(),
                    self@ == (PlotView { frame: self@.frame, ..old(self)@ }),
                    4 * cell_index(width as int, x as int, y as int) <= frame.len(),
                    forall|j: int|
                        0 <= j < 4 * cell_index(width as int, x as int, y as int)
                            ==> self@.frame[j] == frame[j],
                decreases width - x,
            {
                proof {
                    lemma_frame_bytes(
                        old(self)@.cells,
                        width as int,
                        height as int,
                        x as int,
                        y as int,
                    );
                }
                let rgb: (u8, u8, u8) = self.lit_pixel(x, y, row);
                let i: usize = self.pixel_index(x, y);
                self.pixels[i] = rgb.0;
                self.pixels[i + 1] = rgb.1;
                self.pixels[i + 2] = rgb.2;
                self.pixels[i + 3] = 0;
                x = x + 1;
            }
            assert(cell_index(width as int, width as int, y as int) == (y + 1) * width)
                by (nonlinear_arith);
            y = y + 1;
        }
        assert(height * width == width * height) by (nonlinear_arith);
        assert(self.pixels@ =~= frame);
    }

    /// Lets the persistence buffer fade by one frame.
    pub fn fade(&mut self)
        requires
            old(self).wf(),
        ensures
            final(self).wf(),
            final(self)@ == (PlotView { cells: decayed_cells(old(self)@.cells), ..old(self)@ }),
    {
        self.persistence.decay_all();
    }

    /// Ends a frame: makes the frame from the persistence buffer as it
    /// stands, then lets the buffer fade.
    pub fn done(&mut self)
        requires
            old(self).wf(),
        ensures
            final(self).wf(),
            final(self)@ == (PlotView {
                frame: composited(
                    old(self)@.cells,
                    old(self)@.width as int,
                    old(self)@.height as int,
                ),
                cells: decayed_cells(old(self)@.cells),
                ..old(self)@
            }),
    {
        self.composite();
        self.fade();
    }

    /// Renders one frame: the trace goes on through `points`, the frame is
    /// made, and the persistence buffer fades.
    pub fn render(&mut self, points: &Vec<(i32, i32)>)
        requires
            old(self).wf(),
        ensures
            final(self).wf(),
            final(self)@ == ({
                let lit_cells = traced(
                    old(self)@.cells,
                    old(self)@.width as int,
                    old(self)@.height as int,
                    old(self)@.last_point,
                    old(self)@.last_cell,
                    points@,
                );
                PlotView {
                    frame: composited(
                        lit_cells,
                        old(self)@.width as int,
                        old(self)@.height as int,
                    ),
                    cells: decayed_cells(lit_cells),
                    last_cell: end_of(old(self)@.last_cell, points@),
                    last_point: end_of(old(self)@.last_point, points@),
                    ..old(self)@
                }
            }),
    {
        self.trace(points);
        self.done();
    }

    /// Takes the size of a resized window: both buffers are made anew, dark,
    /// and the trace starts again in the middle.
    pub fn resize(&mut self, width: u32, height: u32)
        requires
            raster_fits(width, height),
        ensures
            final(self).wf(),
            final(self)@ == PlotView::dark(width, height),
    {
        let buffer = PersistenceBuffer::new(width, height);
        let bytes: usize = 4 * buffer.intensities().len();
        let pixels: Vec<u8> = vec![0u8; bytes];
        assert(pixels@ =~= Seq::new((4 * (width * height)) as nat, |i: int| 0u8));
        self.persistence = buffer;
        self.pixels = pixels;
        self.last_cell = (0, 0);
        self.last_point = ((width / 2) as i32, (height / 2) as i32);
    }
}

/// Where the bytes of a pixel stand in the frame: the pixel (`x`, `y`) has
/// the four bytes from four times its cell's index on, one for each channel.
pub proof fn lemma_frame_bytes(cells: Seq<u8>, width: int, height: int, x: int, y: int)
    requires
        in_bounds(width, height, x, y),
    ensures
        0 <= 4 * cell_index(width, x, y),
        4 * cell_index(width, x, y) + 3 < composited(cells, width, height).len(),
        forall|i: int|
            4 * cell_index(width, x, y) <= i < 4 * cell_index(width, x, y) + 4
                ==> #[trigger] composited(cells, width, height)[i] == lit(
                cells,
                width,
                height,
                x,
                y,
                i - 4 * cell_index(width, x, y),
            ),
{
    let p = cell_index(width, x, y);
    lemma_cell_index_in_range(width, height, x, y);
    lemma_fundamental_div_mod_converse(p, width, y, x);
}

/// What the frame shows of a cell. A dark cell shows the grid alone: black,
/// or the grid's brightness on a grid line. A lit cell is never darker than
/// that in any colour, and alpha is 0 everywhere.
pub proof fn lemma_frame_shows_grid_under_trace(
    cells: Seq<u8>,
    width: int,
    height: int,
    x: int,
    y: int,
    channel: int,
)
    requires
        0 <= channel < 3,
    ensures
        lit(cells, width, height, x, y, channel) >= grid_level(width, height, x, y),
        cells[cell_index(width, x, y)] == 0 ==> lit(cells, width, height, x, y, channel)
            == grid_level(width, height, x, y),
        lit(cells, width, height, x, y, 3) == 0,
{
}

/// What drawing a path does to each cell. The buffer keeps its size, and a
/// cell holds what it held with the intensity added once for every cell of
/// the path that lights it, held at 255. Cells of the path outside the raster
/// light nothing, however far out they lie, and neither does the cell that is
/// passed over.
pub proof fn lemma_drawn_cell_by_cell(
    cells: Seq<u8>,
    width: int,
    height: int,
    path: Seq<(i64, i64)>,
    skip: (i32, i32),
    intensity: u8,
)
    requires
        cells.len() == width * height,
    ensures
        drawn(cells, width, height, path, skip, intensity).len() == cells.len(),
        forall|j: int|
            0 <= j < cells.len() ==> #[trigger] drawn(cells, width, height, path, skip, intensity)[j]
                == added_times(cells[j], intensity, hits(width, height, path, skip, j)),
    decreases path.len(),
{
    if path.len() > 0 {
        let earlier = path.drop_last();
        let cell = path.last();
        let before = drawn(cells, width, height, earlier, skip, intensity);
        lemma_drawn_cell_by_cell(cells, width, height, earlier, skip, intensity);
        lemma_accumulated_touches_one_cell(
            before,
            width,
            height,
            cell.0 as int,
            cell.1 as int,
            intensity,
        );
        assert forall|j: int| 0 <= j < cells.len() implies #[trigger] drawn(
            cells,
            width,
            height,
            path,
            skip,
            intensity,
        )[j] == added_times(cells[j], intensity, hits(width, height, path, skip, j)) by {
            assert(before[j] == added_times(
                cells[j],
                intensity,
                hits(width, height, earlier, skip, j),
            ));
        }
    }
}

/// Drawing never reaches outside the raster: a cell of the buffer changes only
/// if a cell of the path lies inside the raster and stands on it. A path that
/// lies outside altogether changes nothing.
pub proof fn lemma_drawn_stays_inside(
    cells: Seq<u8>,
    width: int,
    height: int,
    path: Seq<(i64, i64)>,
    skip: (i32, i32),
    intensity: u8,
)
    requires
        cells.len() == width * height,
    ensures
        drawn(cells, width, height, path, skip, intensity).len() == cells.len(),
        forall|j: int|
            0 <= j < cells.len() && (forall|k: int|
                0 <= k < path.len() ==> !lights(width, height, #[trigger] path[k], skip, j))
                ==> #[trigger] drawn(cells, width, height, path, skip, intensity)[j] == cells[j],
        (forall|k: int|
            0 <= k < path.len() ==> !in_bounds(
                width,
                height,
                (#[trigger] path[k]).0 as int,
                path[k].1 as int,
            )) ==> drawn(cells, width, height, path, skip, intensity) == cells,
    decreases path.len(),
{
    if path.len() > 0 {
        let earlier = path.drop_last();
        let cell = path.last();
        let before = drawn(cells, width, height, earlier, skip, intensity);
        lemma_drawn_stays_inside(cells, width, height, earlier, skip, intensity);
        lemma_accumulated_touches_one_cell(
            before,
            width,
            height,
            cell.0 as int,
            cell.1 as int,
            intensity,
        );
        assert forall|j: int|
            0 <= j < cells.len() && (forall|k: int|
                0 <= k < path.len() ==> !lights(
                    width,
                    height,
                    #[trigger] path[k],
                    skip,
                    j,
                )) implies #[trigger] drawn(cells, width, height, path, skip, intensity)[j]
            == cells[j] by {
            assert(before[j] == cells[j]);
        }
    }
}

/// A trace leaves the buffer its size, whatever its points: nothing is
/// written beyond the raster. And it only adds light: no cell is darker
/// after it.
pub proof fn lemma_traced_stays_inside(
    cells: Seq<u8>,
    width: int,
    height: int,
    from: (i32, i32),
    skip: (i32, i32),
    points: Seq<(i32, i32)>,
)
    requires
        cells.len() == width * height,
    ensures
        traced(cells, width, height, from, skip, points).len() == cells.len(),
        forall|j: int|
            0 <= j < cells.len() ==> cells[j] <= #[trigger] traced(
                cells,
                width,
                height,
                from,
                skip,
                points,
            )[j],
    decreases points.len(),
{
    if points.len() > 0 {
        let earlier = points.drop_last();
        let start = end_of(from, earlier);
        let end = points.last();
        let before = traced(cells, width, height, from, skip, earlier);
        lemma_traced_stays_inside(cells, width, height, from, skip, earlier);
        lemma_drawn_cell_by_cell(
            before,
            width,
            height,
            bresenham_path(start.0, start.1, end.0, end.1),
            end_of(skip, earlier),
            TRACE_INTENSITY,
        );
        assert forall|j: int| 0 <= j < cells.len() implies cells[j] <= #[trigger] traced(
            cells,
            width,
            height,
            from,
            skip,
            points,
        )[j] by {
            lemma_added_times_saturates(
                before[j],
                TRACE_INTENSITY,
                hits(
                    width,
                    height,
                    bresenham_path(start.0, start.1, end.0, end.1),
                    end_of(skip, earlier),
                    j,
                ),
            );
        }
    }
}

/// A trace goes on where the one before it ended: to trace through some
/// points and then through more is to trace through all of them at once. The
/// first segment of the second part starts at the end of the first part and
/// passes over it.
pub proof fn lemma_trace_goes_on(
    cells: Seq<u8>,
    width: int,
    height: int,
    from: (i32, i32),
    skip: (i32, i32),
    first: Seq<(i32, i32)>,
    then: Seq<(i32, i32)>,
)
    ensures
        traced(cells, width, height, from, skip, first + then) == traced(
            traced(cells, width, height, from, skip, first),
            width,
            height,
            end_of(from, first),
            end_of(skip, first),
            then,
        ),
        end_of(from, first + then) == end_of(end_of(from, first), then),
        end_of(skip, first + then) == end_of(end_of(skip, first), then),
    decreases then.len(),
{
    if then.len() > 0 {
        assert((first + then).drop_last() =~= first + then.drop_last());
        lemma_trace_goes_on(cells, width, height, from, skip, first, then.drop_last());
    }
}

} // verus!
