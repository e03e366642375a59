use vectorscope::color::color_of;
use vectorscope::grid::{is_on_division, DIVISIONS, DIV_BRIGHTNESS};
use vectorscope::plot::Plot;

fn pixel(plot: &Plot, x: u32, y: u32) -> (u8, u8, u8, u8) {
    let i = ((x + y * plot.width()) * 4) as usize;
    let frame = plot.pixels();
    (frame[i], frame[i + 1], frame[i + 2], frame[i + 3])
}

fn grid_lines(extent: u32) -> Vec<u32> {
    (0..5).map(|k| (extent / 5) / 2 + (extent / 5) * k).collect()
}

/// The sample-to-screen mapping of the scope, for pairs of the test below.
fn get_xy(half_width: f32, half_height: f32, left: f32, right: f32) -> (i32, i32) {
    let x = left * half_width + half_width;
    let y = -right * half_height + half_height;
    (x as i32, y as i32)
}

#[test]
fn grid_constants() {
    assert_eq!(DIVISIONS, 5);
    assert_eq!(DIV_BRIGHTNESS, 24);
}

#[test]
fn grid_lines_of_a_raster_of_100() {
    let on: Vec<u32> = (0..100).filter(|x| is_on_division(100, *x)).collect();
    assert_eq!(on, vec![10, 30, 50, 70, 90]);
}

#[test]
fn grid_lines_of_a_raster_of_803() {
    let on: Vec<u32> = (0..803).filter(|x| is_on_division(803, *x)).collect();
    assert_eq!(on, vec![80, 240, 400, 560, 720]);
}

#[test]
fn grid_lines_of_small_rasters() {
    for extent in 0..5 {
        let on: Vec<u32> = (0..10).filter(|x| is_on_division(extent, *x)).collect();
        assert_eq!(on, vec![0]);
    }
    let on: Vec<u32> = (0..10).filter(|x| is_on_division(5, *x)).collect();
    assert_eq!(on, vec![0, 1, 2, 3, 4]);
    let on: Vec<u32> = (0..20).filter(|x| is_on_division(10, *x)).collect();
    assert_eq!(on, vec![1, 3, 5, 7, 9]);
}

#[test]
fn grid_lines_of_the_widest_raster() {
    let step = u32::MAX / 5;
    for k in 0..5 {
        assert!(is_on_division(u32::MAX, step / 2 + step * k));
        assert!(!is_on_division(u32::MAX, step / 2 + step * k + 1));
    }
    assert!(!is_on_division(u32::MAX, u32::MAX));
}

#[test]
fn composite_of_a_dark_plot_is_the_grid() {
    let mut plot = Plot::new(40, 20);
    plot.composite();
    let columns = grid_lines(40);
    let rows = grid_lines(20);
    assert_eq!(columns, vec![4, 12, 20, 28, 36]);
    assert_eq!(rows, vec![2, 6, 10, 14, 18]);
    for y in 0..20 {
        for x in 0..40 {
            let expected = if columns.contains(&x) || rows.contains(&y) {
                (24, 24, 24, 0)
            } else {
                (0, 0, 0, 0)
            };
            assert_eq!(pixel(&plot, x, y), expected);
        }
    }
    assert_eq!(plot.intensities(), &vec![0u8; 800]);
}

#[test]
fn composite_adds_the_color_of_the_intensity() {
    let mut plot = Plot::new(40, 20);
    plot.pixel(0, 0, 16);
    plot.pixel(4, 0, 16);
    plot.pixel(5, 2, 200);
    plot.pixel(4, 2, 255);
    plot.pixel(7, 7, 255);
    plot.pixel(8, 8, 130);
    plot.composite();
    assert_eq!(pixel(&plot, 0, 0), (0, 32, 0, 0));
    assert_eq!(pixel(&plot, 4, 0), (24, 56, 24, 0));
    assert_eq!(pixel(&plot, 5, 2), (132, 255, 132, 0));
    assert_eq!(pixel(&plot, 4, 2), (214, 255, 214, 0));
    assert_eq!(pixel(&plot, 7, 7), (190, 255, 190, 0));
    assert_eq!(pixel(&plot, 8, 8), (3, 255, 3, 0));
    assert_eq!(pixel(&plot, 9, 9), (0, 0, 0, 0));
    // compositing reads the persistence buffer and leaves it as it is
    assert_eq!(plot.intensities()[0], 16);
    assert_eq!(plot.intensities()[5 + 2 * 40], 200);
}

#[test]
fn composite_overwrites_the_frame() {
    let mut plot = Plot::new(10, 10);
    plot.pixel(2, 2, 100);
    plot.composite();
    let first = plot.pixels().clone();
    plot.composite();
    assert_eq!(plot.pixels(), &first);
    assert_eq!(pixel(&plot, 2, 2), (0, 200, 0, 0));
}

#[test]
fn fade_lets_every_cell_decay() {
    let mut plot = Plot::new(3, 1);
    plot.pixel(0, 0, 255);
    plot.pixel(1, 0, 16);
    plot.fade();
    assert_eq!(plot.intensities(), &vec![216, 13, 0]);
    assert_eq!(plot.pixels(), &vec![0u8; 12]);
}

#[test]
fn done_composites_then_fades() {
    let mut plot = Plot::new(10, 10);
    plot.pixel(2, 2, 100);
    plot.pixel(3, 2, 16);
    plot.done();
    // the frame shows the intensities as they were before fading
    assert_eq!(pixel(&plot, 2, 2), (0, 200, 0, 0));
    assert_eq!(pixel(&plot, 3, 2), (24, 56, 24, 0));
    assert_eq!(plot.intensities()[22], 85);
    assert_eq!(plot.intensities()[23], 13);
    plot.done();
    assert_eq!(pixel(&plot, 2, 2), (0, 170, 0, 0));
    assert_eq!(pixel(&plot, 3, 2), (24, 50, 24, 0));
    assert_eq!(plot.intensities()[22], 72);
    assert_eq!(plot.intensities()[23], 11);
}

#[test]
fn done_on_a_plot_without_pixels() {
    for (width, height) in [(0, 0), (0, 7), (7, 0)] {
        let mut plot = Plot::new(width, height);
        plot.trace(&vec![(1, 1), (-3, 4)]);
        plot.done();
        assert_eq!(plot.pixels().len(), 0);
        assert_eq!(plot.intensities().len(), 0);
    }
}

#[test]
fn trace_fades_out_over_the_frames() {
    let mut plot = Plot::new(10, 10);
    plot.render(&vec![(6, 4)]);
    assert_eq!(pixel(&plot, 6, 4), (0, 32, 0, 0));
    let expected: [u8; 12] = [13, 11, 9, 7, 5, 4, 3, 2, 1, 0, 0, 0];
    for level in expected {
        assert_eq!(plot.intensities()[5 + 5 * 10], level);
        assert_eq!(plot.intensities()[6 + 4 * 10], level);
        plot.render(&Vec::new());
        let shown = color_of(level);
        assert_eq!(pixel(&plot, 6, 4), (shown.0, shown.1, shown.2, 0));
        assert_eq!(pixel(&plot, 5, 5), (24 + shown.0, 24 + shown.1, 24 + shown.2, 0));
    }
}

#[test]
fn end_to_end_center_right_top() {
    let (width, height) = (100u32, 100u32);
    let (half_width, half_height) = (width as f32 / 2.0, height as f32 / 2.0);
    let pairs: [(f32, f32); 3] = [(0.0, 0.0), (1.0, 0.0), (0.0, 1.0)];
    let points: Vec<(i32, i32)> = pairs
        .iter()
        .map(|(left, right)| get_xy(half_width, half_height, *left, *right))
        .collect();
    assert_eq!(points, vec![(50, 50), (100, 50), (50, 0)]);

    let mut plot = Plot::new(width, height);
    assert_eq!(plot.last_point(), (50, 50));
    plot.render(&points);

    // center -> middle of the right edge -> middle of the top edge
    let on_path = |x: u32, y: u32| (y == 50 && x >= 50) || (x >= 50 && x + 50 == y + 100);
    let lines = grid_lines(100);
    let mut path_cells = 0;
    for y in 0..height {
        for x in 0..width {
            let grid: u8 = if lines.contains(&x) || lines.contains(&y) { 24 } else { 0 };
            let cell = plot.intensities()[(x + y * width) as usize];
            if on_path(x, y) {
                path_cells += 1;
                assert_eq!(cell, 13);
                assert_eq!(pixel(&plot, x, y), (grid, grid + 32, grid, 0));
            } else {
                assert_eq!(cell, 0);
                assert_eq!(pixel(&plot, x, y), (grid, grid, grid, 0));
            }
        }
    }
    assert_eq!(path_cells, 50 + 50);
    assert_eq!(plot.last_point(), (50, 0));
    assert_eq!(plot.last_cell(), (50, 0));
}
