use voronoi::canvas::{Canvas, CanvasError, COLOR_BLACK};
use voronoi::geom::Point;

const WHITE: u32 = 0xFFFFFFFF;
const RED: u32 = 0xFF000000;
const GREEN: u32 = 0x00FF0000;
const BLUE: u32 = 0x0000FF00;

#[test]
fn new_canvas_is_zeroed() {
    let c = Canvas::new(5, 3);
    let px = c.pixels();
    assert_eq!(px.len(), 15);
    assert!(px.iter().all(|&p| p == 0));
}

#[test]
fn fill_sets_every_pixel() {
    let mut c = Canvas::new(4, 2);
    c.fill(WHITE);
    let px = c.pixels();
    assert_eq!(px.len(), 8);
    assert!(px.iter().all(|&p| p == WHITE));
}

#[test]
fn sqr_dst_exact_value() {
    assert_eq!(Canvas::sqr_dst((1, 2), (4, 6)), 25);
}

#[test]
fn sqr_dst_symmetric() {
    let a = (3, 7);
    let b = (10, 1);
    assert_eq!(Canvas::sqr_dst(a, b), Canvas::sqr_dst(b, a));
}

#[test]
fn sqr_dst_zero_on_equal_positions() {
    assert_eq!(Canvas::sqr_dst((9, 4), (9, 4)), 0);
}

#[test]
fn single_seed_colors_whole_grid() {
    let mut c = Canvas::new(2, 2);
    assert_eq!(c.point((0, 0), 1, RED), Ok(()));
    assert_eq!(c.fill_voronoi_areas(), Ok(()));
    let px = c.pixels();
    assert_eq!(px, vec![RED, RED, RED, RED]);
}

#[test]
fn two_seeds_split_row() {
    // A 1x4 row with seeds at columns 0 and 3: the midpoint falls at
    // column 1.5, so columns {0, 1} go to the first seed and {2, 3} to
    // the second.
    let mut c = Canvas::new(4, 1);
    assert_eq!(c.point((0, 0), 1, RED), Ok(()));
    assert_eq!(c.point((0, 3), 1, BLUE), Ok(()));
    assert_eq!(c.fill_voronoi_areas(), Ok(()));
    assert_eq!(c.pixels(), vec![RED, RED, BLUE, BLUE]);
}

#[test]
fn exact_tie_breaks_to_lowest_seed_index() {
    // A 1x3 row with seeds at columns 0 and 2: column 1 is equidistant
    // from both, and the first registered seed must win.
    let mut c = Canvas::new(3, 1);
    assert_eq!(c.point((0, 0), 1, RED), Ok(()));
    assert_eq!(c.point((0, 2), 1, BLUE), Ok(()));
    assert_eq!(c.fill_voronoi_areas(), Ok(()));
    assert_eq!(c.pixels(), vec![RED, RED, BLUE]);
}

#[test]
fn rasterize_is_idempotent() {
    let mut c = Canvas::new(6, 5);
    assert_eq!(c.point((1, 1), 2, RED), Ok(()));
    assert_eq!(c.point((3, 4), 2, GREEN), Ok(()));
    assert_eq!(c.fill_voronoi_areas(), Ok(()));
    let first = c.pixels();
    assert_eq!(c.fill_voronoi_areas(), Ok(()));
    assert_eq!(c.pixels(), first);
}

#[test]
fn every_pixel_gets_some_seed_color() {
    let mut c = Canvas::new(4, 4);
    c.fill(WHITE);
    assert_eq!(c.point((0, 0), 1, RED), Ok(()));
    assert_eq!(c.point((3, 3), 1, GREEN), Ok(()));
    assert_eq!(c.point((0, 3), 1, BLUE), Ok(()));
    assert_eq!(c.fill_voronoi_areas(), Ok(()));
    for p in c.pixels() {
        assert!(p == RED || p == GREEN || p == BLUE);
        assert_ne!(p, WHITE);
    }
}

#[test]
fn stamp_out_of_bounds_is_rejected_and_grid_untouched() {
    let mut c = Canvas::new(2, 2);
    c.fill(WHITE);
    // Radius 2 around (0, 0) would leave the grid.
    assert_eq!(c.point((0, 0), 4, RED), Err(CanvasError::Bounds));
    assert!(c.pixels().iter().all(|&p| p == WHITE));
    // The seed was not registered either.
    assert_eq!(c.fill_voronoi_areas(), Err(CanvasError::EmptySeedSet));
}

#[test]
fn stamp_position_outside_grid_is_rejected() {
    let mut c = Canvas::new(2, 2);
    assert_eq!(c.point((5, 0), 1, RED), Err(CanvasError::Bounds));
    assert_eq!(c.point((0, 2), 1, RED), Err(CanvasError::Bounds));
}

#[test]
fn stamp_at_edge_with_fitting_radius_is_accepted() {
    let mut c = Canvas::new(4, 4);
    assert_eq!(c.point((3, 3), 2, RED), Err(CanvasError::Bounds));
    assert_eq!(c.point((2, 2), 2, RED), Ok(()));
}

#[test]
fn stamp_paints_marker_block() {
    let mut c = Canvas::new(4, 4);
    c.fill(WHITE);
    assert_eq!(c.point((1, 1), 2, RED), Ok(()));
    let px = c.pixels();
    // Radius 1 block around (1, 1): rows 0..2, columns 0..2.
    for i in 0..4 {
        for j in 0..4 {
            let expected = if i < 2 && j < 2 { COLOR_BLACK } else { WHITE };
            assert_eq!(px[i * 4 + j], expected);
        }
    }
}

#[test]
fn rasterize_with_no_seeds_fails_and_grid_untouched() {
    let mut c = Canvas::new(3, 2);
    c.fill(WHITE);
    assert_eq!(c.fill_voronoi_areas(), Err(CanvasError::EmptySeedSet));
    assert!(c.pixels().iter().all(|&p| p == WHITE));
}

#[test]
fn pixel_buffer_length_is_always_width_times_height() {
    let mut c = Canvas::new(5, 3);
    assert_eq!(c.pixels().len(), 15);
    c.fill(WHITE);
    assert_eq!(c.pixels().len(), 15);
    assert_eq!(c.point((1, 1), 2, RED), Ok(()));
    assert_eq!(c.pixels().len(), 15);
    assert_eq!(c.fill_voronoi_areas(), Ok(()));
    assert_eq!(c.pixels().len(), 15);
}

#[test]
fn voronoi_cell_recolors_strictly_closer_pixels() {
    let mut c = Canvas::new(2, 1);
    assert_eq!(c.point((0, 0), 1, RED), Ok(()));
    let p = Point { color: GREEN, pos: (0, 1) };
    c.fill_voronoi_cell(&p);
    // Pixel (0, 0) is not strictly closer to p than to the seed; pixel
    // (0, 1) is.
    assert_eq!(c.pixels(), vec![0, GREEN]);
}

#[test]
fn voronoi_cell_leaves_grid_alone_when_never_closer() {
    let mut c = Canvas::new(2, 1);
    c.fill(WHITE);
    assert_eq!(c.point((0, 0), 1, RED), Ok(()));
    let p = Point { color: GREEN, pos: (0, 0) };
    c.fill_voronoi_cell(&p);
    assert_eq!(c.pixels(), vec![WHITE, WHITE]);
}
