use game_of_life::grid::{Grid, PhysicalSize};
use game_of_life::layout::{end_of, DEVICE_PARTS};
use game_of_life::render::{Color, Coord, Position, RenderCtx, Vertex};

const ONE: i128 = DEVICE_PARTS as i128;

fn ctx(rows: Vec<Vec<bool>>) -> RenderCtx {
    RenderCtx::new(Grid { grid: rows })
}

fn single(v: &Vertex) -> [f32; 2] {
    [v.position.x as f32 / DEVICE_PARTS as f32, v.position.y as f32 / DEVICE_PARTS as f32]
}

#[test]
fn new_picture_belongs_to_the_opening_window() {
    let c = RenderCtx::new(Grid::new(800, 800));
    assert_eq!(c.frame_index, 0);
    assert_eq!((c.window_width, c.window_height), (800, 800));
    assert_eq!(c.vertex_buffer_len, 38400);
    assert_eq!(c.grid_len(), 6400);
    assert!(c.fits_buffer());
}

#[test]
fn corners_of_the_window_are_the_corners_of_the_screen() {
    let c = ctx(vec![vec![true]]);
    assert_eq!(c.normalize_coord(Coord { x: 0, y: 0 }), Position { x: -ONE, y: -ONE });
    assert_eq!(c.normalize_coord(Coord { x: 800, y: 800 }), Position { x: ONE, y: ONE });
    assert_eq!(c.normalize_coord(Coord { x: 400, y: 600 }), Position { x: 0, y: ONE / 2 });
}

#[test]
fn rect_is_two_triangles() {
    let mut c = ctx(vec![vec![true]]);
    c.window_width = 40;
    c.window_height = 20;
    let r = c.rect(Coord { x: 10, y: 0 }, Color::Live);
    let expected = [
        (-ONE / 2, -ONE),
        (0, -ONE),
        (0, 0),
        (-ONE / 2, -ONE),
        (0, 0),
        (-ONE / 2, 0),
    ];
    for k in 0..6 {
        assert_eq!(
            r[k],
            Vertex { position: Position { x: expected[k].0, y: expected[k].1 }, color: Color::Live }
        );
    }
}

#[test]
fn vertices_match_single_precision_arithmetic() {
    let mut c = RenderCtx::new(Grid::new(800, 800));
    c.grid.randomize();
    c.resize(PhysicalSize { width: 1367, height: 763 });
    let vertices = c.update_vertex();
    let (rows, columns) = (c.grid.height(), c.grid.width());
    assert_eq!((rows, columns), (76, 136));
    assert_eq!(vertices.len(), rows * columns * 6);
    let normalize = |x: f32, y: f32| [(x / 1367.0f32) * 2.0 - 1.0, (y / 763.0f32) * 2.0 - 1.0];
    for y in 0..rows {
        for x in 0..columns {
            let (px, py) = (x as f32 * 10.0, y as f32 * 10.0);
            let [x0, y0] = normalize(px, py);
            let [x1, y1] = normalize(px + 10.0, py + 10.0);
            let expected = [[x0, y0], [x1, y0], [x1, y1], [x0, y0], [x1, y1], [x0, y1]];
            for k in 0..6 {
                let v = vertices[(y * columns + x) * 6 + k];
                assert_eq!(single(&v), expected[k]);
                let color = if c.grid.grid[y][x] { Color::Live } else { Color::Dead };
                assert_eq!(v.color, color);
            }
        }
    }
}

#[test]
fn neighboring_cells_share_their_edges() {
    let c = RenderCtx::new(Grid::new(800, 800));
    let v = c.update_vertex();
    for y in 0..79 {
        for x in 0..79 {
            let here = (y * 80 + x) * 6;
            assert_eq!(v[here + 1].position, v[here + 6].position);
            assert_eq!(v[here + 5].position, v[here + 480].position);
        }
    }
    assert_eq!(v[0].position, Position { x: -ONE, y: -ONE });
    assert_eq!(v[38398].position, Position { x: ONE, y: ONE });
}

#[test]
fn rects_share_their_edges_at_every_coordinate() {
    let mut c = ctx(vec![vec![true]]);
    let far = 1u128 << 65;
    for (w, h) in [(800, 800), (1367, 763), (7, u32::MAX)] {
        c.window_width = w;
        c.window_height = h;
        for (x, y) in [(0, 0), (10, 790), (3, 17), (33554440, 33554450), (far, far - 12345)] {
            let right = Coord { x: end_of(x), y };
            let below = Coord { x, y: end_of(y) };
            let a = c.rect(Coord { x, y }, Color::Live);
            let b = c.rect(right, Color::Dead);
            let d = c.rect(below, Color::Dead);
            assert_eq!(a[1].position, b[0].position);
            assert_eq!(a[2].position, b[5].position);
            assert_eq!(a[5].position, d[0].position);
            assert_eq!(a[2].position, d[1].position);
        }
    }
    assert_eq!(end_of(33554440), 33554448);
}

#[test]
fn picture_stays_on_screen() {
    let mut c = RenderCtx::new(Grid::new(800, 800));
    c.resize(PhysicalSize { width: 1919, height: 1079 });
    for v in c.update_vertex() {
        assert!(-ONE <= v.position.x && v.position.x <= ONE);
        assert!(-ONE <= v.position.y && v.position.y <= ONE);
    }
}

#[test]
fn pictures_of_different_boards_differ() {
    let one = ctx(vec![vec![true, false], vec![false, false]]);
    let other = ctx(vec![vec![true, false], vec![false, true]]);
    assert_ne!(one.update_vertex(), other.update_vertex());
    assert_eq!(one.update_vertex(), ctx(one.grid.grid.clone()).update_vertex());
}

#[test]
fn buffers_take_turns() {
    let mut c = ctx(vec![vec![true, false]]);
    let first = c.draw();
    let second = c.draw();
    let third = c.draw();
    assert_eq!((first.buffer, second.buffer, third.buffer), (0, 1, 0));
    assert_eq!(c.frame_index, 1);
    assert_eq!(first.vertex_count, 12);
    assert_eq!(first.vertices.len(), 12);
    assert_eq!(first.vertices, third.vertices);
}

#[test]
fn resize_fits_board_and_buffers() {
    let mut c = RenderCtx::new(Grid::new(800, 800));
    c.grid.grid[0] = vec![true; 80];
    c.draw();
    c.resize(PhysicalSize { width: 105, height: 57 });
    assert_eq!((c.window_width, c.window_height, c.frame_index), (105, 57, 1));
    assert_eq!((c.grid.width(), c.grid.height()), (10, 5));
    assert_eq!(c.grid.grid[0], vec![true; 10]);
    assert_eq!(c.grid.grid[1], vec![false; 10]);
    assert_eq!(c.vertex_buffer_len, 359);
    assert!(c.fits_buffer());
}

#[test]
fn enlarging_the_window_loses_nothing() {
    let mut c = RenderCtx::new(Grid::new(800, 800));
    c.grid.randomize();
    let before = c.grid.clone();
    c.resize(PhysicalSize { width: 1003, height: 801 });
    c.resize(PhysicalSize { width: 800, height: 800 });
    assert_eq!(c.grid.grid, before.grid);
    assert_eq!(c.vertex_buffer_len, 38400);
}

#[test]
fn grid_update_lets_a_generation_pass() {
    let mut c = ctx(vec![vec![true, true], vec![true, false]]);
    c.grid_update();
    assert_eq!(c.grid.grid, vec![vec![true, true], vec![true, true]]);
    assert_eq!(c.frame_index, 0);
}

#[test]
fn short_buffer_does_not_take_the_picture() {
    let mut c = ctx(vec![vec![true, true]]);
    c.vertex_buffer_len = 11;
    assert!(!c.fits_buffer());
    c.vertex_buffer_len = 12;
    assert!(c.fits_buffer());
    assert!(ctx(vec![]).fits_buffer());
    assert_eq!(ctx(vec![]).update_vertex().len(), 0);
}
