//! The picture of the board: two triangles for every cell.
use crate::grid;
use crate::grid::{Grid, PhysicalSize};
use crate::layout;
use crate::life;
use crate::single;
use vstd::arithmetic::div_mod::{lemma_fundamental_div_mod, lemma_fundamental_div_mod_converse};
use vstd::arithmetic::power2::lemma2_to64;
use vstd::prelude::*;

verus! {

/// Vertex buffers that take turns from frame to frame.
pub const VERTEX_BUFFERS: usize = 2;

/// A point of the window, in pixels from its upper left corner.
#[derive(Clone, Copy, Debug, PartialEq, Eq, Structural)]
pub struct Coord {
    pub x: u128,
    pub y: u128,
}

/// A point of the screen as the graphics device counts it, from minus one to one
/// in either direction, in parts (see [`layout::DEVICE_PARTS`]).
#[derive(Clone, Copy, Debug, PartialEq, Eq, Structural)]
pub struct Position {
    pub x: i128,
    pub y: i128,
}

/// The colour of a cell.
#[derive(Clone, Copy, Debug, PartialEq, Eq, Structural)]
pub enum Color {
    Live,
    Dead,
}

/// A corner of a triangle.
#[derive(Clone, Copy, Debug, PartialEq, Eq, Structural)]
pub struct Vertex {
    pub position: Position,
    pub color: Color,
}

/// The two triangles of a cell.
pub type Rect = [Vertex; 6];

/// Everything about the picture but the graphics device: the board, the vertex
/// buffer whose turn it is, the size of the window and the number of vertices
/// for which each buffer has room.
#[derive(Debug)]
pub struct RenderCtx {
    pub grid: Grid,
    pub frame_index: usize,
    pub window_width: u32,
    pub window_height: u32,
    pub vertex_buffer_len: u64,
}

/// What one frame draws: `vertices` go to the front of the buffer numbered
/// `buffer`, of which the first `vertex_count` are drawn.
#[derive(Debug)]
pub struct Frame {
    pub buffer: usize,
    pub vertices: Vec<Vertex>,
    pub vertex_count: u32,
}

/// The colour that tells a live cell from a dead one.
pub open spec fn cell_color(alive: bool) -> Color {
    if alive {
        Color::Live
    } else {
        Color::Dead
    }
}

/// Where the graphics device sees a point of a window of this size.
pub open spec fn normalized(width: nat, height: nat, x: nat, y: nat) -> Position {
    Position {
        x: layout::device_position(x, width) as i128,
        y: layout::device_position(y, height) as i128,
    }
}

/// The vertices, in a window of this size, of the cell whose upper left corner
/// is `x` pixels from the left and `y` from the top: the triangle above the
/// diagonal that falls to the right, then the one below it.
pub open spec fn rect_vertices(width: nat, height: nat, x: nat, y: nat, color: Color) -> Seq<
    Vertex,
> {
    let (nx, ny) = (layout::cell_end(x), layout::cell_end(y));
    seq![
        Vertex { position: normalized(width, height, x, y), color },
        Vertex { position: normalized(width, height, nx, y), color },
        Vertex { position: normalized(width, height, nx, ny), color },
        Vertex { position: normalized(width, height, x, y), color },
        Vertex { position: normalized(width, height, nx, ny), color },
        Vertex { position: normalized(width, height, x, ny), color },
    ]
}

/// The vertices, in a window of this size, of the cell at row `y`, column `x`.
pub open spec fn cell_vertices(width: nat, height: nat, y: int, x: int, color: Color) -> Seq<
    Vertex,
> {
    let (left, top) = (layout::cell_origin(x as nat), layout::cell_origin(y as nat));
    rect_vertices(width, height, left, top, color)
}

/// The number of vertices of a board.
pub open spec fn vertex_total(g: Seq<Seq<bool>>) -> int {
    g.len() * life::width(g) * layout::RECT_VERTICES
}

/// The vertices of a board in a window of this size: those of its cells, one
/// cell after the other, row by row.
pub open spec fn vertices(width: nat, height: nat, g: Seq<Seq<bool>>) -> Seq<Vertex> {
    Seq::new(vertex_total(g) as nat, |i: int| vertex_at(width, height, g, i))
}

/// The vertex numbered `i` of a board in a window of this size.
pub open spec fn vertex_at(width: nat, height: nat, g: Seq<Seq<bool>>, i: int) -> Vertex {
    let cell = i / 6;
    let y = cell / life::width(g) as int;
    let x = cell % life::width(g) as int;
    cell_vertices(width, height, y, x, cell_color(g[y][x]))[i % 6]
}

proof fn lemma_vertex_slot(width: nat, height: nat, g: Seq<Seq<bool>>, y: int, x: int, k: int)
    requires
        0 <= y < g.len(),
        0 <= x < life::width(g),
        0 <= k < 6,
    ensures
        0 <= (y * life::width(g) + x) * 6 + k < vertex_total(g),
        vertex_at(width, height, g, (y * life::width(g) + x) * 6 + k) == cell_vertices(
            width,
            height,
            y,
            x,
            cell_color(g[y][x]),
        )[k],
{
    let w = life::width(g) as int;
    let cell = y * w + x;
    lemma_fundamental_div_mod_converse(cell, w, y, x);
    assert(0 <= cell < g.len() * w) by (nonlinear_arith)
        requires
            cell == y * w + x,
            0 <= y < g.len(),
            0 <= x < w,
    ;
    let i = cell * 6 + k;
    assert(i / 6 == cell && i % 6 == k);
}

/// The buffer whose turn comes after that of buffer `i`.
pub open spec fn next_buffer(i: int) -> int {
    (i + 1) % VERTEX_BUFFERS as int
}

/// Vertex `k` of the cell at row `y`, column `x` is number
/// `(y * width + x) * 6 + k` of the picture.
pub proof fn law_vertex_places(
    width: nat,
    height: nat,
    g: Seq<Seq<bool>>,
    y: int,
    x: int,
    k: int,
)
    requires
        0 <= y < g.len(),
        0 <= x < life::width(g),
        0 <= k < layout::RECT_VERTICES,
    ensures
        0 <= (y * life::width(g) + x) * layout::RECT_VERTICES + k < vertices(
            width,
            height,
            g,
        ).len(),
        vertices(width, height, g)[(y * life::width(g) + x) * layout::RECT_VERTICES + k]
            == cell_vertices(
            width,
            height,
            y,
            x,
            cell_color(g[y][x]),
        )[k],
{
    lemma_vertex_slot(width, height, g, y, x, k);
}

/// No two vertices share a place: of their row, column and number in the cell,
/// each follows from the number in the picture.
pub proof fn law_vertex_places_differ(w: nat, y: int, x: int, k: int, y2: int, x2: int, k2: int)
    requires
        0 <= y && 0 <= x < w && 0 <= k < layout::RECT_VERTICES,
        0 <= y2 && 0 <= x2 < w && 0 <= k2 < layout::RECT_VERTICES,
        (y * w + x) * layout::RECT_VERTICES + k == (y2 * w + x2) * layout::RECT_VERTICES + k2,
    ensures
        y == y2 && x == x2 && k == k2,
{
    lemma_fundamental_div_mod_converse(y * w + x, w as int, y, x);
    lemma_fundamental_div_mod_converse(y2 * w + x2, w as int, y2, x2);
}

/// The picture shows the board: boards of one shape with the same vertices are
/// the same.
pub proof fn law_picture_shows_board(
    width: nat,
    height: nat,
    g: Seq<Seq<bool>>,
    h: Seq<Seq<bool>>,
)
    requires
        life::rectangular(g),
        life::rectangular(h),
        g.len() == h.len(),
        life::width(g) == life::width(h),
        vertices(width, height, g) == vertices(width, height, h),
    ensures
        g == h,
{
    assert forall|y: int| 0 <= y < g.len() implies #[trigger] g[y] == h[y] by {
        assert forall|x: int| 0 <= x < life::width(g) implies g[y][x] == h[y][x] by {
            law_vertex_places(width, height, g, y, x, 0);
            law_vertex_places(width, height, h, y, x, 0);
        }
        assert(g[y] =~= h[y]);
    }
    assert(g =~= h);
}

/// Each direction is measured by the window's own side, whatever the window's
/// proportions: a point `x` pixels from the left lies, within rounding, at
/// `2 * x / width - 1`, and one `y` pixels from the top at `2 * y / height - 1`.
/// The left and the top edge lie at minus one and the right and the lower edge
/// at one.
pub proof fn law_points_are_measured_by_the_windows_sides(width: nat, height: nat, x: nat, y: nat)
    requires
        0 < width <= 0xffff_ffff,
        0 < height <= 0xffff_ffff,
        x <= 0x8_0000_0000_0000_0000,
        y <= 0x8_0000_0000_0000_0000,
    ensures
        ({
            let p = normalized(width, height, x, y);
            let one = 0x100_0000_0000_0000int;
            &&& p.x == layout::device_position(x, width)
            &&& p.y == layout::device_position(y, height)
            &&& (p.x * width - (2 * x - width) * one) * 0x10_0000 <= (x + width) * one
            &&& ((2 * x - width) * one - p.x * width) * 0x10_0000 <= (x + width) * one
            &&& (p.y * height - (2 * y - height) * one) * 0x10_0000 <= (y + height) * one
            &&& ((2 * y - height) * one - p.y * height) * 0x10_0000 <= (y + height) * one
            &&& x == 0 ==> p.x == -one
            &&& y == 0 ==> p.y == -one
            &&& x == width && width <= 0x100_0000 ==> p.x == one
            &&& y == height && height <= 0x100_0000 ==> p.y == one
        }),
{
    layout::lemma_position_bound(x, width);
    layout::lemma_position_bound(y, height);
    layout::law_position_within_rounding(x, width);
    layout::law_position_within_rounding(y, height);
    layout::law_window_reaches_edge_to_edge(width);
    layout::law_window_reaches_edge_to_edge(height);
    lemma2_to64();
    if width <= 0x100_0000 {
        single::lemma_nearest_exact(width, width, 0);
    }
    if height <= 0x100_0000 {
        single::lemma_nearest_exact(height, height, 0);
    }
}

/// A rectangle has six vertices of one colour. The second, third and fifth lie
/// on its right edge and the others on its left; the third, fifth and sixth on
/// its lower edge and the others on its upper. Right and lower edge lie ten
/// pixels, as near as a single comes, from left and upper.
pub proof fn law_vertices_are_corners(
    width: nat,
    height: nat,
    x: nat,
    y: nat,
    color: Color,
    k: int,
)
    requires
        0 < width <= 0xffff_ffff,
        0 < height <= 0xffff_ffff,
        x <= 0x2_0000_0000_0000_0000,
        y <= 0x2_0000_0000_0000_0000,
        0 <= k < 6,
    ensures
        ({
            let r = rect_vertices(width, height, x, y, color);
            let px = if k == 1 || k == 2 || k == 4 {
                single::nearest(x + 10, 1)
            } else {
                x
            };
            let py = if k == 2 || k == 4 || k == 5 {
                single::nearest(y + 10, 1)
            } else {
                y
            };
            &&& r.len() == 6
            &&& r[k].color == color
            &&& r[k].position.x == layout::device_position(px, width)
            &&& r[k].position.y == layout::device_position(py, height)
        }),
{
    single::lemma_nearest_whole_error(x + 10);
    single::lemma_nearest_whole_error(y + 10);
    layout::lemma_position_bound(x, width);
    layout::lemma_position_bound(y, height);
    layout::lemma_position_bound(single::nearest(x + 10, 1), width);
    layout::lemma_position_bound(single::nearest(y + 10, 1), height);
}

/// The picture, vertex by vertex, for every board and every window: the six
/// vertices of the cell at row `row`, column `column` come after those of the
/// rows above and of the columns to the left; they have the live colour if and
/// only if the cell is alive; and they lie, within rounding, where a window of
/// this width and height has the corners of the ten pixels by ten at that
/// column and row. The outermost corners lie on the edges of the window.
pub proof fn law_picture_vertex_by_vertex(ctx: RenderCtx, row: int, column: int, k: int)
    requires
        ctx.window_width > 0,
        ctx.window_height > 0,
        0 <= row < ctx.grid.grid@.len(),
        forall|y: int|
            0 <= y < ctx.grid.grid@.len() ==> (#[trigger] ctx.grid.grid@[y])@.len()
                == ctx.grid.grid@[0]@.len(),
        0 <= column < ctx.grid.grid@[0]@.len(),
        ctx.grid.grid@.len() * ctx.grid.grid@[0]@.len() * 6 <= u64::MAX,
        0 <= k < 6,
    ensures
        ({
            let rows = ctx.grid.grid@;
            let columns = rows[0]@.len();
            let (w, h) = (ctx.window_width as int, ctx.window_height as int);
            let one = 0x100_0000_0000_0000int;
            let v = ctx.picture()[(row * columns + column) * 6 + k];
            let c = if k == 1 || k == 2 || k == 4 {
                column + 1
            } else {
                column
            };
            let r = if k == 2 || k == 4 || k == 5 {
                row + 1
            } else {
                row
            };
            &&& ctx.picture().len() == rows.len() * columns * 6
            &&& v.color is Live <==> rows[row]@[column]
            &&& v.color is Dead <==> !rows[row]@[column]
            &&& (v.position.x * w - (2 * (10 * c) - w) * one) * 0x8_0000 <= (10 * c + w) * one
            &&& ((2 * (10 * c) - w) * one - v.position.x * w) * 0x8_0000 <= (10 * c + w) * one
            &&& (v.position.y * h - (2 * (10 * r) - h) * one) * 0x8_0000 <= (10 * r + h) * one
            &&& ((2 * (10 * r) - h) * one - v.position.y * h) * 0x8_0000 <= (10 * r + h) * one
            &&& c == 0 ==> v.position.x == -one
            &&& r == 0 ==> v.position.y == -one
            &&& 10 * c == w && w <= 0x100_0000 ==> v.position.x == one
            &&& 10 * r == h && h <= 0x100_0000 ==> v.position.y == one
        }),
{
    let g = ctx.grid@;
    let rows = ctx.grid.grid@;
    assert(g[0] == rows[0]@ && g[row] == rows[row]@);
    let (w, h) = (ctx.window_width as nat, ctx.window_height as nat);
    assert(column * 6 <= u64::MAX && row * 6 <= u64::MAX) by (nonlinear_arith)
        requires
            0 <= row < rows.len(),
            0 <= column < rows[0]@.len(),
            rows.len() * rows[0]@.len() * 6 <= u64::MAX,
    ;
    lemma_vertex_slot(w, h, g, row, column, k);
    let (left, top) = (layout::cell_origin(column as nat), layout::cell_origin(row as nat));
    layout::law_cell_edges_within_rounding(column as nat);
    layout::law_cell_edges_within_rounding(row as nat);
    law_vertices_are_corners(w, h, left, top, cell_color(g[row][column]), k);
    lemma_corner_position(
        column as nat,
        w,
        k == 1 || k == 2 || k == 4,
    );
    lemma_corner_position(
        row as nat,
        h,
        k == 2 || k == 4 || k == 5,
    );
}

/// The near or far edge of a cell lies, within rounding, where the multiple of
/// ten pixels lies, and exactly so on the edges of the window.
proof fn lemma_corner_position(index: nat, side: nat, far: bool)
    requires
        0 < side <= 0xffff_ffff,
    ensures
        ({
            let pixel = if far {
                layout::cell_end(layout::cell_origin(index))
            } else {
                layout::cell_origin(index)
            };
            let c = if far {
                index + 1
            } else {
                index
            };
            let q = layout::device_position(pixel, side);
            let one = 0x100_0000_0000_0000int;
            &&& (q * side - (2 * (10 * c) - side) * one) * 0x8_0000 <= (10 * c + side) * one
            &&& ((2 * (10 * c) - side) * one - q * side) * 0x8_0000 <= (10 * c + side) * one
            &&& c == 0 ==> q == -one
            &&& 10 * c == side && side <= 0x100_0000 ==> q == one
        }),
{
    let pixel = if far {
        layout::cell_end(layout::cell_origin(index))
    } else {
        layout::cell_origin(index)
    };
    let c = if far {
        index + 1
    } else {
        index
    };
    layout::law_cell_edges_within_rounding(index);
    layout::law_position_within_rounding(pixel, side);
    layout::law_window_reaches_edge_to_edge(side);
    assert((pixel - 10 * c) * 0x40_0000 <= 10 * c && (10 * c - pixel) * 0x40_0000 <= 10 * c);
    if 10 * c == side && side <= 0x100_0000 {
        lemma2_to64();
        layout::law_cells_lie_edge_to_edge(index);
        single::lemma_nearest_exact(side, side, 0);
    }
}

/// What it means for a picture to be in order: rows of one length, one of the
/// two buffers, and a window with a width and a height around any cells.
pub proof fn law_picture_in_order(ctx: RenderCtx)
    ensures
        ctx.wf() <==> {
            let rows = ctx.grid.grid@;
            &&& forall|i: int, j: int|
                0 <= i < rows.len() && 0 <= j < rows.len() ==> (#[trigger] rows[i])@.len() == (
                #[trigger] rows[j])@.len()
            &&& ctx.frame_index == 0 || ctx.frame_index == 1
            &&& rows.len() > 0 && rows[0]@.len() > 0 ==> ctx.window_width > 0
                && ctx.window_height > 0
        },
{
    grid::law_board_shows_its_rows(ctx.grid);
    if ctx.grid.grid@.len() > 0 {
        assert(ctx.grid@[0] == ctx.grid.grid@[0]@);
    }
}

/// What it means for a picture to fit its window and its buffers: as many rows
/// and columns of cells as the height and the width hold, buffers of the room
/// that width and height ask for; and room for six vertices for every cell.
pub proof fn law_picture_fits(ctx: RenderCtx)
    ensures
        ctx.fits_window() <==> {
            let rows = ctx.grid.grid@;
            let (w, h) = (ctx.window_width as nat, ctx.window_height as nat);
            &&& rows.len() == layout::cell_count(h)
            &&& rows.len() > 0 ==> rows[0]@.len() == layout::cell_count(w)
            &&& ctx.vertex_buffer_len == layout::vertex_room(w, h)
        },
        ctx.picture_fits() <==> {
            let rows = ctx.grid.grid@;
            rows.len() == 0 || {
                &&& rows.len() * rows[0]@.len() * 6 <= ctx.vertex_buffer_len
                &&& rows.len() * rows[0]@.len() * 6 <= usize::MAX
            }
        },
        ctx.grid.grid@.len() > 0 ==> vertex_total(ctx.grid@) == ctx.grid.grid@.len()
            * ctx.grid.grid@[0]@.len() * 6,
        ctx.grid.grid@.len() == 0 ==> vertex_total(ctx.grid@) == 0,
{
    grid::law_board_shows_its_rows(ctx.grid);
    if ctx.grid.grid@.len() > 0 {
        assert(ctx.grid@[0] == ctx.grid.grid@[0]@);
    }
}

/// What it means for two pictures to differ in the board alone.
pub proof fn law_same_but_grid(one: RenderCtx, other: RenderCtx)
    ensures
        one.same_but_grid(other) <==> {
            one == (RenderCtx { grid: one.grid, ..other })
        },
{
}

/// Neighbouring rectangles share their edge, without gap or overlap, wherever
/// they lie: the right edge of the one at `(x, y)` is the left edge of the one
/// that begins where it ends, and its lower edge is the upper edge of the one
/// below.
pub proof fn law_neighbors_share_their_edge(
    width: nat,
    height: nat,
    x: nat,
    y: nat,
    color: Color,
    right_color: Color,
    below_color: Color,
)
    ensures
        ({
            let a = rect_vertices(width, height, x, y, color);
            let b = rect_vertices(width, height, layout::cell_end(x), y, right_color);
            let d = rect_vertices(width, height, x, layout::cell_end(y), below_color);
            &&& a[1].position == b[0].position
            &&& a[2].position == b[5].position
            &&& a[5].position == d[0].position
            &&& a[2].position == d[1].position
        }),
{
}

/// Among the first 3355444 rows and columns, the triangles of the cell at row
/// `y`, column `x` fill the square of ten pixels a side that begins `10 * x`
/// pixels from the left and `10 * y` from the top: they share its diagonal and
/// have one of the other corners each.
pub proof fn law_cells_tile_the_window(width: nat, height: nat, y: int, x: int, color: Color)
    requires
        0 <= y < 3_355_444,
        0 <= x < 3_355_444,
    ensures
        ({
            let r = cell_vertices(width, height, y, x, color);
            let (left, top) = ((10 * x) as nat, (10 * y) as nat);
            let (right, bottom) = ((10 * (x + 1)) as nat, (10 * (y + 1)) as nat);
            &&& r.len() == layout::RECT_VERTICES
            &&& r[0].position == normalized(width, height, left, top)
            &&& r[1].position == normalized(width, height, right, top)
            &&& r[2].position == normalized(width, height, right, bottom)
            &&& r[3] == r[0]
            &&& r[4] == r[2]
            &&& r[5].position == normalized(width, height, left, bottom)
            &&& forall|k: int| 0 <= k < r.len() ==> (#[trigger] r[k]).color == color
        }),
{
    layout::law_cells_lie_edge_to_edge(x as nat);
    layout::law_cells_lie_edge_to_edge(y as nat);
}

/// The picture of a board that fits its window stays on the screen, if neither
/// side of the window has 16777219 pixels or more.
pub proof fn law_picture_stays_on_screen(ctx: RenderCtx, i: int)
    requires
        ctx.wf(),
        ctx.fits_window(),
        ctx.window_width < 16_777_219,
        ctx.window_height < 16_777_219,
        0 <= i < ctx.picture().len(),
    ensures
        -layout::DEVICE_PARTS <= ctx.picture()[i].position.x <= layout::DEVICE_PARTS,
        -layout::DEVICE_PARTS <= ctx.picture()[i].position.y <= layout::DEVICE_PARTS,
{
    let g = ctx.grid@;
    let (w, h) = (life::width(g) as int, g.len() as int);
    let cell = i / 6;
    assert(w > 0 && h > 0) by (nonlinear_arith)
        requires
            0 <= i < h * w * 6,
            0 <= w,
            0 <= h,
    ;
    let (y, x) = (cell / w, cell % w);
    lemma_fundamental_div_mod(cell, w);
    assert(0 <= y < h && 0 <= x < w) by (nonlinear_arith)
        requires
            cell == w * y + x,
            0 <= cell < h * w,
            0 <= x < w,
    ;
    layout::law_cell_count_is_quotient(ctx.window_width as nat);
    layout::law_cell_count_is_quotient(ctx.window_height as nat);
    layout::law_cells_lie_edge_to_edge(x as nat);
    layout::law_cells_lie_edge_to_edge(y as nat);
    layout::law_cells_lie_in_window(x as nat, ctx.window_width as nat);
    layout::law_cells_lie_in_window(y as nat, ctx.window_height as nat);
}

/// The buffers of a window with fewer than 5592407 cells have room for the
/// whole picture.
pub proof fn law_picture_fits_buffer(ctx: RenderCtx)
    requires
        ctx.wf(),
        ctx.fits_window(),
        ctx.grid@.len() * life::width(ctx.grid@) < 5_592_407,
    ensures
        ctx.picture_fits(),
{
    if ctx.grid@.len() > 0 {
        let (w, h) = (ctx.window_width as nat, ctx.window_height as nat);
        assert(layout::cell_count(w) * layout::cell_count(h) == layout::cell_count(h)
            * layout::cell_count(w)) by (nonlinear_arith);
        layout::law_vertex_room_suffices(w, h);
    }
}

/// Enlarging a window and giving it its size back loses no cell.
pub proof fn law_enlarging_the_window_loses_nothing(ctx: RenderCtx, wider: nat, higher: nat)
    requires
        ctx.wf(),
        ctx.fits_window(),
        ctx.grid@.len() > 0,
        ctx.window_width <= wider,
        ctx.window_height <= higher,
    ensures
        life::resized(
            life::resized(ctx.grid@, layout::cell_count(higher), layout::cell_count(wider)),
            layout::cell_count(ctx.window_height as nat),
            layout::cell_count(ctx.window_width as nat),
        ) == ctx.grid@,
{
    layout::law_cell_count_monotone(ctx.window_width as nat, wider);
    layout::law_cell_count_monotone(ctx.window_height as nat, higher);
    life::law_grow_and_shrink_back(
        ctx.grid@,
        layout::cell_count(higher),
        layout::cell_count(wider),
    );
}

/// The two buffers take turns.
pub proof fn law_buffers_take_turns(i: int)
    requires
        i == 0 || i == 1,
    ensures
        next_buffer(i) == 1 - i,
        next_buffer(next_buffer(i)) == i,
{
}

impl RenderCtx {
    /// The board is rectangular, the buffer whose turn it is exists, and a window
    /// around cells has a width and a height.
    pub open spec fn wf(self) -> bool {
        &&& self.grid.wf()
        &&& self.frame_index < VERTEX_BUFFERS
        &&& self.grid@.len() > 0 && life::width(self.grid@) > 0 ==> self.window_width > 0
            && self.window_height > 0
    }

    /// The vertices of the board in the window.
    pub open spec fn picture(self) -> Seq<Vertex> {
        vertices(self.window_width as nat, self.window_height as nat, self.grid@)
    }

    /// The board has the cells that the window holds, and the buffers have the
    /// room that the window asks for.
    pub open spec fn fits_window(self) -> bool {
        &&& self.grid@.len() == layout::cell_count(self.window_height as nat)
        &&& self.grid@.len() > 0 ==> life::width(self.grid@) == layout::cell_count(
            self.window_width as nat,
        )
        &&& self.vertex_buffer_len == layout::vertex_room(
            self.window_width as nat,
            self.window_height as nat,
        )
    }

    /// A vertex buffer takes the vertices of the whole board.
    pub open spec fn picture_fits(self) -> bool {
        &&& vertex_total(self.grid@) <= self.vertex_buffer_len
        &&& vertex_total(self.grid@) <= usize::MAX
    }

    /// All but the board is the same.
    pub open spec fn same_but_grid(self, other: Self) -> bool {
        &&& self.frame_index == other.frame_index
        &&& self.window_width == other.window_width
        &&& self.window_height == other.window_height
        &&& self.vertex_buffer_len == other.vertex_buffer_len
    }

    /// The picture of a board in a window that has just opened.
    pub fn new(grid: Grid) -> (r: Self)
        requires
            grid.wf(),
        ensures
            r.wf(),
            r.grid == grid,
            r.frame_index == 0,
            r.window_width == layout::WINDOW_WIDTH,
            r.window_height == layout::WINDOW_HEIGHT,
            r.vertex_buffer_len == layout::vertex_room(
                layout::WINDOW_WIDTH as nat,
                layout::WINDOW_HEIGHT as nat,
            ),
    {
        RenderCtx {
            grid,
            frame_index: 0,
            window_width: layout::WINDOW_WIDTH,
            window_height: layout::WINDOW_HEIGHT,
            vertex_buffer_len: layout::vertex_buffer_len(
                layout::WINDOW_WIDTH,
                layout::WINDOW_HEIGHT,
            ),
        }
    }

    /// Where the graphics device sees a point of the window.
    pub fn normalize_coord(&self, coord: Coord) -> (r: Position)
        requires
            self.window_width > 0,
            self.window_height > 0,
            coord.x <= 0x8_0000_0000_0000_0000,
            coord.y <= 0x8_0000_0000_0000_0000,
        ensures
            r == normalized(
                self.window_width as nat,
                self.window_height as nat,
                coord.x as nat,
                coord.y as nat,
            ),
    {
        let x: i128 = layout::position_of(coord.x, self.window_width);
        let y: i128 = layout::position_of(coord.y, self.window_height);
        Position { x, y }
    }

    /// The two triangles of the cell whose upper left corner is `coord`.
    pub fn rect(&self, coord: Coord, color: Color) -> (r: Rect)
        requires
            self.window_width > 0,
            self.window_height > 0,
            coord.x <= 0x2_0000_0000_0000_0000,
            coord.y <= 0x2_0000_0000_0000_0000,
        ensures
            r@ == rect_vertices(
                self.window_width as nat,
                self.window_height as nat,
                coord.x as nat,
                coord.y as nat,
                color,
            ),
    {
        let Position { x, y } = self.normalize_coord(coord);
        let far = Coord { x: layout::end_of(coord.x), y: layout::end_of(coord.y) };
        let Position { x: nx, y: ny } = self.normalize_coord(far);
        let r = [
            Vertex { position: Position { x, y }, color },
            Vertex { position: Position { x: nx, y }, color },
            Vertex { position: Position { x: nx, y: ny }, color },
            Vertex { position: Position { x, y }, color },
            Vertex { position: Position { x: nx, y: ny }, color },
            Vertex { position: Position { x, y: ny }, color },
        ];
        assert(r@ == rect_vertices(
            self.window_width as nat,
            self.window_height as nat,
            coord.x as nat,
            coord.y as nat,
            color,
        ));
        r
    }

    /// The vertices of the board, in the order in which they lie in a vertex
    /// buffer.
    pub fn update_vertex(&self) -> (r: Vec<Vertex>)
        requires
            self.wf(),
            self.picture_fits(),
        ensures
            r@ == self.picture(),
    {
        let ghost g = self.grid@;
        let ghost w = life::width(g) as int;
        let ghost (ww, wh) = (self.window_width as nat, self.window_height as nat);
        let mut r: Vec<Vertex> = Vec::new();
        let mut y: usize = 0;
        while y < self.grid.grid.len()
            invariant
                g == self.grid@,
                self.wf(),
                w == life::width(g),
                ww == self.window_width,
                wh == self.window_height,
                vertex_total(g) <= u64::MAX,
                y <= g.len(),
                r.len() == y * w * 6,
                forall|i: int| 0 <= i < r.len() ==> #[trigger] r[i] == vertex_at(ww, wh, g, i),
            decreases g.len() - y,
        {
            assert(g[y as int] == self.grid.grid@[y as int]@);
            let mut x: usize = 0;
            assert((y * w + 0) * 6 == y * w * 6);
            while x < self.grid.grid[y].len()
                invariant
                    g == self.grid@,
                    self.wf(),
                    w == life::width(g),
                    ww == self.window_width,
                    wh == self.window_height,
                    x <= w,
                    vertex_total(g) <= u64::MAX,
                    y < g.len(),
                    g[y as int] == self.grid.grid@[y as int]@,
                    r.len() == (y * w + x) * 6,
                    forall|i: int| 0 <= i < r.len() ==> #[trigger] r[i] == vertex_at(ww, wh, g, i),
                decreases w - x,
            {
                let color = if self.grid.grid[y][x] {
                    Color::Live
                } else {
                    Color::Dead
                };
                assert(x * 6 <= u64::MAX && y * 6 <= u64::MAX) by (nonlinear_arith)
                    requires
                        0 <= x < w,
                        0 <= y < g.len(),
                        g.len() * w * 6 <= u64::MAX,
                ;
                let coord = Coord { x: layout::origin_of(x), y: layout::origin_of(y) };
                let rect = self.rect(coord, color);
                let mut vertex_index: usize = 0;
                while vertex_index < 6
                    invariant
                        g == self.grid@,
                        w == life::width(g),
                        y < g.len(),
                        x < w,
                        rect@ == cell_vertices(
                            ww,
                            wh,
                            y as int,
                            x as int,
                            cell_color(g[y as int][x as int]),
                        ),
                        vertex_index <= 6,
                        r.len() == (y * w + x) * 6 + vertex_index,
                        forall|i: int| 0 <= i < r.len() ==> #[trigger] r[i] == vertex_at(ww, wh, g, i),
                    decreases 6 - vertex_index,
                {
                    proof {
                        lemma_vertex_slot(ww, wh, g, y as int, x as int, vertex_index as int);
                    }
                    r.push(rect[vertex_index]);
                    vertex_index = vertex_index + 1;
                }
                x = x + 1;
            }
            assert((y * w + w) * 6 == (y + 1) * w * 6) by (nonlinear_arith);
            y = y + 1;
        }
        assert(r@ == self.picture());
        r
    }

    /// Whether a vertex buffer takes the vertices of the whole board.
    pub fn fits_buffer(&self) -> (r: bool)
        requires
            self.wf(),
        ensures
            r == self.picture_fits(),
    {
        if self.grid.height() == 0 {
            return true;
        }
        let (width, height): (usize, usize) = (self.grid.width(), self.grid.height());
        assert(height * width <= 0xffff_ffff_ffff_ffff * 0xffff_ffff_ffff_ffff) by (nonlinear_arith)
            requires
                0 <= height <= 0xffff_ffff_ffff_ffff,
                0 <= width <= 0xffff_ffff_ffff_ffff,
        ;
        let cells: u128 = height as u128 * width as u128;
        cells <= (self.vertex_buffer_len / 6) as u128 && cells <= (usize::MAX / 6) as u128
    }

    /// Lets a generation pass.
    pub fn grid_update(&mut self)
        requires
            old(self).wf(),
            old(self).grid@.len() > 0,
        ensures
            final(self).wf(),
            final(self).grid@ == life::step(old(self).grid@),
            final(self).same_but_grid(*old(self)),
            old(self).fits_window() ==> final(self).fits_window(),
    {
        self.grid.update();
    }

    /// Fits board and buffers to a window that has changed its size.
    pub fn resize(&mut self, physical_size: PhysicalSize)
        requires
            old(self).wf(),
            old(self).grid@.len() > 0,
        ensures
            final(self).wf(),
            final(self).fits_window(),
            final(self).window_width == physical_size.width,
            final(self).window_height == physical_size.height,
            final(self).grid@ == life::resized(
                old(self).grid@,
                layout::cell_count(physical_size.height as nat),
                layout::cell_count(physical_size.width as nat),
            ),
            final(self).frame_index == old(self).frame_index,
    {
        self.window_width = physical_size.width;
        self.window_height = physical_size.height;
        self.grid.resize(physical_size);
        self.vertex_buffer_len = layout::vertex_buffer_len(
            physical_size.width,
            physical_size.height,
        );
    }

    /// The number of cells of the board.
    pub fn grid_len(&self) -> (len: usize)
        requires
            self.grid@.len() > 0,
            self.grid@.len() * life::width(self.grid@) <= usize::MAX,
        ensures
            len == self.grid@.len() * life::width(self.grid@),
    {
        let (width, height): (usize, usize) = (self.grid.width(), self.grid.height());
        assert(width * height == height * width) by (nonlinear_arith);
        width * height
    }

    /// Draws the board into the buffer whose turn it is, and passes the turn on.
    pub fn draw(&mut self) -> (frame: Frame)
        requires
            old(self).wf(),
            old(self).grid@.len() > 0,
            old(self).picture_fits(),
        ensures
            final(self).wf(),
            final(self).grid == old(self).grid,
            final(self).frame_index == next_buffer(old(self).frame_index as int),
            final(self).window_width == old(self).window_width,
            final(self).window_height == old(self).window_height,
            final(self).vertex_buffer_len == old(self).vertex_buffer_len,
            frame.buffer == old(self).frame_index,
            frame.vertices@ == old(self).picture(),
            frame.vertex_count == vertex_total(old(self).grid@) % 0x1_0000_0000,
            frame.vertices.len() <= u32::MAX ==> frame.vertex_count == frame.vertices.len(),
    {
        let vertices = self.update_vertex();
        let buffer: usize = self.frame_index;
        let total: u64 = (self.grid_len() * layout::RECT_VERTICES) as u64;
        assert(total as u32 == total % 0x1_0000_0000) by (bit_vector);
        let vertex_count: u32 = #[verifier::truncate]
        (total as u32);
        self.frame_index = (self.frame_index + 1) % VERTEX_BUFFERS;
        Frame { buffer, vertices, vertex_count }
    }
}

} // verus!
