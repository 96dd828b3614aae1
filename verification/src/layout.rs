//! How a window is divided into cells, and how many vertices it takes.
//!
//! A side of so many pixels holds as many cells as its single-precision
//! quotient by the cell size has whole units.
use crate::single;
use vstd::arithmetic::div_mod::{lemma_fundamental_div_mod, lemma_fundamental_div_mod_converse};
use vstd::arithmetic::power2::{
    lemma2_to64, lemma2_to64_rest, lemma_pow2_adds, lemma_pow2_pos, pow2,
};
use vstd::prelude::*;

verus! {

/// Width of the window when it opens, in pixels.
pub const WINDOW_WIDTH: u32 = 800;

/// Height of the window when it opens, in pixels.
pub const WINDOW_HEIGHT: u32 = 800;

/// Side of a cell, in pixels.
pub const CELL_SIZE: u128 = 10;

/// Vertices of the two triangles that paint one cell.
pub const RECT_VERTICES: usize = 6;

/// Parts of a cell in which fractions of cells are counted: so small that a
/// tenth of a cell fills the significand of a single.
pub const PARTS: u128 = 0x800_0000;

/// Parts of a unit in which a product of two such fractions is counted.
pub const PART_SQUARES: u128 = 0x40_0000_0000_0000;

/// Parts in which positions on the screen are counted, half the window being
/// the unit: so small that a pixel fills the significand of a single.
pub const DEVICE_PARTS: u128 = 0x100_0000_0000_0000;

/// The single-precision quotient of a side by the cell size, in parts.
pub open spec fn side_parts(pixels: nat) -> nat {
    single::nearest(single::nearest(pixels, 1) * PARTS as nat, CELL_SIZE as nat)
}

/// The number of cells along a side of so many pixels.
pub open spec fn cell_count(pixels: nat) -> nat {
    side_parts(pixels) / PARTS as nat
}

/// The number of vertices for which a window of this size reserves room: the
/// single-precision product of its two quotients, times the vertices of a
/// cell, without its fraction.
pub open spec fn vertex_room(width: nat, height: nat) -> nat {
    single::nearest(
        single::nearest(side_parts(width) * side_parts(height), 1) * RECT_VERTICES as nat,
        1,
    ) / PART_SQUARES as nat
}

/// The pixel at which the cell of this index begins.
pub open spec fn cell_origin(index: nat) -> nat {
    single::nearest(single::nearest(index, 1) * CELL_SIZE as nat, 1)
}

/// The pixel at which a cell that begins at `origin` ends.
pub open spec fn cell_end(origin: nat) -> nat {
    single::nearest(origin + CELL_SIZE as nat, 1)
}

/// The position of a pixel along a side of the window, in parts: twice its
/// share of the side, less one, rounded after every operation.
pub open spec fn device_position(pixel: nat, side: nat) -> int {
    let share = single::nearest(pixel * DEVICE_PARTS as nat, single::nearest(side, 1));
    let p = 2 * share - DEVICE_PARTS;
    if p < 0 {
        -single::nearest((-p) as nat, 1)
    } else {
        single::nearest(p as nat, 1) as int
    }
}

/// A side of fewer than 16777219 pixels holds one cell for each full ten
/// pixels. That many pixels are rounded up to the next full ten.
pub proof fn law_cell_count_is_quotient(pixels: nat)
    requires
        pixels < 16_777_219,
    ensures
        cell_count(pixels) == pixels / 10,
{
    lemma2_to64();
    let s = single::nearest(pixels, 1);
    if pixels <= single::SIGNIFICANDS {
        single::lemma_nearest_exact(pixels, pixels, 0);
    } else {
        single::lemma_nearest_at_least(pixels, 1, 0x80_0000, 1);
        single::lemma_nearest_at_most(pixels, 1, 0x80_0001, 1);
        if pixels == 16_777_217 {
            assert(single::half_even(pixels, 2) == 0x80_0000);
        } else {
            assert(single::half_even(pixels, 2) == 0x80_0001);
        }
    }
    let cells = pixels / 10;
    assert(s / 10 == cells && s % 10 <= 9 && (s % 10 == 9 ==> s < single::SIGNIFICANDS));
    let parts = side_parts(pixels);
    assert(pow2(27) == PARTS);
    if s > 0 {
        single::lemma_nearest_at_least(s * PARTS as nat, 10, cells, 27);
        single::lemma_nearest_error(s * PARTS as nat, 10);
        assert((parts * 10 - s * 0x800_0000) * 0x100_0000 <= s * 0x800_0000);
        assert(parts * 10 - s * 0x800_0000 <= s * 8);
        assert(parts < (cells + 1) * 0x800_0000);
        assert(cells * 0x800_0000 <= parts);
    } else {
        assert(single::nearest(0, CELL_SIZE as nat) == 0);
    }
}

/// A longer side never holds fewer cells.
pub proof fn law_cell_count_monotone(pixels: nat, more: nat)
    requires
        pixels <= more,
    ensures
        cell_count(pixels) <= cell_count(more),
{
    lemma_side_parts_monotone(pixels, more);
}

/// A window of fewer than 5592407 cells reserves room for all their vertices.
/// One of 55924070 by 10 pixels has that many, and is two vertices short.
pub proof fn law_vertex_room_suffices(width: nat, height: nat)
    requires
        cell_count(width) * cell_count(height) < 5_592_407,
    ensures
        cell_count(width) * cell_count(height) * 6 <= vertex_room(width, height),
{
    let (a, b) = (side_parts(width), side_parts(height));
    let (u, v) = (cell_count(width), cell_count(height));
    let cells = u * v;
    lemma2_to64_rest();
    assert(PART_SQUARES == pow2(54) && 4 * PART_SQUARES == pow2(56));
    assert(u * 0x800_0000 <= a && v * 0x800_0000 <= b);
    assert(cells * 0x40_0000_0000_0000 <= a * b) by (nonlinear_arith)
        requires
            cells == u * v,
            u * 0x800_0000 <= a,
            v * 0x800_0000 <= b,
            u >= 0,
            v >= 0,
    ;
    single::lemma_nearest_at_least(a * b, 1, cells, 54);
    let product = single::nearest(a * b, 1);
    let n = product * RECT_VERTICES as nat;
    assert(cells * 6 * 0x40_0000_0000_0000 <= n);
    if cells <= 5_592_405 {
        assert(2 * PART_SQUARES == pow2(55));
        single::lemma_nearest_at_least(n, 1, 3 * cells, 55);
    } else {
        single::lemma_nearest_at_least(n, 1, 8_388_609, 56);
    }
}

/// The first 3355444 cells of a row or column lie edge to edge, ten pixels
/// each. The next one would end at a pixel that a single cannot express.
pub proof fn law_cells_lie_edge_to_edge(index: nat)
    requires
        index < 3_355_444,
    ensures
        cell_origin(index) == index * 10,
        cell_end(cell_origin(index)) == (index + 1) * 10,
{
    lemma2_to64();
    single::lemma_nearest_exact(index, index, 0);
    single::lemma_nearest_exact(index * 10, index * 5, 1);
    if index < 3_355_443 {
        single::lemma_nearest_exact((index + 1) * 10, (index + 1) * 5, 1);
    } else {
        single::lemma_nearest_exact((index + 1) * 10, 8_388_610, 2);
    }
}

/// The picture reaches from edge to edge: the first pixel of a side lies at
/// minus one, and the end of the side, as a single, at one.
pub proof fn law_window_reaches_edge_to_edge(side: nat)
    requires
        side > 0,
    ensures
        device_position(0, side) == -0x100_0000_0000_0000,
        device_position(single::nearest(side, 1), side) == 0x100_0000_0000_0000,
{
    lemma2_to64();
    lemma2_to64_rest();
    let s = single::nearest(side, 1);
    single::lemma_nearest_at_least(side, 1, 1, 0);
    assert(single::nearest(0, s) == 0);
    single::lemma_nearest_exact(DEVICE_PARTS as nat, 1, 56);
    let n = s * DEVICE_PARTS as nat;
    assert(1 * pow2(56) * s == n) by (nonlinear_arith)
        requires
            pow2(56) == 0x100_0000_0000_0000,
            n == s * 0x100_0000_0000_0000,
    ;
    single::lemma_nearest_at_least(n, s, 1, 56);
    single::lemma_nearest_at_most(n, s, 1, 56);
}

/// A pixel further along never comes to lie before another.
pub proof fn law_device_position_monotone(pixel: nat, further: nat, side: nat)
    requires
        side > 0,
        pixel <= further,
    ensures
        device_position(pixel, side) <= device_position(further, side),
{
    lemma2_to64();
    let s = single::nearest(side, 1);
    single::lemma_nearest_at_least(side, 1, 1, 0);
    let (m, n) = (pixel * DEVICE_PARTS as nat, further * DEVICE_PARTS as nat);
    single::lemma_nearest_monotone(m, n, s);
    let p = 2 * single::nearest(m, s) - DEVICE_PARTS;
    let q = 2 * single::nearest(n, s) - DEVICE_PARTS;
    if q < 0 {
        single::lemma_nearest_monotone((-q) as nat, (-p) as nat, 1);
    } else if p >= 0 {
        single::lemma_nearest_monotone(p as nat, q as nat, 1);
    }
}

/// The cells of a side of fewer than 16777219 pixels lie within the window.
pub proof fn law_cells_lie_in_window(index: nat, side: nat)
    requires
        side < 16_777_219,
        index < cell_count(side),
    ensures
        -DEVICE_PARTS <= device_position(cell_origin(index), side),
        device_position(cell_origin(index), side) <= device_position(
            cell_end(cell_origin(index)),
            side,
        ),
        device_position(cell_end(cell_origin(index)), side) <= DEVICE_PARTS,
{
    lemma2_to64();
    law_cell_count_is_quotient(side);
    law_cells_lie_edge_to_edge(index);
    law_window_reaches_edge_to_edge(side);
    let (origin, end) = (cell_origin(index), cell_end(cell_origin(index)));
    single::lemma_nearest_at_least(side, 1, end, 0);
    law_device_position_monotone(0, origin, side);
    law_device_position_monotone(origin, end, side);
    law_device_position_monotone(end, single::nearest(side, 1), side);
}

/// On every side, however long, the cells take up the pixels but for less than
/// one cell and for rounding: they are no more than one part in two to the
/// twenty-second too many or too few.
pub proof fn law_cells_take_up_the_side(pixels: nat)
    ensures
        (cell_count(pixels) * 10 - pixels) * 0x40_0000 <= pixels,
        (pixels - (cell_count(pixels) + 1) * 10) * 0x40_0000 <= pixels,
{
    let s = single::nearest(pixels, 1);
    single::lemma_nearest_whole_error(pixels);
    let parts = side_parts(pixels);
    if s > 0 {
        single::lemma_nearest_error(s * PARTS as nat, CELL_SIZE as nat);
        assert((parts * 10 - s * 0x800_0000) * 0x100_0000 <= s * 0x800_0000);
        assert((s * 0x800_0000 - parts * 10) * 0x100_0000 <= s * 0x800_0000);
    } else {
        assert(single::nearest(0, CELL_SIZE as nat) == 0);
    }
    let cells = cell_count(pixels);
    assert(cells * 0x800_0000 <= parts < (cells + 1) * 0x800_0000);
}

/// The number of cells does not hang on the unit in which the quotient is
/// counted: it is the whole part of the single nearest to a tenth of the side,
/// itself a single, in every unit that is fine enough.
pub proof fn law_cell_count_in_every_unit(pixels: nat, k: nat)
    requires
        27 <= k,
    ensures
        cell_count(pixels) == single::nearest(single::nearest(pixels, 1) * pow2(k), 10) / pow2(k),
{
    let i = (k - 27) as nat;
    lemma_side_in_finer_unit(pixels, i);
    lemma_unit(27, i);
    lemma_quotient_in_finer_unit(side_parts(pixels), PARTS as nat, i);
}

/// The room for vertices does not hang on the unit either: it is the whole part
/// of six times the product of the two quotients, rounded after every step.
pub proof fn law_vertex_room_in_every_unit(width: nat, height: nat, k: nat)
    requires
        27 <= k,
    ensures
        ({
            let a = single::nearest(single::nearest(width, 1) * pow2(k), 10);
            let b = single::nearest(single::nearest(height, 1) * pow2(k), 10);
            vertex_room(width, height) == single::nearest(single::nearest(a * b, 1) * 6, 1) / (
            pow2(k) * pow2(k))
        }),
{
    let i = (k - 27) as nat;
    lemma_side_in_finer_unit(width, i);
    lemma_side_in_finer_unit(height, i);
    lemma_unit(27, i);
    lemma_pow2_adds(i, i);
    let (a, b) = (side_parts(width), side_parts(height));
    let (u, v) = (pow2(i), pow2(i + i));
    assert((a * u) * (b * u) == (a * b) * v) by (nonlinear_arith)
        requires
            v == u * u,
    ;
    single::law_whole_number_in_a_finer_unit(a * b, i + i);
    let cells = single::nearest(a * b, 1);
    assert((cells * v) * 6 == (cells * 6) * v) by (nonlinear_arith);
    single::law_whole_number_in_a_finer_unit(cells * 6, i + i);
    assert(pow2(k) * pow2(k) == PART_SQUARES * v) by (nonlinear_arith)
        requires
            pow2(k) == 0x800_0000 * u,
            v == u * u,
            PART_SQUARES == 0x40_0000_0000_0000,
    ;
    lemma_quotient_in_finer_unit(single::nearest(cells * 6, 1), PART_SQUARES as nat, i + i);
}

/// A window of `columns` by `rows` whole cells reserves exactly six vertices for
/// each, as long as these are no more than a single counts one by one.
pub proof fn law_vertex_room_of_whole_cells(columns: nat, rows: nat)
    requires
        columns <= 1_677_721,
        rows <= 1_677_721,
        columns * rows * 6 <= 0x100_0000,
    ensures
        vertex_room(columns * 10, rows * 10) == columns * rows * 6,
{
    lemma2_to64();
    lemma2_to64_rest();
    lemma_side_of_whole_cells(columns);
    lemma_side_of_whole_cells(rows);
    let cells = columns * rows;
    let (a, b) = (side_parts(columns * 10), side_parts(rows * 10));
    assert(a * b == cells * 0x40_0000_0000_0000) by (nonlinear_arith)
        requires
            a == columns * 0x800_0000,
            b == rows * 0x800_0000,
            cells == columns * rows,
    ;
    single::lemma_nearest_exact(a * b, cells, 54);
    single::lemma_nearest_exact(a * b * 6, cells * 6, 54);
}

/// A larger window never reserves less room.
pub proof fn law_vertex_room_monotone(width: nat, height: nat, wider: nat, higher: nat)
    requires
        width <= wider,
        height <= higher,
    ensures
        vertex_room(width, height) <= vertex_room(wider, higher),
{
    lemma_side_parts_monotone(width, wider);
    lemma_side_parts_monotone(height, higher);
    let (a, b) = (side_parts(width), side_parts(height));
    let (c, d) = (side_parts(wider), side_parts(higher));
    assert(a * b <= c * d) by (nonlinear_arith)
        requires
            0 <= a <= c,
            0 <= b <= d,
    ;
    single::lemma_nearest_monotone(a * b, c * d, 1);
    single::lemma_nearest_monotone(
        single::nearest(a * b, 1) * RECT_VERTICES as nat,
        single::nearest(c * d, 1) * RECT_VERTICES as nat,
        1,
    );
}

/// Where a cell begins and ends, however far out: ten times its index, and ten
/// pixels further, each the single that is nearest, and so no more than one
/// part in two to the twenty-second from the multiple of ten.
pub proof fn law_cell_edges_within_rounding(index: nat)
    ensures
        cell_origin(index) == single::nearest(single::nearest(index, 1) * 10, 1),
        (cell_origin(index) - index * 10) * 0x40_0000 <= index * 10,
        (index * 10 - cell_origin(index)) * 0x40_0000 <= index * 10,
        cell_end(cell_origin(index)) == single::nearest(cell_origin(index) + 10, 1),
        (cell_end(cell_origin(index)) - (index + 1) * 10) * 0x40_0000 <= (index + 1) * 10,
        ((index + 1) * 10 - cell_end(cell_origin(index))) * 0x40_0000 <= (index + 1) * 10,
{
    let r = single::nearest(index, 1);
    let o = cell_origin(index);
    single::lemma_nearest_whole_error(index);
    single::lemma_nearest_whole_error(r * 10);
    single::lemma_nearest_whole_error(o + 10);
    assert(100 * r <= 101 * index);
    assert((o - index * 10) * 0x100_0000 <= 21 * index);
    assert((index * 10 - o) * 0x100_0000 <= 21 * index);
    assert(o <= 11 * index);
}

/// A cell ends at the single nearest to ten pixels after its beginning.
pub proof fn law_cell_ends_ten_pixels_on(origin: nat)
    ensures
        cell_end(origin) == single::nearest(origin + 10, 1),
        (cell_end(origin) - (origin + 10)) * 0x100_0000 <= origin + 10,
        ((origin + 10) - cell_end(origin)) * 0x100_0000 <= origin + 10,
{
    single::lemma_nearest_whole_error(origin + 10);
}

/// A pixel lies at twice its share of the side less one, within rounding, on
/// every side that a window can have.
pub proof fn law_position_within_rounding(pixel: nat, side: nat)
    requires
        0 < side <= 0xffff_ffff,
    ensures
        (device_position(pixel, side) * side - (2 * pixel - side) * 0x100_0000_0000_0000)
            * 0x10_0000 <= (pixel + side) * 0x100_0000_0000_0000,
        ((2 * pixel - side) * 0x100_0000_0000_0000 - device_position(pixel, side) * side)
            * 0x10_0000 <= (pixel + side) * 0x100_0000_0000_0000,
{
    lemma2_to64();
    let s = single::nearest(side, 1);
    single::lemma_nearest_whole_error(side);
    single::lemma_nearest_at_least(side, 1, 1, 0);
    single::lemma_nearest_at_most(side, 1, 1, 32);
    let n = pixel * 0x100_0000_0000_0000;
    let share = single::nearest(n, s);
    if pixel > 0 {
        single::lemma_nearest_error(n, s);
    } else {
        assert(single::nearest(0, s) == 0);
        assert(share * s == 0) by (nonlinear_arith)
            requires
                share == 0,
        ;
    }
    // The share, times the side, is the pixel within rounding.
    let rs = share * s;
    let rd = share * side;
    assert((rd - rs) * 0x100_0000 <= rd && (rs - rd) * 0x100_0000 <= rd) by (nonlinear_arith)
        requires
            rs == share * s,
            rd == share * side,
            (s - side) * 0x100_0000 <= side,
            (side - s) * 0x100_0000 <= side,
            share >= 0,
    ;
    assert((rs - n) * 0x100_0000 <= n && (n - rs) * 0x100_0000 <= n);
    assert((rd - n) * 0x100_0000 <= 3 * n && (n - rd) * 0x100_0000 <= 3 * n);
    // So is the position before the last rounding.
    let p = 2 * share - 0x100_0000_0000_0000;
    let pd = p * side;
    assert(pd == 2 * rd - side * 0x100_0000_0000_0000) by (nonlinear_arith)
        requires
            pd == p * side,
            p == 2 * share - 0x100_0000_0000_0000,
            rd == share * side,
    ;
    let a = if p < 0 {
        (-p) as nat
    } else {
        p as nat
    };
    single::lemma_nearest_whole_error(a);
    let q = device_position(pixel, side);
    assert(q == if p < 0 {
        -single::nearest(a, 1)
    } else {
        single::nearest(a, 1) as int
    });
    let qd = q * side;
    let ad = a * side;
    assert((qd - pd) * 0x100_0000 <= ad && (pd - qd) * 0x100_0000 <= ad) by (nonlinear_arith)
        requires
            qd == q * side,
            pd == p * side,
            ad == a * side,
            (q - p) * 0x100_0000 <= a,
            (p - q) * 0x100_0000 <= a,
            side > 0,
    ;
    assert(ad == pd || ad == -pd) by (nonlinear_arith)
        requires
            ad == a * side,
            pd == p * side,
            a == p || a == -p,
    ;
    let whole = side * 0x100_0000_0000_0000;
    assert((2 * pixel - side) * 0x100_0000_0000_0000 == 2 * n - whole);
    assert(ad <= 3 * n + whole);
    assert((qd - (2 * n - whole)) * 0x100_0000 <= 9 * n + whole);
    assert(((2 * n - whole) - qd) * 0x100_0000 <= 9 * n + whole);
    assert((pixel + side) * 0x100_0000_0000_0000 == n + whole);
}

/// Positions do not hang on the unit in which they are counted.
pub proof fn law_position_in_every_unit(pixel: nat, side: nat, k: nat)
    requires
        0 < side <= 0xffff_ffff,
        56 <= k,
    ensures
        ({
            let share = single::nearest(pixel * pow2(k), single::nearest(side, 1));
            let p = 2 * share - pow2(k);
            device_position(pixel, side) * pow2((k - 56) as nat) == if p < 0 {
                -single::nearest((-p) as nat, 1)
            } else {
                single::nearest(p as nat, 1) as int
            }
        }),
{
    lemma2_to64();
    let i = (k - 56) as nat;
    let u = pow2(i);
    lemma_pow2_pos(i);
    lemma_unit(56, i);
    let s = single::nearest(side, 1);
    single::lemma_nearest_at_least(side, 1, 1, 0);
    single::lemma_nearest_at_most(side, 1, 1, 32);
    let n = pixel * DEVICE_PARTS as nat;
    assert(pixel * pow2(k) == n * u) by (nonlinear_arith)
        requires
            pow2(k) == 0x100_0000_0000_0000 * u,
            n == pixel * 0x100_0000_0000_0000,
    ;
    single::law_nearest_in_a_finer_unit(n, s, i);
    let share = single::nearest(n, s);
    let p = 2 * share - DEVICE_PARTS;
    assert(2 * (share * u) - pow2(k) == p * u) by (nonlinear_arith)
        requires
            pow2(k) == 0x100_0000_0000_0000 * u,
            p == 2 * share - 0x100_0000_0000_0000,
    ;
    if p < 0 {
        assert(p * u < 0 && -(p * u) == (-p) * u) by (nonlinear_arith)
            requires
                p < 0,
                u > 0,
        ;
        single::law_whole_number_in_a_finer_unit((-p) as nat, i);
        let r = single::nearest((-p) as nat, 1);
        assert((-r) * u == -(r * u)) by (nonlinear_arith);
    } else {
        assert(p * u >= 0) by (nonlinear_arith)
            requires
                p >= 0,
                u > 0,
        ;
        single::law_whole_number_in_a_finer_unit(p as nat, i);
    }
}

/// A pixel this near lies at a position of which 128 bits are enough.
pub proof fn lemma_position_bound(pixel: nat, side: nat)
    requires
        0 < side <= 0xffff_ffff,
        pixel <= 0x8_0000_0000_0000_0000,
    ensures
        i128::MIN <= device_position(pixel, side) <= i128::MAX,
{
    law_position_within_rounding(pixel, side);
    let q = device_position(pixel, side);
    assert(q <= q * side || q <= 0) by (nonlinear_arith)
        requires
            side >= 1,
    ;
    assert(q * side <= q || q >= 0) by (nonlinear_arith)
        requires
            side >= 1,
    ;
}

proof fn lemma_unit(b: nat, i: nat)
    requires
        b == 27 || b == 56,
    ensures
        pow2(b + i) == pow2(b) * pow2(i),
        pow2(27) == PARTS,
        pow2(56) == DEVICE_PARTS,
        pow2(i) > 0,
{
    lemma2_to64();
    lemma2_to64_rest();
    lemma_pow2_adds(b, i);
    lemma_pow2_pos(i);
}

proof fn lemma_side_in_finer_unit(pixels: nat, i: nat)
    ensures
        single::nearest(single::nearest(pixels, 1) * pow2(27 + i), 10) == side_parts(pixels)
            * pow2(i),
{
    lemma_unit(27, i);
    let s = single::nearest(pixels, 1);
    let n = s * PARTS as nat;
    assert(s * pow2(27 + i) == n * pow2(i)) by (nonlinear_arith)
        requires
            pow2(27 + i) == 0x800_0000 * pow2(i),
            n == s * 0x800_0000,
    ;
    single::law_nearest_in_a_finer_unit(n, 10, i);
}

proof fn lemma_quotient_in_finer_unit(n: nat, d: nat, i: nat)
    requires
        d > 0,
    ensures
        (n * pow2(i)) / (d * pow2(i)) == n / d,
{
    lemma_pow2_pos(i);
    let u = pow2(i);
    lemma_fundamental_div_mod(n as int, d as int);
    let (q, r) = (n / d, n % d);
    assert(n * u == q * (d * u) + r * u && 0 <= r * u < d * u) by (nonlinear_arith)
        requires
            n == d * q + r,
            0 <= r < d,
            u > 0,
    ;
    lemma_fundamental_div_mod_converse(
        (n * u) as int,
        (d * u) as int,
        q as int,
        (r * u) as int,
    );
}

proof fn lemma_side_of_whole_cells(cells: nat)
    requires
        cells <= 1_677_721,
    ensures
        side_parts(cells * 10) == cells * 0x800_0000,
{
    lemma2_to64();
    single::lemma_nearest_exact(cells * 10, cells * 10, 0);
    let n = (cells * 10) * PARTS as nat;
    single::lemma_nearest_at_least(n, 10, cells, 27);
    single::lemma_nearest_at_most(n, 10, cells, 27);
}

proof fn lemma_side_parts_monotone(pixels: nat, more: nat)
    requires
        pixels <= more,
    ensures
        side_parts(pixels) <= side_parts(more),
{
    single::lemma_nearest_monotone(pixels, more, 1);
    let a = single::nearest(pixels, 1) * PARTS as nat;
    let b = single::nearest(more, 1) * PARTS as nat;
    single::lemma_nearest_monotone(a, b, CELL_SIZE as nat);
}

proof fn lemma_side_parts_bound(pixels: nat)
    ensures
        320 * side_parts(pixels) <= 0x1_2100_0000 * pixels,
        16 * single::nearest(pixels, 1) <= 17 * pixels,
{
    let s = single::nearest(pixels, 1);
    single::lemma_nearest_growth(pixels, 1);
    if s > 0 {
        single::lemma_nearest_growth(s * PARTS as nat, CELL_SIZE as nat);
        let parts = side_parts(pixels);
        assert(16 * (parts * 10) <= 17 * (s * 0x800_0000));
        assert(160 * parts <= 0x8800_0000 * s);
        assert(0x8800_0000 * (16 * s) <= 0x8800_0000 * (17 * pixels));
    } else {
        assert(single::nearest(0, CELL_SIZE as nat) == 0);
    }
}

/// Computes [`side_parts`].
fn side_in_parts(pixels: u64) -> (parts: u128)
    ensures
        parts == side_parts(pixels as nat),
{
    proof {
        lemma_side_parts_bound(pixels as nat);
    }
    let whole: u128 = single::round(pixels as u128, 1);
    single::round(whole * PARTS, CELL_SIZE)
}

/// The number of cells along a side of so many pixels.
pub fn cells_along(pixels: usize) -> (cells: usize)
    ensures
        cells == cell_count(pixels as nat),
{
    proof {
        lemma_side_parts_bound(pixels as nat);
    }
    let cells: u128 = side_in_parts(pixels as u64) / PARTS;
    cells as usize
}

/// The number of vertices for which a window of this size reserves room.
pub fn vertex_buffer_len(width: u32, height: u32) -> (len: u64)
    ensures
        len == vertex_room(width as nat, height as nat),
{
    let across: u128 = side_in_parts(width as u64);
    let down: u128 = side_in_parts(height as u64);
    proof {
        lemma_side_parts_bound(width as nat);
        lemma_side_parts_bound(height as nat);
        // An eighth of a cell for each pixel is more than either side has.
        assert(across <= 0x100_0000_0000_0000 && down <= 0x100_0000_0000_0000);
        assert(across * down <= 0x100_0000_0000_0000 * 0x100_0000_0000_0000)
            by (nonlinear_arith)
            requires
                0 <= across <= 0x100_0000_0000_0000,
                0 <= down <= 0x100_0000_0000_0000,
        ;
        single::lemma_nearest_growth((across * down) as nat, 1);
    }
    let cells: u128 = single::round(across * down, 1);
    proof {
        single::lemma_nearest_growth((cells * RECT_VERTICES) as nat, 1);
    }
    let vertices: u128 = single::round(cells * RECT_VERTICES as u128, 1);
    (vertices / PART_SQUARES) as u64
}

/// The pixel at which the cell of this index begins.
pub fn origin_of(index: usize) -> (origin: u128)
    ensures
        origin == cell_origin(index as nat),
        origin <= 12 * index,
{
    proof {
        single::lemma_nearest_growth(index as nat, 1);
        single::lemma_nearest_growth(single::nearest(index as nat, 1) * CELL_SIZE as nat, 1);
    }
    let index: u128 = single::round(index as u128, 1);
    single::round(index * CELL_SIZE, 1)
}

/// The pixel at which a cell that begins at `origin` ends.
pub fn end_of(origin: u128) -> (end: u128)
    requires
        origin <= u128::MAX / 16,
    ensures
        end == cell_end(origin as nat),
        end <= 2 * (origin + CELL_SIZE),
{
    proof {
        single::lemma_nearest_growth(origin as nat + CELL_SIZE as nat, 1);
    }
    single::round(origin + CELL_SIZE, 1)
}

/// The position of a pixel along a side of the window, in parts.
pub fn position_of(pixel: u128, side: u32) -> (position: i128)
    requires
        side > 0,
        pixel <= 0x8_0000_0000_0000_0000,
    ensures
        position == device_position(pixel as nat, side as nat),
{
    let s: u128 = single::round(side as u128, 1);
    proof {
        lemma2_to64();
        single::lemma_nearest_at_least(side as nat, 1, 1, 0);
        single::lemma_nearest_at_most(side as nat, 1, 1, 32);
        let n = pixel as nat * DEVICE_PARTS as nat;
        let share = single::nearest(n, s as nat);
        if pixel > 0 {
            single::lemma_nearest_growth(n, s as nat);
            assert(share <= share * s) by (nonlinear_arith)
                requires
                    s >= 1,
                    share >= 0,
            ;
        } else {
            assert(single::nearest(0, s as nat) == 0);
        }
        let p = 2 * share - DEVICE_PARTS;
        single::lemma_nearest_growth(if p < 0 { (-p) as nat } else { p as nat }, 1);
    }
    let doubled: u128 = 2 * single::round(pixel * DEVICE_PARTS, s);
    if doubled < DEVICE_PARTS {
        -(single::round(DEVICE_PARTS - doubled, 1) as i128)
    } else {
        single::round(doubled - DEVICE_PARTS, 1) as i128
    }
}

} // verus!
