//! The rules of the game on mathematical patterns, and what follows from them.
//!
//! A pattern is a sequence of rows, from the top; a row is a sequence of cells,
//! from the left; a cell is alive or dead. Nothing lives beyond the border.
use vstd::prelude::*;

verus! {

/// The common length of the rows of a rectangular pattern.
pub open spec fn width(g: Seq<Seq<bool>>) -> nat {
    if g.len() == 0 {
        0
    } else {
        g[0].len()
    }
}

/// All rows are of one length.
pub open spec fn rectangular(g: Seq<Seq<bool>>) -> bool {
    forall|y: int| 0 <= y < g.len() ==> (#[trigger] g[y]).len() == width(g)
}

/// The pattern of `h` rows and `w` columns whose live cells `f` names.
pub open spec fn pattern(h: nat, w: nat, f: spec_fn(int, int) -> bool) -> Seq<Seq<bool>> {
    Seq::new(h, |y: int| Seq::new(w, |x: int| f(y, x)))
}

/// There is a live cell at row `y`, column `x`.
pub open spec fn alive(g: Seq<Seq<bool>>, y: int, x: int) -> bool {
    0 <= y < g.len() && 0 <= x < g[y].len() && g[y][x]
}

/// One for a live cell, zero for a dead one.
pub open spec fn tally(g: Seq<Seq<bool>>, y: int, x: int) -> int {
    if alive(g, y, x) {
        1
    } else {
        0
    }
}

/// The number of live cells among the eight around row `y`, column `x`.
pub open spec fn live_neighbors(g: Seq<Seq<bool>>, y: int, x: int) -> int {
    tally(g, y - 1, x - 1) + tally(g, y - 1, x) + tally(g, y - 1, x + 1) + tally(g, y, x - 1)
        + tally(g, y, x + 1) + tally(g, y + 1, x - 1) + tally(g, y + 1, x) + tally(
        g,
        y + 1,
        x + 1,
    )
}

/// A live cell lives on among two or three live neighbours; a dead one comes
/// to life among three.
pub open spec fn lives_next(alive: bool, neighbors: int) -> bool {
    neighbors == 3 || (alive && neighbors == 2)
}

/// Whether the cell at row `y`, column `x` is alive in the next generation.
pub open spec fn next_cell(g: Seq<Seq<bool>>, y: int, x: int) -> bool {
    lives_next(alive(g, y, x), live_neighbors(g, y, x))
}

/// The next generation.
pub open spec fn step(g: Seq<Seq<bool>>) -> Seq<Seq<bool>> {
    pattern(g.len(), width(g), |y: int, x: int| next_cell(g, y, x))
}

/// The pattern on `h` rows and `w` columns that keeps the upper left cells and
/// is dead elsewhere.
pub open spec fn resized(g: Seq<Seq<bool>>, h: nat, w: nat) -> Seq<Seq<bool>> {
    pattern(h, w, |y: int, x: int| alive(g, y, x))
}

/// The pattern upside down.
pub open spec fn flipped(g: Seq<Seq<bool>>) -> Seq<Seq<bool>> {
    pattern(g.len(), width(g), |y: int, x: int| alive(g, g.len() - 1 - y, x))
}

/// The pattern seen in a mirror.
pub open spec fn mirrored(g: Seq<Seq<bool>>) -> Seq<Seq<bool>> {
    pattern(g.len(), width(g), |y: int, x: int| alive(g, y, width(g) - 1 - x))
}

/// The pattern with rows and columns exchanged.
pub open spec fn transposed(g: Seq<Seq<bool>>) -> Seq<Seq<bool>> {
    pattern(width(g), g.len(), |y: int, x: int| alive(g, x, y))
}

/// The fate of a cell is a matter of how many of the eight places around it
/// hold a live cell: a dead one comes to life among exactly three, a live one
/// lives on among exactly two or three, and no other cell is alive in the next
/// generation. `live` is the set of those places; none lies beyond the border.
pub proof fn law_births_and_deaths(g: Seq<Seq<bool>>, y: int, x: int, live: Set<(int, int)>)
    requires
        forall|i: int| 0 <= i < g.len() ==> (#[trigger] g[i]).len() == g[0].len(),
        0 <= y < g.len(),
        0 <= x < g[0].len(),
        forall|i: int, j: int| #[trigger]
            live.contains((i, j)) <==> {
                &&& y - 1 <= i <= y + 1
                &&& x - 1 <= j <= x + 1
                &&& !(i == y && j == x)
                &&& 0 <= i < g.len()
                &&& 0 <= j < g[0].len()
                &&& g[i][j]
            },
    ensures
        live.finite(),
        step(g).len() == g.len(),
        step(g)[y].len() == g[0].len(),
        !g[y][x] ==> (step(g)[y][x] <==> live.len() == 3),
        g[y][x] ==> (step(g)[y][x] <==> live.len() == 2 || live.len() == 3),
{
    let e = Set::<(int, int)>::empty();
    let s1 = with_place(g, e, y - 1, x - 1);
    let s2 = with_place(g, s1, y - 1, x);
    let s3 = with_place(g, s2, y - 1, x + 1);
    let s4 = with_place(g, s3, y, x - 1);
    let s5 = with_place(g, s4, y, x + 1);
    let s6 = with_place(g, s5, y + 1, x - 1);
    let s7 = with_place(g, s6, y + 1, x);
    let s8 = with_place(g, s7, y + 1, x + 1);
    assert(s8.finite() && s8.len() == live_neighbors(g, y, x));
    assert forall|p: (int, int)| s8.contains(p) <==> live.contains(p) by {
        let (i, j) = p;
        assert(live.contains((i, j)) <==> live.contains(p));
    }
    assert(s8 =~= live);
}

/// The set of places `s`, and the place at row `y`, column `x` if a live cell
/// is there.
spec fn with_place(g: Seq<Seq<bool>>, s: Set<(int, int)>, y: int, x: int) -> Set<(int, int)> {
    if alive(g, y, x) {
        s.insert((y, x))
    } else {
        s
    }
}

/// What a resize leaves: a board of the new height and width in which a place
/// is alive if and only if the old board has that place and it was alive.
pub proof fn law_resize_place_by_place(g: Seq<Seq<bool>>, h: nat, w: nat, y: int, x: int)
    requires
        0 <= y < h,
        0 <= x < w,
    ensures
        resized(g, h, w).len() == h,
        resized(g, h, w)[y].len() == w,
        resized(g, h, w)[y][x] <==> y < g.len() && x < g[y].len() && g[y][x],
{
}

/// A resize to no rows leaves no rows.
pub proof fn law_resize_to_no_rows(g: Seq<Seq<bool>>, w: nat)
    ensures
        resized(g, 0, w).len() == 0,
{
}

/// The width of a board is the length of its first row; a board without rows
/// has none.
pub proof fn law_width_is_that_of_the_first_row(g: Seq<Seq<bool>>)
    ensures
        g.len() > 0 ==> width(g) == g[0].len(),
        g.len() == 0 ==> width(g) == 0,
{
}

/// A board is rectangular if and only if its rows are of one length.
pub proof fn law_rectangular_means_rows_of_one_length(g: Seq<Seq<bool>>)
    ensures
        rectangular(g) <==> forall|i: int, j: int|
            0 <= i < g.len() && 0 <= j < g.len() ==> (#[trigger] g[i]).len() == (
            #[trigger] g[j]).len(),
{
    if forall|i: int, j: int|
        0 <= i < g.len() && 0 <= j < g.len() ==> (#[trigger] g[i]).len() == (#[trigger] g[j]).len() {
        assert forall|y: int| 0 <= y < g.len() implies (#[trigger] g[y]).len() == width(g) by {
            assert(g[0].len() == g[y].len());
        }
    }
}

/// The next generation has the shape of this one.
pub proof fn law_step_keeps_shape(g: Seq<Seq<bool>>)
    ensures
        rectangular(step(g)),
        step(g).len() == g.len(),
        width(step(g)) == width(g),
{
}

/// A cell's next state depends on nothing but itself and its eight neighbours.
pub proof fn law_step_is_local(g: Seq<Seq<bool>>, h: Seq<Seq<bool>>, y: int, x: int)
    requires
        forall|i: int, j: int|
            y - 1 <= i <= y + 1 && x - 1 <= j <= x + 1 ==> #[trigger] alive(g, i, j) == alive(
                h,
                i,
                j,
            ),
    ensures
        next_cell(g, y, x) == next_cell(h, y, x),
{
}

/// Life comes only from life: a cell that is alive in the next generation has
/// one alive in this generation at most one row and one column away.
pub proof fn law_life_comes_from_life(g: Seq<Seq<bool>>, y: int, x: int)
    requires
        rectangular(g),
        alive(step(g), y, x),
    ensures
        exists|i: int, j: int|
            y - 1 <= i <= y + 1 && x - 1 <= j <= x + 1 && #[trigger] alive(g, i, j),
{
    assert(next_cell(g, y, x));
}

/// A board without life stays without life.
pub proof fn law_dead_board_stays_dead(g: Seq<Seq<bool>>)
    requires
        rectangular(g),
        forall|y: int, x: int| !alive(g, y, x),
    ensures
        step(g) == g,
{
    assert forall|y: int| 0 <= y < g.len() implies #[trigger] step(g)[y] == g[y] by {
        assert forall|x: int| 0 <= x < width(g) implies step(g)[y][x] == g[y][x] by {
            assert(!alive(g, y, x));
        }
        assert(step(g)[y] =~= g[y]);
    }
    assert(step(g) =~= g);
}

/// Turning a board upside down and letting a generation pass may be done in
/// either order.
pub proof fn law_step_commutes_with_flip(g: Seq<Seq<bool>>)
    requires
        rectangular(g),
    ensures
        step(flipped(g)) == flipped(step(g)),
{
    let f = flipped(g);
    let n = g.len();
    assert forall|y: int, x: int| #[trigger] alive(f, y, x) == alive(g, n - 1 - y, x) by {}
    assert forall|y: int| 0 <= y < n implies #[trigger] step(f)[y] == flipped(step(g))[y] by {
        assert forall|x: int| 0 <= x < width(g) implies step(f)[y][x] == flipped(step(g))[y][x] by {
            assert(live_neighbors(f, y, x) == live_neighbors(g, n - 1 - y, x));
            assert(alive(step(g), n - 1 - y, x) == next_cell(g, n - 1 - y, x));
        }
        assert(step(f)[y] =~= flipped(step(g))[y]);
    }
    assert(step(f) =~= flipped(step(g)));
}

/// Looking at a board in a mirror and letting a generation pass may be done in
/// either order.
pub proof fn law_step_commutes_with_mirror(g: Seq<Seq<bool>>)
    requires
        rectangular(g),
    ensures
        step(mirrored(g)) == mirrored(step(g)),
{
    let f = mirrored(g);
    let w = width(g);
    assert forall|y: int, x: int| #[trigger] alive(f, y, x) == alive(g, y, w - 1 - x) by {}
    assert forall|y: int| 0 <= y < g.len() implies #[trigger] step(f)[y] == mirrored(
        step(g),
    )[y] by {
        assert forall|x: int| 0 <= x < w implies step(f)[y][x] == mirrored(step(g))[y][x] by {
            assert(live_neighbors(f, y, x) == live_neighbors(g, y, w - 1 - x));
            assert(alive(step(g), y, w - 1 - x) == next_cell(g, y, w - 1 - x));
        }
        assert(step(f)[y] =~= mirrored(step(g))[y]);
    }
    assert(step(f) =~= mirrored(step(g)));
}

/// Exchanging rows and columns and letting a generation pass may be done in
/// either order.
pub proof fn law_step_commutes_with_transpose(g: Seq<Seq<bool>>)
    requires
        rectangular(g),
    ensures
        step(transposed(g)) == transposed(step(g)),
{
    let f = transposed(g);
    assert forall|y: int, x: int| #[trigger] alive(f, y, x) == alive(g, x, y) by {}
    assert forall|y: int| 0 <= y < width(g) implies #[trigger] step(f)[y] == transposed(
        step(g),
    )[y] by {
        assert forall|x: int| 0 <= x < g.len() implies step(f)[y][x] == transposed(
            step(g),
        )[y][x] by {
            assert(live_neighbors(f, y, x) == live_neighbors(g, x, y));
            assert(alive(step(g), x, y) == next_cell(g, x, y));
        }
        assert(step(f)[y] =~= transposed(step(g))[y]);
    }
    assert(step(f) =~= transposed(step(g)));
}

/// Two by two live cells, wherever they lie on a board that is dead elsewhere,
/// stay as they are.
pub proof fn law_block_is_still(h: nat, w: nat, top: int, left: int)
    requires
        0 <= top && top + 1 < h,
        0 <= left && left + 1 < w,
    ensures
        step(block(h, w, top, left)) == block(h, w, top, left),
{
    let g = block(h, w, top, left);
    assert forall|y: int, x: int| #[trigger] alive(g, y, x) == in_block(top, left, y, x) by {}
    assert forall|y: int| 0 <= y < h implies #[trigger] step(g)[y] == g[y] by {
        assert(step(g)[y] =~= g[y]);
    }
    assert(step(g) =~= g);
}

/// Row `y`, column `x` is one of the two by two from row `top`, column `left`.
pub open spec fn in_block(top: int, left: int, y: int, x: int) -> bool {
    top <= y <= top + 1 && left <= x <= left + 1
}

/// A board with two by two live cells.
pub open spec fn block(h: nat, w: nat, top: int, left: int) -> Seq<Seq<bool>> {
    pattern(h, w, |y: int, x: int| in_block(top, left, y, x))
}

/// A board with three live cells in a row, the middle one at row `my`, column
/// `mx`.
pub open spec fn bar(h: nat, w: nat, my: int, mx: int) -> Seq<Seq<bool>> {
    pattern(h, w, |y: int, x: int| y == my && mx - 1 <= x <= mx + 1)
}

/// A board with three live cells in a column, the middle one at row `my`,
/// column `mx`.
pub open spec fn pillar(h: nat, w: nat, my: int, mx: int) -> Seq<Seq<bool>> {
    pattern(h, w, |y: int, x: int| x == mx && my - 1 <= y <= my + 1)
}

/// Three live cells in a line, one row and one column or more from the border
/// of a board that is dead elsewhere, turn by a right angle in every
/// generation.
pub proof fn law_blinker_turns(h: nat, w: nat, my: int, mx: int)
    requires
        1 <= my < h - 1,
        1 <= mx < w - 1,
    ensures
        step(bar(h, w, my, mx)) == pillar(h, w, my, mx),
        step(pillar(h, w, my, mx)) == bar(h, w, my, mx),
{
    let g = bar(h, w, my, mx);
    let p = pillar(h, w, my, mx);
    assert forall|y: int, x: int| #[trigger]
        alive(g, y, x) == (y == my && mx - 1 <= x <= mx + 1) by {}
    assert forall|y: int, x: int| #[trigger]
        alive(p, y, x) == (x == mx && my - 1 <= y <= my + 1) by {}
    assert forall|y: int| 0 <= y < h implies #[trigger] step(g)[y] == p[y] by {
        assert(step(g)[y] =~= p[y]);
    }
    assert(step(g) =~= p);
    assert forall|y: int| 0 <= y < h implies #[trigger] step(p)[y] == g[y] by {
        assert(step(p)[y] =~= g[y]);
    }
    assert(step(p) =~= g);
}

/// The five cells of a glider, by row and column from its upper left corner, in
/// each of the four phases of its walk.
pub open spec fn in_glider(phase: int, y: int, x: int) -> bool {
    if phase == 0 {
        ||| (y == 0 && x == 1)
        ||| (y == 1 && x == 2)
        ||| (y == 2 && (x == 0 || x == 1 || x == 2))
    } else if phase == 1 {
        ||| (y == 1 && (x == 0 || x == 2))
        ||| (y == 2 && (x == 1 || x == 2))
        ||| (y == 3 && x == 1)
    } else if phase == 2 {
        ||| (y == 1 && x == 2)
        ||| (y == 2 && (x == 0 || x == 2))
        ||| (y == 3 && (x == 1 || x == 2))
    } else {
        ||| (y == 1 && x == 1)
        ||| (y == 2 && (x == 2 || x == 3))
        ||| (y == 3 && (x == 1 || x == 2))
    }
}

/// A board with a glider whose corner is at row `top`, column `left`.
pub open spec fn glider(h: nat, w: nat, phase: int, top: int, left: int) -> Seq<Seq<bool>> {
    pattern(h, w, |y: int, x: int| in_glider(phase, y - top, x - left))
}

/// A glider with room to walk on a board that is dead elsewhere walks one row
/// down and one column to the right in four generations.
pub proof fn law_glider_walks(h: nat, w: nat, top: int, left: int)
    requires
        0 <= top && top + 3 < h,
        0 <= left && left + 3 < w,
    ensures
        step(step(step(step(glider(h, w, 0, top, left))))) == glider(h, w, 0, top + 1, left + 1),
{
    lemma_glider_phase(h, w, 0, top, left);
    lemma_glider_phase(h, w, 1, top, left);
    lemma_glider_phase(h, w, 2, top, left);
    lemma_glider_phase(h, w, 3, top, left);
}

proof fn lemma_glider_phase(h: nat, w: nat, phase: int, top: int, left: int)
    requires
        0 <= phase < 4,
        0 <= top && top + 3 < h,
        0 <= left && left + 3 < w,
    ensures
        step(glider(h, w, phase, top, left)) == if phase < 3 {
            glider(h, w, phase + 1, top, left)
        } else {
            glider(h, w, 0, top + 1, left + 1)
        },
{
    let g = glider(h, w, phase, top, left);
    let n = if phase < 3 {
        glider(h, w, phase + 1, top, left)
    } else {
        glider(h, w, 0, top + 1, left + 1)
    };
    assert forall|y: int, x: int| #[trigger]
        alive(g, y, x) == in_glider(phase, y - top, x - left) by {}
    assert forall|y: int| 0 <= y < h implies #[trigger] step(g)[y] == n[y] by {
        assert(step(g)[y] =~= n[y]);
    }
    assert(step(g) =~= n);
}

/// Resizing to the shape that a board has changes nothing.
pub proof fn law_resize_to_same_shape(g: Seq<Seq<bool>>)
    requires
        rectangular(g),
    ensures
        resized(g, g.len(), width(g)) == g,
{
    let r = resized(g, g.len(), width(g));
    assert forall|y: int| 0 <= y < g.len() implies #[trigger] r[y] == g[y] by {
        assert(r[y] =~= g[y]);
    }
    assert(r =~= g);
}

/// A cell survives a resize if and only if it was alive and the new board has
/// its place.
pub proof fn law_resize_keeps_what_fits(g: Seq<Seq<bool>>, h: nat, w: nat, y: int, x: int)
    ensures
        rectangular(resized(g, h, w)),
        alive(resized(g, h, w), y, x) <==> alive(g, y, x) && y < h && x < w,
{
}

/// Of two resizes only the places that both boards have keep their cells, so
/// that a first resize to at least the size of the second leaves no trace.
pub proof fn law_resize_twice(g: Seq<Seq<bool>>, h: nat, w: nat, h2: nat, w2: nat)
    requires
        h2 <= h,
        w2 <= w,
    ensures
        resized(resized(g, h, w), h2, w2) == resized(g, h2, w2),
{
    let a = resized(resized(g, h, w), h2, w2);
    let b = resized(g, h2, w2);
    assert forall|y: int| 0 <= y < h2 implies #[trigger] a[y] == b[y] by {
        assert(a[y] =~= b[y]);
    }
    assert(a =~= b);
}

/// Growing a board and shrinking it back restores it.
pub proof fn law_grow_and_shrink_back(g: Seq<Seq<bool>>, h: nat, w: nat)
    requires
        rectangular(g),
        g.len() <= h,
        width(g) <= w,
    ensures
        resized(resized(g, h, w), g.len(), width(g)) == g,
{
    law_resize_twice(g, h, w, g.len(), width(g));
    law_resize_to_same_shape(g);
}

} // verus!
