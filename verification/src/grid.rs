//! The board of the game.
use crate::layout;
use crate::life;
use vstd::prelude::*;

verus! {

/// Size of a window in pixels.
#[derive(Clone, Copy, Debug, PartialEq, Eq)]
pub struct PhysicalSize {
    pub width: u32,
    pub height: u32,
}

/// The cells of the board, row by row from the top; `true` is alive.
#[derive(Debug)]
pub struct Grid {
    pub grid: Vec<Vec<bool>>,
}

/// The state of a cell as chance would have it.
///
/// Calls `rand::random`, which draws a `bool` from the generator of the thread.
/// Nothing is claimed of the value: either may come, and two calls may differ.
/// The call takes no input that could make it panic; it does panic if the
/// operating system cannot supply the entropy with which the generator is
/// seeded at first and reseeded now and again.
#[verifier::external_body]
fn random_cell() -> (alive: bool) {
    rand::random()
}

/// The state is one that a draw of [`random_cell`] may give.
pub closed spec fn drawn(cell: bool) -> bool {
    call_ensures(random_cell, (), cell)
}

/// The draw that is made for the cell at row `row`, column `column`.
pub fn draw_for(row: usize, column: usize) -> (alive: bool)
    ensures
        drawn(alive),
{
    random_cell()
}

/// Every cell has the state that came of the draw made for its own row and
/// column.
pub open spec fn all_drawn(g: Seq<Seq<bool>>) -> bool {
    forall|y: int, x: int|
        0 <= y < g.len() && 0 <= x < g[y].len() ==> call_ensures(
            draw_for,
            (y as usize, x as usize),
            #[trigger] g[y][x],
        )
}

/// On a board that was drawn, no draw goes to another cell than the one it was
/// made for: what stands at a row and column is what [`draw_for`] gave when it
/// was called for that row and column.
pub proof fn law_draws_go_to_their_own_cells(g: Seq<Seq<bool>>, row: usize, column: usize)
    requires
        all_drawn(g),
        row < g.len(),
        column < g[row as int].len(),
    ensures
        call_ensures(draw_for, (row, column), g[row as int][column as int]),
        drawn(g[row as int][column as int]),
{
    assert(call_ensures(draw_for, (row, column), g[row as int][column as int]));
}

/// A board shows its rows as they are stored: row by row, cell by cell, nothing
/// left out.
pub proof fn law_board_shows_its_rows(grid: Grid)
    ensures
        grid@.len() == grid.grid@.len(),
        forall|y: int| 0 <= y < grid.grid@.len() ==> #[trigger] grid@[y] == grid.grid@[y]@,
        grid.wf() <==> forall|i: int, j: int|
            0 <= i < grid.grid@.len() && 0 <= j < grid.grid@.len() ==> (
            #[trigger] grid.grid@[i])@.len() == (#[trigger] grid.grid@[j])@.len(),
{
    life::law_rectangular_means_rows_of_one_length(grid@);
    if grid.wf() {
        assert forall|i: int, j: int|
            0 <= i < grid.grid@.len() && 0 <= j < grid.grid@.len() implies (
            #[trigger] grid.grid@[i])@.len() == (#[trigger] grid.grid@[j])@.len() by {
            assert(grid@[i] == grid.grid@[i]@ && grid@[j] == grid.grid@[j]@);
        }
    }
    if forall|i: int, j: int|
        0 <= i < grid.grid@.len() && 0 <= j < grid.grid@.len() ==> (
        #[trigger] grid.grid@[i])@.len() == (#[trigger] grid.grid@[j])@.len() {
        assert forall|i: int, j: int| 0 <= i < grid@.len() && 0 <= j < grid@.len() implies (
        #[trigger] grid@[i]).len() == (#[trigger] grid@[j]).len() by {
            assert(grid.grid@[i]@.len() == grid.grid@[j]@.len());
        }
    }
}

impl View for Grid {
    type V = Seq<Seq<bool>>;

    open spec fn view(&self) -> Seq<Seq<bool>> {
        cells(self.grid@)
    }
}

/// The cells of a sequence of rows.
pub open spec fn cells(rows: Seq<Vec<bool>>) -> Seq<Seq<bool>> {
    rows.map_values(|row: Vec<bool>| row@)
}

impl Grid {
    /// All rows are of one length.
    pub open spec fn wf(self) -> bool {
        life::rectangular(self@)
    }

    /// A board of dead cells for a window of this size in pixels.
    pub fn new(width: usize, height: usize) -> (r: Self)
        ensures
            r.wf(),
            r@ == life::pattern(
                layout::cell_count(height as nat),
                layout::cell_count(width as nat),
                |y: int, x: int| false,
            ),
            r.grid@.len() == layout::cell_count(height as nat),
            forall|y: int|
                0 <= y < r.grid@.len() ==> (#[trigger] r.grid@[y])@.len() == layout::cell_count(
                    width as nat,
                ),
            forall|y: int, x: int|
                0 <= y < r.grid@.len() && 0 <= x < r.grid@[y]@.len() ==> !(
                #[trigger] r.grid@[y]@[x]),
    {
        let grid_width: usize = layout::cells_along(width);
        let grid_height: usize = layout::cells_along(height);
        let grid = vec![vec![false; grid_width]; grid_height];
        let r = Grid { grid };
        proof {
            let goal = life::pattern(
                grid_height as nat,
                grid_width as nat,
                |y: int, x: int| false,
            );
            assert forall|y: int| 0 <= y < grid_height implies #[trigger] r@[y] == goal[y] by {
                assert(r@[y] == r.grid[y]@);
            }
            assert(r@ == goal);
        }
        r
    }

    /// The number of rows.
    pub fn height(&self) -> (h: usize)
        ensures
            h == self@.len(),
    {
        self.grid.len()
    }

    /// The number of columns.
    pub fn width(&self) -> (w: usize)
        requires
            self@.len() > 0,
        ensures
            w == life::width(self@),
    {
        self.grid[0].len()
    }

    /// Gives every cell of row `y` the state that was drawn for it.
    fn fill_row(&mut self, y: usize, draws: &Vec<bool>)
        requires
            old(self).wf(),
            y < old(self)@.len(),
            draws.len() == life::width(old(self)@),
        ensures
            final(self).wf(),
            final(self)@ == old(self)@.update(y as int, draws@),
    {
        let ghost before = self.grid@;
        let ghost cells = self@;
        let mut x: usize = 0;
        assert(self@[y as int] == self.grid@[y as int]@);
        while x < draws.len()
            invariant
                y < before.len(),
                self.grid@.len() == before.len(),
                forall|i: int| 0 <= i < before.len() && i != y ==> self.grid@[i] == before[i],
                self.grid@[y as int]@.len() == draws.len(),
                x <= draws.len(),
                forall|j: int| 0 <= j < x ==> self.grid@[y as int]@[j] == draws[j],
            decreases draws.len() - x,
        {
            self.grid[y][x] = draws[x];
            x = x + 1;
        }
        assert(self.grid@[y as int]@ == draws@);
        assert forall|i: int| 0 <= i < before.len() implies #[trigger] self@[i] == cells.update(
            y as int,
            draws@,
        )[i] by {
            assert(self@[i] == self.grid@[i]@);
        }
        assert(self@ == cells.update(y as int, draws@));
    }

    /// Gives every cell of the board the state that was drawn for it.
    pub fn fill(&mut self, draws: &Vec<Vec<bool>>)
        requires
            old(self).wf(),
            draws.len() == old(self)@.len(),
            forall|y: int|
                0 <= y < draws.len() ==> (#[trigger] draws[y]).len() == life::width(old(self)@),
        ensures
            final(self).wf(),
            final(self)@ == cells(draws@),
    {
        let ghost width = life::width(self@);
        let mut y: usize = 0;
        while y < self.grid.len()
            invariant
                self.wf(),
                self@.len() == draws.len(),
                life::width(self@) == width,
                forall|i: int| 0 <= i < draws.len() ==> (#[trigger] draws[i]).len() == width,
                y <= draws.len(),
                forall|i: int| 0 <= i < y ==> #[trigger] self@[i] == draws[i]@,
            decreases draws.len() - y,
        {
            self.fill_row(y, &draws[y]);
            y = y + 1;
        }
        assert(self@ == cells(draws@));
    }

    /// Draws a state for every cell of the board, row by row, each for its place.
    fn draw_states(&self) -> (draws: Vec<Vec<bool>>)
        requires
            self.wf(),
        ensures
            draws.len() == self@.len(),
            forall|y: int|
                0 <= y < draws.len() ==> (#[trigger] draws[y]).len() == life::width(self@),
            all_drawn(cells(draws@)),
    {
        let mut draws: Vec<Vec<bool>> = Vec::new();
        while draws.len() < self.grid.len()
            invariant
                self.wf(),
                draws.len() <= self@.len(),
                forall|y: int|
                    0 <= y < draws.len() ==> (#[trigger] draws[y]).len() == life::width(self@),
                all_drawn(cells(draws@)),
            decreases self@.len() - draws.len(),
        {
            let y: usize = draws.len();
            assert(self@[y as int] == self.grid@[y as int]@);
            let mut row: Vec<bool> = Vec::new();
            while row.len() < self.grid[y].len()
                invariant
                    y < self.grid@.len(),
                    row.len() <= self.grid@[y as int]@.len(),
                    forall|x: int|
                        0 <= x < row.len() ==> call_ensures(
                            draw_for,
                            (y, x as usize),
                            #[trigger] row@[x],
                        ),
                decreases self.grid@[y as int]@.len() - row.len(),
            {
                row.push(draw_for(y, row.len()));
            }
            let ghost before = cells(draws@);
            draws.push(row);
            assert(cells(draws@) == before.push(row@));
        }
        draws
    }

    /// Gives every cell a state that was drawn for it. The board keeps its shape;
    /// which cells live is left to chance.
    pub fn randomize(&mut self)
        requires
            old(self).wf(),
        ensures
            final(self).wf(),
            final(self)@.len() == old(self)@.len(),
            life::width(final(self)@) == life::width(old(self)@),
            all_drawn(final(self)@),
    {
        let draws = self.draw_states();
        self.fill(&draws);
    }

    /// One if the cell `dy` rows below and `dx` columns to the right of row `y`,
    /// column `x` is alive, else zero.
    fn neighbor(&self, y: usize, x: usize, dy: i128, dx: i128) -> (n: u8)
        requires
            self.wf(),
            y < self@.len(),
            x < life::width(self@),
            -1 <= dy <= 1,
            -1 <= dx <= 1,
        ensures
            n == life::tally(self@, y + dy, x + dx),
    {
        let ny: i128 = y as i128 + dy;
        let nx: i128 = x as i128 + dx;
        let height: usize = self.height();
        let width: usize = self.width();
        if ny >= 0 && ny < height as i128 && nx >= 0 && nx < width as i128 {
            assert(self@[ny as int] == self.grid[ny as int]@);
            if self.grid[ny as usize][nx as usize] {
                1
            } else {
                0
            }
        } else {
            0
        }
    }

    /// Whether the cell at row `y`, column `x` is alive in the next generation.
    fn next_cell(&self, y: usize, x: usize) -> (r: bool)
        requires
            self.wf(),
            y < self@.len(),
            x < life::width(self@),
        ensures
            r == life::next_cell(self@, y as int, x as int),
    {
        let above: u8 = self.neighbor(y, x, -1, -1) + self.neighbor(y, x, -1, 0) + self.neighbor(
            y,
            x,
            -1,
            1,
        );
        let beside: u8 = self.neighbor(y, x, 0, -1) + self.neighbor(y, x, 0, 1);
        let below: u8 = self.neighbor(y, x, 1, -1) + self.neighbor(y, x, 1, 0) + self.neighbor(
            y,
            x,
            1,
            1,
        );
        let live_neighbors: u8 = above + beside + below;
        assert(self@[y as int] == self.grid[y as int]@);
        let is_alive = self.grid[y][x];
        match (is_alive, live_neighbors) {
            (true, 2) | (true, 3) => true,
            (false, 3) => true,
            _ => false,
        }
    }

    /// Replaces the board by the next generation.
    pub fn update(&mut self)
        requires
            old(self).wf(),
            old(self)@.len() > 0,
        ensures
            final(self).wf(),
            final(self)@ == life::step(old(self)@),
    {
        let height: usize = self.height();
        let width: usize = self.width();
        let ghost goal = life::step(self@);
        let mut new_grid: Vec<Vec<bool>> = Vec::new();
        let mut y: usize = 0;
        while y < height
            invariant
                self.wf(),
                height == self@.len(),
                height > 0,
                width == life::width(self@),
                goal == life::step(self@),
                y <= height,
                new_grid.len() == y,
                forall|i: int| 0 <= i < y ==> (#[trigger] new_grid[i])@ == goal[i],
            decreases height - y,
        {
            let mut row: Vec<bool> = Vec::new();
            let mut x: usize = 0;
            while x < width
                invariant
                    self.wf(),
                    height == self@.len(),
                    width == life::width(self@),
                    goal == life::step(self@),
                    y < height,
                    x <= width,
                    row.len() == x,
                    forall|j: int| 0 <= j < x ==> row[j] == goal[y as int][j],
                decreases width - x,
            {
                row.push(self.next_cell(y, x));
                x = x + 1;
            }
            assert(row@ == goal[y as int]);
            new_grid.push(row);
            y = y + 1;
        }
        self.grid = new_grid;
        assert(self@ == goal);
    }

    /// Fits the board to a window of this size: cells that the new board still
    /// has are kept, new ones are dead.
    pub fn resize(&mut self, new_size: PhysicalSize)
        requires
            old(self).wf(),
            old(self)@.len() > 0,
        ensures
            final(self).wf(),
            final(self)@ == life::resized(
                old(self)@,
                layout::cell_count(new_size.height as nat),
                layout::cell_count(new_size.width as nat),
            ),
    {
        let new_width: usize = layout::cells_along(new_size.width as usize);
        let new_height: usize = layout::cells_along(new_size.height as usize);
        let ghost before = self@;
        let ghost goal = life::resized(before, new_height as nat, new_width as nat);
        if new_width != self.width() || new_height != self.height() {
            self.grid.resize(new_height, vec![false; new_width]);
            let ghost stretched = self.grid@;
            let mut y: usize = 0;
            while y < self.grid.len()
                invariant
                    before.len() > 0,
                    life::rectangular(before),
                    goal == life::resized(before, new_height as nat, new_width as nat),
                    self.grid.len() == new_height,
                    stretched.len() == new_height,
                    y <= new_height,
                    forall|i: int|
                        0 <= i < new_height ==> (#[trigger] stretched[i])@ == if i < before.len() {
                            before[i]
                        } else {
                            Seq::new(new_width as nat, |x: int| false)
                        },
                    forall|i: int| y <= i < new_height ==> self.grid@[i] == stretched[i],
                    forall|i: int| 0 <= i < y ==> (#[trigger] self.grid@[i])@ == goal[i],
                decreases new_height - y,
            {
                let ghost row = self.grid@[y as int]@;
                assert(row == stretched[y as int]@);
                self.grid[y].resize(new_width, false);
                proof {
                    let now = self.grid@[y as int]@;
                    assert forall|x: int| 0 <= x < new_width implies now[x] == goal[y as int][x] by {
                        if new_width > row.len() && x < row.len() {
                            assert(now.subrange(0, row.len() as int)[x] == row[x]);
                        }
                    }
                    assert(now == goal[y as int]);
                }
                y = y + 1;
            }
        }
        assert forall|y: int| 0 <= y < new_height implies #[trigger] self@[y] == goal[y] by {
            assert(self@[y] == self.grid@[y]@);
        }
        assert(self@ == goal);
    }
}

impl Clone for Grid {
    /// A board with the same cells.
    fn clone(&self) -> (r: Self)
        ensures
            r@ == self@,
    {
        let r = Grid { grid: self.grid.clone() };
        assert forall|y: int| 0 <= y < self@.len() implies #[trigger] r@[y] == self@[y] by {
            assert(r.grid@[y]@ == self.grid@[y]@);
        }
        assert(r@ == self@);
        r
    }
}

} // verus!
