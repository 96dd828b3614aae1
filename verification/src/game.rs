//! The game in its window: what every event changes, and what is left to do.
use crate::grid;
use crate::grid::{Grid, PhysicalSize};
use crate::layout;
use crate::life;
use crate::render;
use crate::render::{Frame, RenderCtx};
use vstd::prelude::*;

verus! {

/// Whether a key went down or up.
#[derive(Clone, Copy, Debug, PartialEq, Eq, Structural)]
pub enum ElementState {
    Pressed,
    Released,
}

/// The keys that mean something, and all others.
#[derive(Clone, Copy, Debug, PartialEq, Eq, Structural)]
pub enum PhysicalKey {
    KeyU,
    KeyN,
    Other,
}

/// What can happen to the window.
#[derive(Clone, Copy, Debug)]
pub enum WindowEvent {
    CloseRequested,
    RedrawRequested,
    KeyboardInput { state: ElementState, physical_key: PhysicalKey },
    Resized(PhysicalSize),
    Other,
}

/// What an event leaves to be done outside the game.
#[derive(Debug)]
pub enum Action {
    /// Leave the event loop.
    Exit,
    /// Show the frame, and ask for the next redraw.
    Redraw(Frame),
    /// Rebuild swapchain, framebuffers and vertex buffers for this size.
    Rebuild(PhysicalSize),
    /// Nothing.
    Nothing,
}

/// The game: nothing before the window is there, then the picture of a board.
#[derive(Debug)]
pub struct GameOfLife {
    pub render_ctx: Option<RenderCtx>,
}

/// The key press that lets a generation pass.
pub open spec fn is_update(event: WindowEvent) -> bool {
    event == (WindowEvent::KeyboardInput {
        state: ElementState::Pressed,
        physical_key: PhysicalKey::KeyU,
    })
}

/// The key press that shuffles the board.
pub open spec fn is_randomize(event: WindowEvent) -> bool {
    event == (WindowEvent::KeyboardInput {
        state: ElementState::Pressed,
        physical_key: PhysicalKey::KeyN,
    })
}

/// The game can take the event: one that works on the board needs the board,
/// all but a shuffle need it to have a row, and a redraw needs a vertex buffer
/// that takes the picture.
pub open spec fn can_take(game: GameOfLife, event: WindowEvent) -> bool {
    let board = game.render_ctx matches Some(ctx) && ctx.grid@.len() > 0;
    match event {
        WindowEvent::RedrawRequested => board && game.render_ctx->0.picture_fits(),
        WindowEvent::KeyboardInput { .. } => {
            &&& is_update(event) ==> board
            &&& is_randomize(event) ==> game.render_ctx is Some
        },
        WindowEvent::Resized(_) => board,
        WindowEvent::CloseRequested | WindowEvent::Other => true,
    }
}

/// A game that is being played takes every event, whichever buffer's turn it
/// is: its rows, at least one, are of one length, the window has a width and a
/// height, and each buffer has room for six vertices for every cell.
pub proof fn law_played_game_takes_every_event(game: GameOfLife, event: WindowEvent)
    requires
        game.render_ctx matches Some(ctx) && {
            let rows = ctx.grid.grid@;
            &&& rows.len() > 0
            &&& forall|y: int| 0 <= y < rows.len() ==> (#[trigger] rows[y])@.len() == rows[0]@.len()
            &&& ctx.frame_index == 0 || ctx.frame_index == 1
            &&& ctx.window_width > 0
            &&& ctx.window_height > 0
            &&& rows.len() * rows[0]@.len() * 6 <= ctx.vertex_buffer_len
            &&& rows.len() * rows[0]@.len() * 6 <= usize::MAX
        },
    ensures
        game.wf(),
        can_take(game, event),
{
    let ctx = game.render_ctx->0;
    grid::law_board_shows_its_rows(ctx.grid);
    let rows = ctx.grid.grid@;
    assert forall|i: int, j: int| 0 <= i < rows.len() && 0 <= j < rows.len() implies (
    #[trigger] rows[i])@.len() == (#[trigger] rows[j])@.len() by {}
    assert(ctx.grid@[0] == rows[0]@);
}

/// A game whose picture fits the window takes every event, if the board has a
/// row and fewer than 5592407 cells.
pub proof fn law_fitting_game_takes_every_event(game: GameOfLife, event: WindowEvent)
    requires
        game.wf(),
        game.fits_window(),
        game.render_ctx matches Some(ctx) && {
            &&& ctx.grid.grid@.len() > 0
            &&& ctx.grid.grid@.len() * ctx.grid.grid@[0]@.len() < 5_592_407
        },
    ensures
        can_take(game, event),
{
    let ctx = game.render_ctx->0;
    grid::law_board_shows_its_rows(ctx.grid);
    assert(ctx.grid@[0] == ctx.grid.grid@[0]@);
    render::law_picture_fits_buffer(ctx);
}

/// What each event asks of a game: nothing for a close request, a released key,
/// a key without a meaning and all that is no concern of the game; a board for a
/// shuffle; a board with a row for a generation, a resize and a redraw; and for
/// a redraw room for six vertices for every cell.
pub proof fn law_what_each_event_asks(game: GameOfLife, event: WindowEvent)
    ensures
        can_take(game, event) <==> match event {
            WindowEvent::CloseRequested => true,
            WindowEvent::Other => true,
            WindowEvent::KeyboardInput { state: ElementState::Released, physical_key: _ } => true,
            WindowEvent::KeyboardInput { state: ElementState::Pressed, physical_key } => {
                match physical_key {
                    PhysicalKey::Other => true,
                    PhysicalKey::KeyN => game.render_ctx is Some,
                    PhysicalKey::KeyU => game.render_ctx is Some
                        && game.render_ctx->0.grid.grid@.len() > 0,
                }
            },
            WindowEvent::Resized(_) => game.render_ctx is Some
                && game.render_ctx->0.grid.grid@.len() > 0,
            WindowEvent::RedrawRequested => game.render_ctx matches Some(ctx) && {
                let rows = ctx.grid.grid@;
                &&& rows.len() > 0
                &&& rows.len() * rows[0]@.len() * 6 <= ctx.vertex_buffer_len
                &&& rows.len() * rows[0]@.len() * 6 <= usize::MAX
            },
        },
{
    if game.render_ctx is Some {
        let ctx = game.render_ctx->0;
        grid::law_board_shows_its_rows(ctx.grid);
        if ctx.grid@.len() > 0 {
            assert(ctx.grid@[0] == ctx.grid.grid@[0]@);
        }
    }
}

/// A press of `U` lets a generation pass and a press of `N` shuffles; nothing
/// else does either.
pub proof fn law_what_keys_mean(event: WindowEvent)
    ensures
        is_update(event) <==> (event matches WindowEvent::KeyboardInput { state, physical_key }
            && state is Pressed && physical_key is KeyU),
        is_randomize(event) <==> (event matches WindowEvent::KeyboardInput { state, physical_key }
            && state is Pressed && physical_key is KeyN),
{
}

/// A game is in order if and only if it has no picture yet or its picture is in
/// order, and fits the window if and only if it has none or its picture does.
pub proof fn law_game_is_as_its_picture(game: GameOfLife)
    ensures
        game.render_ctx is None ==> game.wf() && game.fits_window(),
        game.render_ctx is Some ==> (game.wf() <==> game.render_ctx->0.wf()),
        game.render_ctx is Some ==> (game.fits_window() <==> game.render_ctx->0.fits_window()),
{
}

impl GameOfLife {
    /// The picture, if there is one, is in order.
    pub open spec fn wf(self) -> bool {
        self.render_ctx matches Some(ctx) ==> ctx.wf()
    }

    /// The picture, if there is one, fits the window.
    pub open spec fn fits_window(self) -> bool {
        self.render_ctx matches Some(ctx) ==> ctx.fits_window()
    }

    /// A game without a window.
    pub fn new() -> (r: Self)
        ensures
            r.wf(),
            r.render_ctx is None,
    {
        GameOfLife { render_ctx: None }
    }

    /// Begins a game on a random board as the window opens.
    pub fn resumed(&mut self)
        ensures
            final(self).wf(),
            final(self).fits_window(),
            final(self).render_ctx matches Some(ctx) && {
                &&& ctx.frame_index == 0
                &&& ctx.window_width == layout::WINDOW_WIDTH
                &&& ctx.window_height == layout::WINDOW_HEIGHT
                &&& ctx.grid@.len() == 80
                &&& life::width(ctx.grid@) == 80
                &&& grid::all_drawn(ctx.grid@)
            },
            forall|event: WindowEvent| can_take(*final(self), event),
    {
        let mut grid = Grid::new(layout::WINDOW_WIDTH as usize, layout::WINDOW_HEIGHT as usize);
        proof {
            layout::law_cell_count_is_quotient(layout::WINDOW_WIDTH as nat);
        }
        grid.randomize();
        let ctx = RenderCtx::new(grid);
        proof {
            render::law_picture_fits_buffer(ctx);
        }
        self.render_ctx = Some(ctx);
    }

    /// Whether the game can take the event.
    pub fn accepts(&self, event: WindowEvent) -> (r: bool)
        requires
            self.wf(),
        ensures
            r == can_take(*self, event),
    {
        let has_board = match &self.render_ctx {
            Some(ctx) => ctx.grid.height() > 0,
            None => false,
        };
        match event {
            WindowEvent::RedrawRequested => match &self.render_ctx {
                Some(ctx) => has_board && ctx.fits_buffer(),
                None => false,
            },
            WindowEvent::KeyboardInput { state: ElementState::Pressed, physical_key } => {
                match physical_key {
                    PhysicalKey::KeyU => has_board,
                    PhysicalKey::KeyN => self.render_ctx.is_some(),
                    PhysicalKey::Other => true,
                }
            },
            WindowEvent::Resized(_) => has_board,
            _ => true,
        }
    }

    /// Lets an event happen to the game, and says what is left to be done.
    pub fn window_event(&mut self, event: WindowEvent) -> (action: Action)
        requires
            old(self).wf(),
            can_take(*old(self), event),
        ensures
            final(self).wf(),
            old(self).fits_window() ==> final(self).fits_window(),
            final(self).render_ctx is Some == old(self).render_ctx is Some,
            // An event that leaves the window its size takes no later event away.
            event !is Resized ==> forall|next: WindowEvent|
                can_take(*old(self), next) ==> #[trigger] can_take(*final(self), next),
            // Nor does a resize that leaves a row, and cells for which there is room.
            event matches WindowEvent::Resized(size) ==> {
                let rows = layout::cell_count(size.height as nat);
                let columns = layout::cell_count(size.width as nat);
                0 < rows && rows * columns < 5_592_407 ==> forall|next: WindowEvent| #[trigger]
                    can_take(*final(self), next)
            },
            match event {
                WindowEvent::CloseRequested => action is Exit && *final(self) == *old(self),
                WindowEvent::RedrawRequested => {
                    let (before, after) = (old(self).render_ctx->0, final(self).render_ctx->0);
                    &&& after.grid == before.grid
                    &&& after.frame_index == render::next_buffer(before.frame_index as int)
                    &&& after.window_width == before.window_width
                    &&& after.window_height == before.window_height
                    &&& after.vertex_buffer_len == before.vertex_buffer_len
                    &&& action matches Action::Redraw(frame) && {
                        &&& frame.buffer == before.frame_index
                        &&& frame.vertices@ == before.picture()
                        &&& frame.vertex_count == render::vertex_total(before.grid@)
                            % 0x1_0000_0000
                    }
                },
                WindowEvent::KeyboardInput { state, physical_key } => {
                    let (before, after) = (old(self).render_ctx->0, final(self).render_ctx->0);
                    &&& action is Nothing
                    &&& if is_update(event) {
                        &&& after.grid@ == life::step(before.grid@)
                        &&& after.same_but_grid(before)
                    } else if is_randomize(event) {
                        &&& after.grid@.len() == before.grid@.len()
                        &&& life::width(after.grid@) == life::width(before.grid@)
                        &&& grid::all_drawn(after.grid@)
                        &&& after.same_but_grid(before)
                    } else {
                        *final(self) == *old(self)
                    }
                },
                WindowEvent::Resized(size) => {
                    let (before, after) = (old(self).render_ctx->0, final(self).render_ctx->0);
                    &&& action == Action::Rebuild(size)
                    &&& after.fits_window()
                    &&& after.window_width == size.width
                    &&& after.window_height == size.height
                    &&& after.frame_index == before.frame_index
                    &&& after.grid@ == life::resized(
                        before.grid@,
                        layout::cell_count(size.height as nat),
                        layout::cell_count(size.width as nat),
                    )
                },
                WindowEvent::Other => action is Nothing && *final(self) == *old(self),
            },
    {
        match event {
            WindowEvent::CloseRequested => Action::Exit,
            WindowEvent::RedrawRequested => {
                match &mut self.render_ctx {
                    Some(ctx) => Action::Redraw(ctx.draw()),
                    None => Action::Nothing,
                }
            },
            WindowEvent::KeyboardInput { state: ElementState::Pressed, physical_key } => {
                if let Some(ctx) = &mut self.render_ctx {
                    match physical_key {
                        PhysicalKey::KeyU => ctx.grid_update(),
                        PhysicalKey::KeyN => ctx.grid.randomize(),
                        PhysicalKey::Other => {},
                    }
                }
                Action::Nothing
            },
            WindowEvent::Resized(physical_size) => {
                if let Some(ctx) = &mut self.render_ctx {
                    ctx.resize(physical_size);
                    proof {
                        let rows = layout::cell_count(physical_size.height as nat);
                        let columns = layout::cell_count(physical_size.width as nat);
                        if 0 < rows && rows * columns < 5_592_407 {
                            render::law_picture_fits_buffer(*ctx);
                        }
                    }
                }
                Action::Rebuild(physical_size)
            },
            _ => Action::Nothing,
        }
    }
}

} // verus!
