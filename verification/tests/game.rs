use game_of_life::game::{Action, ElementState, GameOfLife, PhysicalKey, WindowEvent};
use game_of_life::grid::{Grid, PhysicalSize};
use game_of_life::render::RenderCtx;

fn press(physical_key: PhysicalKey) -> WindowEvent {
    WindowEvent::KeyboardInput { state: ElementState::Pressed, physical_key }
}

fn playing(rows: Vec<Vec<bool>>) -> GameOfLife {
    GameOfLife { render_ctx: Some(RenderCtx::new(Grid { grid: rows })) }
}

fn cells(game: &GameOfLife) -> Vec<Vec<bool>> {
    game.render_ctx.as_ref().unwrap().grid.grid.clone()
}

#[test]
fn game_starts_without_a_window() {
    let game = GameOfLife::new();
    assert!(game.render_ctx.is_none());
    assert!(!game.accepts(WindowEvent::RedrawRequested));
    assert!(!game.accepts(press(PhysicalKey::KeyU)));
    assert!(!game.accepts(press(PhysicalKey::KeyN)));
    assert!(!game.accepts(WindowEvent::Resized(PhysicalSize { width: 1, height: 1 })));
    assert!(game.accepts(press(PhysicalKey::Other)));
    assert!(game.accepts(WindowEvent::CloseRequested));
    assert!(game.accepts(WindowEvent::Other));
}

#[test]
fn resumed_game_plays_on_a_random_board_of_eighty_by_eighty() {
    let mut game = GameOfLife::new();
    game.resumed();
    let ctx = game.render_ctx.as_ref().unwrap();
    assert_eq!((ctx.grid.width(), ctx.grid.height()), (80, 80));
    assert_eq!((ctx.window_width, ctx.window_height, ctx.frame_index), (800, 800, 0));
    let alive = ctx.grid.grid.iter().flatten().filter(|c| **c).count();
    assert!(alive > 2000 && alive < 4400);
    assert!(game.accepts(WindowEvent::RedrawRequested));
    assert!(game.accepts(press(PhysicalKey::KeyU)));
}

#[test]
fn close_request_leaves_the_loop() {
    let mut game = GameOfLife::new();
    assert!(matches!(game.window_event(WindowEvent::CloseRequested), Action::Exit));
    assert!(game.render_ctx.is_none());
}

#[test]
fn key_u_lets_a_generation_pass() {
    let mut game = playing(vec![vec![true, true], vec![true, false]]);
    assert!(matches!(game.window_event(press(PhysicalKey::KeyU)), Action::Nothing));
    assert_eq!(cells(&game), vec![vec![true, true], vec![true, true]]);
}

#[test]
fn key_n_shuffles_the_board() {
    let mut game = playing(vec![vec![false; 40]; 40]);
    assert!(matches!(game.window_event(press(PhysicalKey::KeyN)), Action::Nothing));
    assert_ne!(cells(&game), vec![vec![false; 40]; 40]);
    assert_eq!(cells(&game).len(), 40);
}

#[test]
fn released_and_other_keys_change_nothing() {
    let start = vec![vec![true, true], vec![true, false]];
    let mut game = playing(start.clone());
    for physical_key in [PhysicalKey::KeyU, PhysicalKey::KeyN, PhysicalKey::Other] {
        let event = WindowEvent::KeyboardInput { state: ElementState::Released, physical_key };
        assert!(matches!(game.window_event(event), Action::Nothing));
    }
    assert!(matches!(game.window_event(press(PhysicalKey::Other)), Action::Nothing));
    assert!(matches!(game.window_event(WindowEvent::Other), Action::Nothing));
    assert_eq!(cells(&game), start);
}

#[test]
fn redraw_draws_the_board_and_passes_the_turn() {
    let mut game = playing(vec![vec![true, false, true]]);
    let expected = game.render_ctx.as_ref().unwrap().update_vertex();
    for turn in 0..4 {
        match game.window_event(WindowEvent::RedrawRequested) {
            Action::Redraw(frame) => {
                assert_eq!(frame.buffer, turn % 2);
                assert_eq!(frame.vertex_count, 18);
                assert_eq!(frame.vertices, expected);
            }
            _ => panic!("no frame"),
        }
    }
    assert_eq!(cells(&game), vec![vec![true, false, true]]);
}

#[test]
fn resize_rebuilds_and_keeps_what_fits() {
    let mut game = playing(vec![vec![true, true], vec![true, false]]);
    let size = PhysicalSize { width: 30, height: 19 };
    match game.window_event(WindowEvent::Resized(size)) {
        Action::Rebuild(s) => assert_eq!(s, size),
        _ => panic!("no rebuild"),
    }
    assert_eq!(cells(&game), vec![vec![true, true, false]]);
    let ctx = game.render_ctx.as_ref().unwrap();
    assert_eq!((ctx.window_width, ctx.window_height), (30, 19));
}

#[test]
fn board_without_rows_takes_no_generation_and_no_redraw() {
    let mut game = playing(vec![vec![true]]);
    game.window_event(WindowEvent::Resized(PhysicalSize { width: 30, height: 9 }));
    assert!(!game.accepts(press(PhysicalKey::KeyU)));
    assert!(!game.accepts(WindowEvent::RedrawRequested));
    assert!(!game.accepts(WindowEvent::Resized(PhysicalSize { width: 30, height: 30 })));
    assert!(game.accepts(press(PhysicalKey::KeyN)));
}
