use minesweeper_tui::app::{App, Difficulty};
use minesweeper_tui::input_listener::{Direction, InputEvent};

fn start(app: &mut App, difficulty: Difficulty, now: u64) {
    app.handle_input(InputEvent::GameDifficulty(difficulty), now);
}

/// Walks the cursor from the first cell to `index`.
fn walk_to(app: &mut App, index: usize, now: u64) {
    let width = app.get_board().get_board_width();
    for _ in 0..index / width {
        app.handle_input(InputEvent::Navigation(Direction::Down), now);
    }
    for _ in 0..index % width {
        app.handle_input(InputEvent::Navigation(Direction::Right), now);
    }
    assert_eq!(app.get_board().get_selected_cell_index(), index);
}

fn first_mine(app: &App) -> usize {
    app.get_board().get_cells().iter().position(|c| c.is_bomb()).unwrap()
}

#[test]
fn a_new_app_waits_for_a_difficulty() {
    let mut app = App::new();
    assert!(app.is_start_up());
    assert!(!app.get_is_game_over());
    assert!(!app.get_is_victory());
    assert!(!app.is_quit());
    app.handle_input(InputEvent::Select, 10);
    app.handle_input(InputEvent::Flag, 10);
    app.handle_input(InputEvent::Navigation(Direction::Right), 10);
    assert!(app.is_start_up());
    assert_eq!(app.get_board().get_cells().len(), 0);
    start(&mut app, Difficulty::Medium, 20);
    assert!(!app.is_start_up());
    assert_eq!(app.get_difficulty(), Difficulty::Medium);
    assert_eq!(app.get_board().get_cells().len(), 256);
    assert_eq!(app.get_board().get_bomb_count(), 32);
}

#[test]
fn selecting_a_mine_ends_the_game_and_stops_the_clock() {
    let mut app = App::new();
    start(&mut app, Difficulty::Easy, 1_000);
    assert_eq!(app.elapsed_millis(3_000), 2_000);
    let mine = first_mine(&app);
    walk_to(&mut app, mine, 4_000);
    app.handle_input(InputEvent::Select, 5_000);
    assert!(app.get_is_game_over());
    assert!(!app.get_is_victory());
    assert_eq!(app.elapsed_millis(6_000), 4_000);
    assert_eq!(app.elapsed_millis(90_000), 4_000);
    app.handle_input(InputEvent::Tick, 7_000);
    app.handle_input(InputEvent::Navigation(Direction::Left), 8_000);
    app.handle_input(InputEvent::Select, 9_000);
    app.handle_input(InputEvent::Flag, 9_500);
    assert!(app.get_is_game_over());
    assert_eq!(app.get_board().get_selected_cell_index(), mine);
    assert_eq!(app.get_board().get_flag_count(), 0);
    assert_eq!(app.elapsed_millis(10_000), 4_000);
}

#[test]
fn opening_every_safe_cell_wins() {
    let mut app = App::new();
    start(&mut app, Difficulty::Easy, 0);
    let width = app.get_board().get_board_width();
    let cells = app.get_board().get_cells().len();
    for index in 0..cells {
        if app.get_board().get_cells()[index].is_bomb() {
            continue;
        }
        assert!(!app.get_is_victory());
        // Return to the first cell, then walk to this one.
        for _ in 0..cells {
            app.handle_input(InputEvent::Navigation(Direction::Up), 1);
            app.handle_input(InputEvent::Navigation(Direction::Left), 1);
        }
        assert_eq!(app.get_board().get_selected_cell_index(), 0);
        for _ in 0..index / width {
            app.handle_input(InputEvent::Navigation(Direction::Down), 1);
        }
        for _ in 0..index % width {
            app.handle_input(InputEvent::Navigation(Direction::Right), 1);
        }
        app.handle_input(InputEvent::Select, 500);
    }
    assert!(app.get_is_victory());
    assert!(!app.get_is_game_over());
    assert_eq!(app.elapsed_millis(9_999), 500);
}

#[test]
fn a_difficulty_is_ignored_while_playing() {
    let mut app = App::new();
    start(&mut app, Difficulty::Easy, 0);
    app.handle_input(InputEvent::Flag, 1);
    app.handle_input(InputEvent::Navigation(Direction::Right), 2);
    let before: Vec<(bool, bool, bool, i16)> = app
        .get_board()
        .get_cells()
        .iter()
        .map(|c| (c.is_bomb(), c.is_open(), c.is_flagged(), c.get_value()))
        .collect();
    start(&mut app, Difficulty::Hard, 3);
    let after: Vec<(bool, bool, bool, i16)> = app
        .get_board()
        .get_cells()
        .iter()
        .map(|c| (c.is_bomb(), c.is_open(), c.is_flagged(), c.get_value()))
        .collect();
    assert_eq!(before, after);
    assert_eq!(app.get_difficulty(), Difficulty::Easy);
    assert_eq!(app.get_board().get_board_width(), 9);
    assert_eq!(app.get_board().get_flag_count(), 1);
    assert_eq!(app.get_board().get_selected_cell_index(), 1);
    assert_eq!(app.elapsed_millis(10), 10);
}

#[test]
fn a_difficulty_after_the_game_ends_starts_a_new_one() {
    let mut app = App::new();
    start(&mut app, Difficulty::Easy, 0);
    let mine = first_mine(&app);
    walk_to(&mut app, mine, 1);
    app.handle_input(InputEvent::Select, 2);
    assert!(app.get_is_game_over());
    start(&mut app, Difficulty::Hard, 100);
    assert!(!app.get_is_game_over());
    assert!(!app.get_is_victory());
    assert_eq!(app.get_difficulty(), Difficulty::Hard);
    assert_eq!(app.get_board().get_board_width(), 30);
    assert_eq!(app.get_board().get_board_height(), 16);
    assert_eq!(app.get_board().get_cells().len(), 480);
    assert_eq!(app.get_board().get_bomb_count(), 60);
    assert_eq!(app.get_board().get_selected_cell_index(), 0);
    assert!(app.get_board().get_cells().iter().all(|c| !c.is_open()));
    assert_eq!(app.elapsed_millis(250), 150);
}

#[test]
fn quit_is_taken_in_any_state() {
    let mut app = App::new();
    app.handle_input(InputEvent::Quit, 0);
    assert!(app.is_quit());
    let mut app = App::new();
    start(&mut app, Difficulty::Easy, 0);
    app.handle_input(InputEvent::Quit, 0);
    assert!(app.is_quit());
}
