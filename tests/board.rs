use minesweeper_tui::app::Difficulty;
use minesweeper_tui::board::{Board, LayoutError};
use minesweeper_tui::input_listener::{Direction, InputEvent};

fn custom_board(width: usize, height: usize, mines: &[usize]) -> Board {
    let mut board = Board::new();
    board
        .initiate_board_with_mines(width, height, &mines.to_vec())
        .expect("a valid layout");
    board
}

fn mine_total(board: &Board) -> usize {
    board.get_cells().iter().filter(|c| c.is_bomb()).count()
}

fn go(board: &mut Board, direction: Direction) {
    board.change_active_cell(InputEvent::Navigation(direction));
}

#[test]
fn test_board_sizes() {
    let mut board: Board = Board::new();
    board.initiate_board(Difficulty::Easy);
    assert_eq!(board.get_board_height(), 9);
    assert_eq!(board.get_board_width(), 9);

    board.initiate_board(Difficulty::Medium);
    assert_eq!(board.get_board_height(), 16);
    assert_eq!(board.get_board_width(), 16);

    board.initiate_board(Difficulty::Hard);
    assert_eq!(board.get_board_height(), 16);
    assert_eq!(board.get_board_width(), 30);
}

#[test]
fn test_board_bomb_count() {
    let mut board: Board = Board::new();
    board.initiate_board(Difficulty::Easy);
    assert_eq!(board.get_bomb_count(), 10);

    board.initiate_board(Difficulty::Medium);
    assert_eq!(board.get_bomb_count(), 32);

    board.initiate_board(Difficulty::Hard);
    assert_eq!(board.get_bomb_count(), 60);
}

#[test]
fn test_change_active_cell() {
    let mut board: Board = Board::new();

    // Moving before any board exists changes nothing.
    board.change_active_cell(InputEvent::Navigation(Direction::Up));

    board.initiate_board(Difficulty::Easy);
    assert_eq!(board.get_selected_cell_index(), 0);
    board.change_active_cell(InputEvent::Navigation(Direction::Right));
    assert_eq!(board.get_selected_cell_index(), 1);

    board.change_active_cell(InputEvent::Navigation(Direction::Left));
    assert_eq!(board.get_selected_cell_index(), 0);

    board.change_active_cell(InputEvent::Navigation(Direction::Down));
    assert_eq!(board.get_selected_cell_index(), board.get_board_width());

    board.change_active_cell(InputEvent::Navigation(Direction::Up));
    assert_eq!(board.get_selected_cell_index(), 0);

    board.change_active_cell(InputEvent::Navigation(Direction::Left));
    assert_eq!(board.get_selected_cell_index(), 0);

    board.change_active_cell(InputEvent::Navigation(Direction::Up));
    assert_eq!(board.get_selected_cell_index(), 0);
}

#[test]
fn test_get_pos_from_index() {
    let mut board: Board = Board::new();
    board.initiate_board(Difficulty::Easy);

    assert_eq!(board.get_pos_from_index(0), (0, 0));
    assert_eq!(board.get_pos_from_index(1), (1, 0));
    assert_eq!(board.get_pos_from_index(board.get_board_width() as i16), (0, 1));
}

#[test]
fn test_get_index_from_pos() {
    let mut board: Board = Board::new();
    board.initiate_board(Difficulty::Easy);

    assert_eq!(board.get_index_from_pos(0, 0).unwrap(), 0);
    assert_eq!(board.get_index_from_pos(1, 0).unwrap(), 1);
    assert_eq!(board.get_index_from_pos(0, 1).unwrap(), board.get_board_width());
}

#[test]
fn generated_boards_hold_their_cells_and_mines() {
    let mut board = Board::new();
    for (difficulty, width, height, mines) in [
        (Difficulty::Easy, 9, 9, 10),
        (Difficulty::Medium, 16, 16, 32),
        (Difficulty::Hard, 30, 16, 60),
    ] {
        board.initiate_board(difficulty);
        assert_eq!(board.get_cells().len(), width * height);
        assert_eq!(board.get_board_width() * board.get_board_height(), board.get_cells().len());
        assert_eq!(mine_total(&board), mines);
        assert_eq!(board.get_flag_count(), 0);
        assert_eq!(board.get_selected_cell_index(), 0);
        assert!(board.get_cells().iter().all(|c| !c.is_open() && !c.is_flagged()));
        assert!(board.get_cells()[0].is_selected());
        assert_eq!(board.get_cells().iter().filter(|c| c.is_selected()).count(), 1);
    }
}

#[test]
fn regenerating_clears_the_previous_game() {
    let mut board = Board::new();
    board.initiate_board(Difficulty::Hard);
    board.toggle_active_cell_flag();
    go(&mut board, Direction::Right);
    board.initiate_board(Difficulty::Easy);
    assert_eq!(board.get_cells().len(), 81);
    assert_eq!(board.get_flag_count(), 0);
    assert_eq!(board.get_selected_cell_index(), 0);
    assert_eq!(mine_total(&board), 10);
}

#[test]
fn adjacency_counts_follow_the_mines() {
    let board = custom_board(3, 3, &[4]);
    for (i, cell) in board.get_cells().iter().enumerate() {
        if i == 4 {
            assert!(cell.is_bomb());
            assert_eq!(cell.get_value(), 0);
        } else {
            assert!(!cell.is_bomb());
            assert_eq!(cell.get_value(), 1);
        }
    }

    let board = custom_board(3, 3, &[0]);
    let values: Vec<i16> = board.get_cells().iter().map(|c| c.get_value()).collect();
    assert_eq!(values, vec![0, 1, 0, 1, 1, 0, 0, 0, 0]);

    let board = custom_board(4, 2, &[0, 1, 7]);
    let values: Vec<i16> = board.get_cells().iter().map(|c| c.get_value()).collect();
    assert_eq!(values, vec![1, 1, 2, 1, 2, 2, 2, 0]);
}

#[test]
fn generated_counts_match_the_mines() {
    let mut board = Board::new();
    board.initiate_board(Difficulty::Medium);
    let w = board.get_board_width() as i16;
    let h = board.get_board_height() as i16;
    let cells = board.get_cells();
    for i in 0..cells.len() {
        let (x, y) = board.get_pos_from_index(i as i16);
        let mut around = 0;
        for dy in -1..=1 {
            for dx in -1..=1 {
                if (dx, dy) == (0, 0) {
                    continue;
                }
                let (nx, ny) = (x + dx, y + dy);
                if nx >= 0 && nx < w && ny >= 0 && ny < h {
                    let n = board.get_index_from_pos(nx, ny).unwrap();
                    if cells[n].is_bomb() {
                        around += 1;
                    }
                }
            }
        }
        assert_eq!(cells[i].get_value(), around);
    }
}

#[test]
fn positions_and_indices_round_trip() {
    let mut board = Board::new();
    board.initiate_board(Difficulty::Hard);
    for i in 0..board.get_cells().len() {
        let (x, y) = board.get_pos_from_index(i as i16);
        assert_eq!(board.get_index_from_pos(x, y), Some(i));
    }
    assert_eq!(board.get_pos_from_index(31), (1, 1));
    assert_eq!(board.get_index_from_pos(29, 15), Some(479));
    assert_eq!(board.get_index_from_pos(30, 0), None);
    assert_eq!(board.get_index_from_pos(0, 16), None);
    assert_eq!(board.get_index_from_pos(-1, 0), None);
    assert_eq!(board.get_index_from_pos(0, -1), None);
}

#[test]
fn moving_off_an_edge_keeps_the_cursor() {
    let mut board = custom_board(3, 2, &[]);
    go(&mut board, Direction::Up);
    assert_eq!(board.get_selected_cell_index(), 0);
    go(&mut board, Direction::Left);
    assert_eq!(board.get_selected_cell_index(), 0);
    go(&mut board, Direction::Right);
    go(&mut board, Direction::Right);
    assert_eq!(board.get_selected_cell_index(), 2);
    go(&mut board, Direction::Right);
    assert_eq!(board.get_selected_cell_index(), 2);
    go(&mut board, Direction::Down);
    assert_eq!(board.get_selected_cell_index(), 5);
    go(&mut board, Direction::Down);
    assert_eq!(board.get_selected_cell_index(), 5);
    go(&mut board, Direction::Right);
    assert_eq!(board.get_selected_cell_index(), 5);
    go(&mut board, Direction::Left);
    go(&mut board, Direction::Left);
    assert_eq!(board.get_selected_cell_index(), 3);
    go(&mut board, Direction::Left);
    assert_eq!(board.get_selected_cell_index(), 3);
    assert!(board.get_cells()[3].is_selected());
    assert_eq!(board.get_cells().iter().filter(|c| c.is_selected()).count(), 1);
}

#[test]
fn moves_there_and_back_return_to_the_origin() {
    let mut board = custom_board(4, 3, &[5]);
    go(&mut board, Direction::Right);
    go(&mut board, Direction::Down);
    assert_eq!(board.get_selected_cell_index(), 5);
    go(&mut board, Direction::Right);
    go(&mut board, Direction::Left);
    assert_eq!(board.get_selected_cell_index(), 5);
    go(&mut board, Direction::Down);
    assert_eq!(board.get_selected_cell_index(), 9);
    go(&mut board, Direction::Up);
    assert_eq!(board.get_selected_cell_index(), 5);
    assert!(board.get_cells()[5].is_selected());
    assert!(!board.get_cells()[9].is_selected());
    assert!(!board.get_cells()[6].is_selected());
}

#[test]
fn toggling_a_flag_twice_restores_the_count() {
    let mut board = custom_board(3, 3, &[8]);
    assert_eq!(board.get_flag_count(), 0);
    board.toggle_active_cell_flag();
    assert_eq!(board.get_flag_count(), 1);
    assert!(board.get_cells()[0].is_flagged());
    board.toggle_active_cell_flag();
    assert_eq!(board.get_flag_count(), 0);
    assert!(!board.get_cells()[0].is_flagged());
}

#[test]
fn opening_a_flagged_cell_clears_its_flag() {
    let mut board = custom_board(3, 3, &[8]);
    board.toggle_active_cell_flag();
    assert_eq!(board.get_flag_count(), 1);
    let mut game_over = false;
    board.select_active_cell(&mut game_over);
    assert!(!game_over);
    assert!(board.get_cells()[0].is_open());
    assert!(!board.get_cells()[0].is_flagged());
    assert_eq!(board.get_flag_count(), 0);
    // An open cell cannot be flagged.
    board.toggle_active_cell_flag();
    assert!(!board.get_cells()[0].is_flagged());
    assert_eq!(board.get_flag_count(), 0);
}

#[test]
fn selecting_a_mine_reports_it() {
    let mut board = custom_board(2, 2, &[1]);
    let mut game_over = false;
    board.select_active_cell(&mut game_over);
    assert!(!game_over);
    assert!(!board.is_selected_cell_bomb());
    go(&mut board, Direction::Right);
    assert!(board.is_selected_cell_bomb());
    board.select_active_cell(&mut game_over);
    assert!(game_over);
    assert!(board.get_cells()[1].is_open());
}

#[test]
fn all_safe_cells_open_only_when_every_safe_cell_is() {
    let mut board = custom_board(2, 2, &[]);
    assert!(!board.is_all_safe_cells_open());
    let mut game_over = false;
    board.select_active_cell(&mut game_over);
    go(&mut board, Direction::Right);
    board.select_active_cell(&mut game_over);
    go(&mut board, Direction::Down);
    board.select_active_cell(&mut game_over);
    assert!(!board.is_all_safe_cells_open());
    go(&mut board, Direction::Left);
    board.select_active_cell(&mut game_over);
    assert!(board.is_all_safe_cells_open());
    assert!(!game_over);

    let mut board = custom_board(2, 1, &[1]);
    assert!(!board.is_all_safe_cells_open());
    board.select_active_cell(&mut game_over);
    assert!(board.is_all_safe_cells_open());
}

#[test]
fn a_fresh_board_is_not_won() {
    let mut board = Board::new();
    for difficulty in [Difficulty::Easy, Difficulty::Medium, Difficulty::Hard] {
        board.initiate_board(difficulty);
        assert!(!board.is_all_safe_cells_open());
    }
}

#[test]
fn layouts_are_checked() {
    let mut board = custom_board(2, 2, &[3]);
    assert_eq!(
        board.initiate_board_with_mines(0, 3, &vec![]),
        Err(LayoutError::InvalidSize)
    );
    assert_eq!(
        board.initiate_board_with_mines(200, 200, &vec![]),
        Err(LayoutError::InvalidSize)
    );
    assert_eq!(
        board.initiate_board_with_mines(2, 3, &vec![1, 6]),
        Err(LayoutError::MineOutOfRange)
    );
    assert_eq!(
        board.initiate_board_with_mines(2, 3, &vec![2, 5, 2]),
        Err(LayoutError::DuplicateMine)
    );
    assert_eq!(board.get_cells().len(), 4);
    assert!(board.get_cells()[3].is_bomb());
    assert_eq!(board.initiate_board_with_mines(2, 3, &vec![2, 5]), Ok(()));
    assert_eq!(board.get_cells().len(), 6);
    assert_eq!(board.get_bomb_count(), 2);
    assert_eq!(mine_total(&board), 2);
}

#[test]
fn an_empty_board_ignores_actions() {
    let mut board = Board::new();
    board.toggle_active_cell_flag();
    let mut game_over = false;
    board.select_active_cell(&mut game_over);
    go(&mut board, Direction::Down);
    assert!(!game_over);
    assert_eq!(board.get_cells().len(), 0);
    assert_eq!(board.get_flag_count(), 0);
    assert_eq!(board.get_selected_cell_index(), 0);
    assert!(!board.is_selected_cell_bomb());
}
