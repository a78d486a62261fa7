use minesweeper_core::board::{Board, CellState, GameState};
use minesweeper_core::boardgenerator::{count_surrounding_mines, generate_board};
use minesweeper_core::boardlogic::{count_flags, mark, poke, poke_single_cell};
use minesweeper_core::settings::{set_game_settings, Settings};

fn two_cell_board() -> Board {
    // 2x1 board: mine at (0,0), the cell at (1,0) counts it
    let mut b = Board::new(2, 1, 1);
    b.set_value(0, 0, 9).unwrap();
    b.set_value(1, 0, 1).unwrap();
    b
}

#[test]
fn empty_board_rejects_everything() {
    let b = Board::empty();
    assert!(b.board_empty());
    assert!(b.get_value(0, 0).is_err());
    assert!(b.get_state(0, 0).is_err());
    assert_eq!(b.get_game_state(), GameState::BeforeGame);
}

#[test]
fn accessors_validate_bounds_and_values() {
    let mut b = Board::new(3, 2, 1);
    assert_eq!(b.get_width(), 3);
    assert_eq!(b.get_height(), 2);
    assert!(b.get_value(3, 0).is_err());
    assert!(b.get_state(0, 2).is_err());
    assert!(b.set_value(0, 0, 10).is_err());
    assert!(b.set_value(0, 0, 9).is_ok());
    assert_eq!(b.get_value(0, 0).unwrap(), 9);
    assert!(b.set_state(0, 0, CellState::Flagged).is_ok());
    assert_eq!(b.get_state(0, 0).unwrap(), CellState::Flagged);
    assert_eq!(b.get_hidden_cell_count(), 6);
}

#[test]
fn generate_board_rejects_bad_parameters() {
    assert!(generate_board(0, 5, 1, 0, 0).is_none());
    assert!(generate_board(5, 0, 1, 0, 0).is_none());
    assert!(generate_board(5, 5, 1, 5, 0).is_none());
    assert!(generate_board(5, 5, 1, 0, 5).is_none());
}

#[test]
fn center_start_on_3x3_places_no_mines() {
    // the whole 3x3 board borders the center cell, so the candidate set is
    // empty and the requested mine is clamped away
    let b = generate_board(3, 3, 1, 1, 1).unwrap();
    for y in 0..3 {
        for x in 0..3 {
            assert_eq!(b.get_value(x, y).unwrap(), 0);
            assert_eq!(b.get_state(x, y).unwrap(), CellState::Hidden);
        }
    }
}

#[test]
fn generation_keeps_safety_zone_clear_and_values_exact() {
    let b = generate_board(6, 5, 8, 2, 2).unwrap();
    assert_eq!(b.get_game_state(), GameState::Playing);
    let mut mines = 0;
    for y in 0..5usize {
        for x in 0..6usize {
            let v = b.get_value(x, y).unwrap();
            let near_start = (x as i64 - 2).abs() <= 1 && (y as i64 - 2).abs() <= 1;
            if near_start {
                assert_ne!(v, 9);
            }
            if v == 9 {
                mines += 1;
            } else {
                assert_eq!(v, count_surrounding_mines(x, y, &b));
            }
        }
    }
    assert_eq!(mines, 8);
}

#[test]
fn sampling_is_clamped_to_one_mine() {
    // 5 candidate cells on a 3x3 board with a corner start; exactly one mine
    // must be placed, not the whole candidate set
    let b = generate_board(3, 3, 1, 0, 0).unwrap();
    let mut mines = 0;
    for y in 0..3 {
        for x in 0..3 {
            if b.get_value(x, y).unwrap() == 9 {
                mines += 1;
            }
        }
    }
    assert_eq!(mines, 1);
}

#[test]
fn mark_cycles_with_questions_enabled() {
    let mut b = two_cell_board();
    let s = Settings::new();
    let gc = mark(&mut b, &s, 0, 0);
    assert_eq!(gc.flag_count, 1);
    assert_eq!(gc.hidden_cell_count, 1);
    assert_eq!(b.get_state(0, 0).unwrap(), CellState::Flagged);
    mark(&mut b, &s, 0, 0);
    assert_eq!(b.get_state(0, 0).unwrap(), CellState::Questioned);
    let gc3 = mark(&mut b, &s, 0, 0);
    assert_eq!(b.get_state(0, 0).unwrap(), CellState::Hidden);
    assert_eq!(gc3.flag_count, 0);
    assert_eq!(gc3.hidden_cell_count, 2);
}

#[test]
fn mark_cycles_without_questions() {
    let mut b = two_cell_board();
    let mut s = Settings::new();
    set_game_settings(
        &mut s,
        Settings { questions_enabled: false, quick_uncover: true, protected_quick_uncover: true },
    );
    mark(&mut b, &s, 0, 0);
    assert_eq!(b.get_state(0, 0).unwrap(), CellState::Flagged);
    mark(&mut b, &s, 0, 0);
    assert_eq!(b.get_state(0, 0).unwrap(), CellState::Hidden);
}

#[test]
fn mark_ignores_revealed_and_out_of_bounds_cells() {
    let mut b = two_cell_board();
    let s = Settings::new();
    poke(&mut b, &s, 1, 0);
    let gc = mark(&mut b, &s, 1, 0);
    assert_eq!(b.get_state(1, 0).unwrap(), CellState::ShowValue);
    assert_eq!(gc.changes.len(), 0);
    let gc2 = mark(&mut b, &s, 7, 7);
    assert_eq!(gc2.changes.len(), 0);
}

#[test]
fn flagging_the_mine_then_revealing_wins() {
    let mut b = two_cell_board();
    let s = Settings::new();
    mark(&mut b, &s, 0, 0);
    let gc = poke(&mut b, &s, 1, 0);
    assert_eq!(gc.game_state, GameState::GameWon);
    assert_eq!(gc.mines_remaining, 0);
    assert_eq!(gc.hidden_cell_count, 0);
}

#[test]
fn revealing_all_safe_cells_wins_and_autoflags() {
    let mut b = two_cell_board();
    let s = Settings::new();
    let gc = poke(&mut b, &s, 1, 0);
    assert_eq!(gc.game_state, GameState::GameWon);
    assert_eq!(b.get_state(0, 0).unwrap(), CellState::Flagged);
    assert_eq!(gc.mines_remaining, 0);
}

#[test]
fn poking_a_mine_loses_and_discloses() {
    // 3x1: mine at 0, wrong flag at 2, questioned mine impossible here, so
    // use a second mine under a question mark
    let mut b = Board::new(3, 1, 2);
    b.set_value(0, 0, 9).unwrap();
    b.set_value(1, 0, 2).unwrap();
    b.set_value(2, 0, 9).unwrap();
    let s = Settings::new();
    mark(&mut b, &s, 2, 0); // flag the second mine... then cycle to questioned
    mark(&mut b, &s, 2, 0);
    let gc = poke(&mut b, &s, 0, 0);
    assert_eq!(gc.game_state, GameState::GameOver);
    assert_eq!(b.get_state(0, 0).unwrap(), CellState::ShowMineExploded);
    assert_eq!(b.get_state(2, 0).unwrap(), CellState::ShowValue);
    assert!(!gc.changes.is_empty());
}

#[test]
fn wrong_flag_is_marked_invalid_on_loss() {
    let mut b = Board::new(3, 1, 1);
    b.set_value(0, 0, 9).unwrap();
    b.set_value(1, 0, 1).unwrap();
    b.set_value(2, 0, 0).unwrap();
    let s = Settings::new();
    mark(&mut b, &s, 2, 0); // flag a non-mine
    poke(&mut b, &s, 0, 0);
    assert_eq!(b.get_state(2, 0).unwrap(), CellState::ShowInvalidMine);
}

#[test]
fn zero_cell_floods_to_the_numbered_border() {
    // 4x1: mine at 3; values 0,0,1: poking 0 reveals 0,1,2 and stops
    // (mine_total 2 keeps the win check from firing)
    let mut b = Board::new(4, 1, 2);
    b.set_value(3, 0, 9).unwrap();
    b.set_value(2, 0, 1).unwrap();
    let s = Settings::new();
    let gc = poke(&mut b, &s, 0, 0);
    assert_eq!(b.get_state(0, 0).unwrap(), CellState::ShowValue);
    assert_eq!(b.get_state(1, 0).unwrap(), CellState::ShowValue);
    assert_eq!(b.get_state(2, 0).unwrap(), CellState::ShowValue);
    assert_eq!(b.get_state(3, 0).unwrap(), CellState::Hidden);
    assert_eq!(gc.game_state, GameState::Playing);
    assert_eq!(gc.hidden_cell_count, 1);
}

#[test]
fn flood_does_not_open_flagged_cells() {
    let mut b = Board::new(4, 1, 2);
    b.set_value(3, 0, 9).unwrap();
    b.set_value(2, 0, 1).unwrap();
    let s = Settings::new();
    mark(&mut b, &s, 1, 0);
    poke(&mut b, &s, 0, 0);
    assert_eq!(b.get_state(0, 0).unwrap(), CellState::ShowValue);
    assert_eq!(b.get_state(1, 0).unwrap(), CellState::Flagged);
    assert_eq!(b.get_state(2, 0).unwrap(), CellState::Hidden);
}

#[test]
fn protected_quick_uncover_needs_matching_flags() {
    // 3x1: mine at 0, value 1 at 1, value 0 at 2
    let mut b = Board::new(3, 1, 1);
    b.set_value(0, 0, 9).unwrap();
    b.set_value(1, 0, 1).unwrap();
    let s = Settings::new();
    poke(&mut b, &s, 1, 0); // reveal the numbered cell
    let gc = poke(&mut b, &s, 1, 0); // chord without a flag: protected, no-op
    assert_eq!(b.get_state(2, 0).unwrap(), CellState::Hidden);
    assert_eq!(gc.changes.len(), 0);
    mark(&mut b, &s, 0, 0); // flag the mine
    assert_eq!(count_flags(1, 0, &b), 1);
    poke(&mut b, &s, 1, 0); // now the chord fires
    assert_eq!(b.get_state(2, 0).unwrap(), CellState::ShowValue);
}

#[test]
fn quick_uncover_disabled_is_a_no_op() {
    let mut b = two_cell_board();
    let s = Settings {
        questions_enabled: true,
        quick_uncover: false,
        protected_quick_uncover: false,
    };
    // reveal the numbered cell wins the game here, so build a 3x1 instead
    let mut b3 = Board::new(3, 1, 3);
    b3.set_value(0, 0, 9).unwrap();
    b3.set_value(1, 0, 2).unwrap();
    b3.set_value(2, 0, 9).unwrap();
    poke(&mut b3, &s, 1, 0);
    let gc = poke(&mut b3, &s, 1, 0);
    assert_eq!(gc.changes.len(), 0);
    assert_eq!(b3.get_state(0, 0).unwrap(), CellState::Hidden);
    let _ = b;
}

#[test]
fn remaining_mines_can_go_negative() {
    let mut b = Board::new(2, 2, 1);
    b.set_value(0, 0, 9).unwrap();
    let s = Settings::new();
    mark(&mut b, &s, 0, 1);
    mark(&mut b, &s, 1, 1);
    assert_eq!(b.get_remaining_mines(), -1);
    assert!(!b.all_mines_found());
}

#[test]
fn clone_cells_snapshots_the_grid() {
    let mut b = two_cell_board();
    let cells = b.clone_cells();
    assert_eq!(cells.len(), 1);
    assert_eq!(cells[0].len(), 2);
    assert_eq!(cells[0][0].value, 9);
    assert_eq!(cells[0][0].state, CellState::Hidden);
    let s = Settings::new();
    mark(&mut b, &s, 0, 0);
    assert_eq!(cells[0][0].state, CellState::Hidden);
}

#[test]
fn unprotected_chord_fires_regardless_of_flags() {
    // 3x1 with two mines booked but only one placed, so no win interferes
    let mut b = Board::new(3, 1, 3);
    b.set_value(0, 0, 9).unwrap();
    b.set_value(1, 0, 1).unwrap();
    let s = Settings {
        questions_enabled: true,
        quick_uncover: true,
        protected_quick_uncover: false,
    };
    poke(&mut b, &s, 1, 0); // reveal the numbered cell
    let gc = poke(&mut b, &s, 1, 0); // chord with no flag placed: fires anyway
    // the chord re-pokes the mine at (0,0): the game is lost
    assert_eq!(gc.game_state, GameState::GameOver);
    assert_eq!(b.get_state(0, 0).unwrap(), CellState::ShowMineExploded);
}

#[test]
fn poke_single_cell_is_a_no_op_on_non_hidden_cells() {
    let mut b = Board::new(3, 1, 3);
    b.set_value(0, 0, 9).unwrap();
    b.set_value(1, 0, 1).unwrap();
    let s = Settings::new();
    mark(&mut b, &s, 2, 0);
    let mut changes = Vec::new();
    poke_single_cell(2, 0, &mut b, &mut changes); // flagged: no-op
    assert_eq!(b.get_state(2, 0).unwrap(), CellState::Flagged);
    assert!(changes.is_empty());
    poke_single_cell(9, 9, &mut b, &mut changes); // out of bounds: no-op
    assert!(changes.is_empty());
    poke_single_cell(1, 0, &mut b, &mut changes); // hidden numbered: revealed
    assert_eq!(b.get_state(1, 0).unwrap(), CellState::ShowValue);
    assert_eq!(changes.len(), 1);
}

#[test]
fn flagging_the_last_mine_wins() {
    // a board whose only still-hidden cell is the mine: flagging it wins
    let mut b = Board::new(1, 1, 1);
    b.set_value(0, 0, 9).unwrap();
    let s = Settings::new();
    let gc = mark(&mut b, &s, 0, 0);
    assert_eq!(gc.game_state, GameState::GameWon);
    assert_eq!(gc.mines_remaining, 0);
    assert_eq!(gc.flag_count, 1);
    assert_eq!(b.get_state(0, 0).unwrap(), CellState::Flagged);
}

#[test]
fn flag_win_autoflags_remaining_mines() {
    // flagging one of two mines completes the board: the win pass flags the
    // other one and records both transitions
    let mut b = Board::new(2, 1, 2);
    b.set_value(0, 0, 9).unwrap();
    b.set_value(1, 0, 9).unwrap();
    let s = Settings::new();
    let gc = mark(&mut b, &s, 0, 0);
    assert_eq!(gc.game_state, GameState::GameWon);
    assert_eq!(b.get_state(1, 0).unwrap(), CellState::Flagged);
    assert_eq!(gc.flag_count, 2);
    assert_eq!(gc.mines_remaining, 0);
    assert_eq!(gc.hidden_cell_count, 0);
    assert_eq!(gc.changes.len(), 2);
}

#[test]
fn loss_keeps_counters_exact() {
    // mine at 0, questioned mine at 2, wrong flag at 3: the disclosure books
    // every transition, so the counters still match the grid afterwards
    let mut b = Board::new(4, 1, 2);
    b.set_value(0, 0, 9).unwrap();
    b.set_value(1, 0, 2).unwrap();
    b.set_value(2, 0, 9).unwrap();
    b.set_value(3, 0, 1).unwrap();
    let s = Settings::new();
    mark(&mut b, &s, 2, 0);
    mark(&mut b, &s, 2, 0); // the second mine sits under a question mark
    mark(&mut b, &s, 3, 0); // a wrong flag on a numbered cell
    let gc = poke(&mut b, &s, 0, 0);
    assert_eq!(gc.game_state, GameState::GameOver);
    // only (1,0) is still in play; the wrong flag was replaced, not counted
    assert_eq!(gc.hidden_cell_count, 1);
    assert_eq!(gc.flag_count, 0);
    assert_eq!(gc.changes.len(), 3);
}

#[test]
fn flood_records_every_reveal() {
    let mut b = Board::new(4, 1, 2);
    b.set_value(3, 0, 9).unwrap();
    b.set_value(2, 0, 1).unwrap();
    let s = Settings::new();
    let gc = poke(&mut b, &s, 0, 0);
    assert_eq!(gc.changes.len(), 3);
    let mut seen = [false; 3];
    for ch in &gc.changes {
        assert_eq!(ch.y, 0);
        assert!(ch.x < 3);
        assert!(!seen[ch.x]);
        seen[ch.x] = true;
        assert_eq!(ch.state, Some(CellState::ShowValue));
    }
}

#[test]
fn generation_places_exactly_the_requested_mines() {
    // 5x5 with a corner start: 16 candidates, ask for 3
    let b = generate_board(5, 5, 3, 0, 0).unwrap();
    let mut mines = 0;
    for y in 0..5 {
        for x in 0..5 {
            if b.get_value(x, y).unwrap() == 9 {
                mines += 1;
            }
        }
    }
    assert_eq!(mines, 3);
}
