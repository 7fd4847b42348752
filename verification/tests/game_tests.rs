use tictactoe_agent::board::{Board, FieldPosition, FieldState};
use tictactoe_agent::game::{GameEvent, GameState};

const E: FieldState = FieldState::Empty;
const X: FieldState = FieldState::X;
const O: FieldState = FieldState::O;

#[test]
fn empty_board_asks_for_cross() {
    let game = GameState::new();
    assert_eq!(game.next_event(&Board::empty()), GameEvent::CrossTurn);
}

#[test]
fn one_more_cross_asks_for_circle() {
    let game = GameState::new();
    let board = Board([[X, E, E], [E, E, E], [E, E, E]]);
    assert_eq!(game.next_event(&board), GameEvent::CircleTurn);
}

#[test]
fn complete_lines_end_the_game() {
    let game = GameState::new();
    let board = Board([[X, X, X], [O, O, E], [E, E, E]]);
    assert_eq!(game.next_event(&board), GameEvent::CrossWon);
    let board = Board([[X, X, E], [O, O, O], [X, E, E]]);
    assert_eq!(game.next_event(&board), GameEvent::CircleWon);
}

#[test]
fn full_board_without_line_is_a_draw() {
    let game = GameState::new();
    let board = Board([[X, O, X], [X, O, O], [O, X, X]]);
    assert_eq!(game.next_event(&board), GameEvent::Draw);
}

#[test]
fn wrong_counts_are_invalid() {
    let game = GameState::new();
    let board = Board([[O, E, E], [E, E, E], [E, E, E]]);
    assert_eq!(game.next_event(&board), GameEvent::InvalidBoard);
    let board = Board([[X, X, E], [E, E, E], [E, E, E]]);
    assert_eq!(game.next_event(&board), GameEvent::InvalidBoard);
}

#[test]
fn only_wins_and_draws_end_the_game() {
    assert!(GameEvent::CrossWon.ends_game());
    assert!(GameEvent::CircleWon.ends_game());
    assert!(GameEvent::Draw.ends_game());
    assert!(!GameEvent::CrossTurn.ends_game());
    assert!(!GameEvent::CircleTurn.ends_game());
    assert!(!GameEvent::InvalidBoard.ends_game());
}

#[test]
fn a_game_of_first_empty_cells_ends_with_a_win_of_cross() {
    let game = GameState::new();
    let mut board = Board::empty();
    let mut turns = 0;
    loop {
        let event = game.next_event(&board);
        if event.ends_game() {
            assert_eq!(event, GameEvent::CrossWon);
            break;
        }
        let pos: FieldPosition = board.get_empty_fields_pos()[0];
        board.play_move_at(pos);
        turns += 1;
        assert!(turns <= 9);
    }
    assert_eq!(turns, 7);
    assert_eq!(board, Board([[X, O, X], [O, X, O], [X, E, E]]));
}
