//! The referee: what the state of a board asks for next.

use crate::board::{Board, FieldPosition, FieldState};
use vstd::prelude::*;

verus! {

/// What a board asks for: a move of one side, or the end of the game.
#[derive(Debug, Clone, Copy, PartialEq, Eq, Structural)]
pub enum GameEvent {
    CrossWon,
    CircleWon,
    Draw,
    CrossTurn,
    CircleTurn,
    InvalidBoard,
}

impl GameEvent {
    /// Whether the event ends the game.
    pub open spec fn is_final(self) -> bool {
        self == GameEvent::CrossWon || self == GameEvent::CircleWon || self == GameEvent::Draw
    }

    /// Tells whether the event ends the game: a win of either side or a draw.
    pub fn ends_game(&self) -> (ends: bool)
        ensures
            ends == self.is_final(),
    {
        match self {
            GameEvent::CrossWon | GameEvent::CircleWon | GameEvent::Draw => true,
            _ => false,
        }
    }
}

/// The rules of the game. It holds no state: a game is its board.
#[derive(Debug, Clone, Copy)]
pub struct GameState {}

impl GameState {
    pub fn new() -> Self {
        Self {  }
    }

    /// The event that `board` asks for: the win of the side that has a
    /// complete line; else a draw where no cell is empty; else the turn of
    /// X where both sides have as many marks, the turn of O where X has one
    /// more; and `InvalidBoard` for any other count of marks.
    pub open spec fn event_of(board: Board) -> GameEvent {
        if board.winner() == FieldState::X {
            GameEvent::CrossWon
        } else if board.winner() == FieldState::O {
            GameEvent::CircleWon
        } else if board.count(FieldState::Empty) == 0 {
            GameEvent::Draw
        } else if board.count(FieldState::X) == board.count(FieldState::O) {
            GameEvent::CrossTurn
        } else if board.count(FieldState::X) == board.count(FieldState::O) + 1 {
            GameEvent::CircleTurn
        } else {
            GameEvent::InvalidBoard
        }
    }

    /// A move on a board that asks for a turn is answered by the turn of the
    /// other side, by a win of the side that moved, or by a draw.
    pub proof fn lemma_move_answers_turn(board: Board, pos: FieldPosition)
        requires
            board.is_empty_at(pos),
            Self::event_of(board) == GameEvent::CrossTurn || Self::event_of(board)
                == GameEvent::CircleTurn,
        ensures
            Self::event_of(board) == GameEvent::CrossTurn ==> {
                let next = Self::event_of(board.with_move_at(pos));
                next == GameEvent::CircleTurn || next == GameEvent::CrossWon || next
                    == GameEvent::Draw
            },
            Self::event_of(board) == GameEvent::CircleTurn ==> {
                let next = Self::event_of(board.with_move_at(pos));
                next == GameEvent::CrossTurn || next == GameEvent::CircleWon || next
                    == GameEvent::Draw
            },
    {
        board.lemma_move_changes_counts(pos);
        let after = board.with_move_at(pos);
        let mark = board.mark_to_move();
        assert(board.winner() == FieldState::Empty);
        assert(forall|x: int, y: int|
            0 <= x < 3 && 0 <= y < 3 ==> after.cell(x, y) == if x == pos.x && y == pos.y {
                mark
            } else {
                board.cell(x, y)
            });
        assert(after.winner() == FieldState::Empty || after.winner() == mark);
    }

    /// Tells what `board` asks for next.
    pub fn next_event(&self, board: &Board) -> (event: GameEvent)
        ensures
            event == Self::event_of(*board),
    {
        match board.find_winner() {
            FieldState::X => GameEvent::CrossWon,
            FieldState::O => GameEvent::CircleWon,
            _ => {
                let cross_count = board.field_state_count(FieldState::X);
                let circle_count = board.field_state_count(FieldState::O);
                let empty_field_count = board.field_state_count(FieldState::Empty);
                proof {
                    board.lemma_count_below_bound(9, FieldState::O);
                }
                if empty_field_count == 0 {
                    GameEvent::Draw
                } else if cross_count == circle_count {
                    GameEvent::CrossTurn
                } else if cross_count == (circle_count + 1) {
                    GameEvent::CircleTurn
                } else {
                    GameEvent::InvalidBoard
                }
            },
        }
    }
}

} // verus!
