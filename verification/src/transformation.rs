//! The eight symmetries of the board: how each moves a cell, how it is undone,
//! and how two of them combine.

use crate::board::{Board, BoardFieldPosition, FieldPosition};
use vstd::prelude::*;

verus! {

/// One of the eight ways to lay the board onto itself.
#[derive(Debug, Clone, Copy, PartialEq, Eq, Structural)]
pub enum BoardTransformation {
    Identity,
    Rotated90CW,
    Rotated180,
    Rotated90CCW,
    FlippedHorizontally,
    FlippedVertically,
    FlippedDiagonallySWNE,
    FlippedDiagonallyNWSE,
}

impl BoardTransformation {
    /// Where the cell in column `x` of row `y` goes.
    pub open spec fn forward(self, x: int, y: int) -> (int, int) {
        match self {
            BoardTransformation::Identity => (x, y),
            BoardTransformation::Rotated90CW => (2 - y, x),
            BoardTransformation::Rotated180 => (2 - x, 2 - y),
            BoardTransformation::Rotated90CCW => (y, 2 - x),
            BoardTransformation::FlippedHorizontally => (2 - x, y),
            BoardTransformation::FlippedVertically => (x, 2 - y),
            BoardTransformation::FlippedDiagonallySWNE => (2 - y, 2 - x),
            BoardTransformation::FlippedDiagonallyNWSE => (y, x),
        }
    }

    /// Where the cell that arrives in column `x` of row `y` comes from.
    pub open spec fn backward(self, x: int, y: int) -> (int, int) {
        match self {
            BoardTransformation::Identity => (x, y),
            BoardTransformation::Rotated90CW => (y, 2 - x),
            BoardTransformation::Rotated180 => (2 - x, 2 - y),
            BoardTransformation::Rotated90CCW => (2 - y, x),
            BoardTransformation::FlippedHorizontally => (2 - x, y),
            BoardTransformation::FlippedVertically => (x, 2 - y),
            BoardTransformation::FlippedDiagonallySWNE => (2 - y, 2 - x),
            BoardTransformation::FlippedDiagonallyNWSE => (y, x),
        }
    }

    /// The address to which the cell at `pos` goes.
    pub open spec fn moved(self, pos: FieldPosition) -> FieldPosition {
        let (x, y) = self.forward(pos.x as int, pos.y as int);
        FieldPosition { x: x as usize, y: y as usize }
    }

    /// The address from which the cell that arrives at `pos` comes.
    pub open spec fn moved_back(self, pos: FieldPosition) -> FieldPosition {
        let (x, y) = self.backward(pos.x as int, pos.y as int);
        FieldPosition { x: x as usize, y: y as usize }
    }

    /// The transformation that undoes this one: the two quarter turns undo
    /// each other, every other transformation undoes itself.
    pub open spec fn inverse(self) -> BoardTransformation {
        match self {
            BoardTransformation::Rotated90CW => BoardTransformation::Rotated90CCW,
            BoardTransformation::Rotated90CCW => BoardTransformation::Rotated90CW,
            other => other,
        }
    }

    /// The single transformation that does what this one followed by `next` does.
    pub open spec fn followed_by(self, next: BoardTransformation) -> BoardTransformation {
        match self {
            BoardTransformation::Identity => match next {
                BoardTransformation::Identity => BoardTransformation::Identity,
                BoardTransformation::Rotated90CW => BoardTransformation::Rotated90CW,
                BoardTransformation::Rotated180 => BoardTransformation::Rotated180,
                BoardTransformation::Rotated90CCW => BoardTransformation::Rotated90CCW,
                BoardTransformation::FlippedHorizontally => BoardTransformation::FlippedHorizontally,
                BoardTransformation::FlippedVertically => BoardTransformation::FlippedVertically,
                BoardTransformation::FlippedDiagonallySWNE => BoardTransformation::FlippedDiagonallySWNE,
                BoardTransformation::FlippedDiagonallyNWSE => BoardTransformation::FlippedDiagonallyNWSE,
            },
            BoardTransformation::Rotated90CW => match next {
                BoardTransformation::Identity => BoardTransformation::Rotated90CW,
                BoardTransformation::Rotated90CW => BoardTransformation::Rotated180,
                BoardTransformation::Rotated180 => BoardTransformation::Rotated90CCW,
                BoardTransformation::Rotated90CCW => BoardTransformation::Identity,
                BoardTransformation::FlippedHorizontally => BoardTransformation::FlippedDiagonallyNWSE,
                BoardTransformation::FlippedVertically => BoardTransformation::FlippedDiagonallySWNE,
                BoardTransformation::FlippedDiagonallySWNE => BoardTransformation::FlippedHorizontally,
                BoardTransformation::FlippedDiagonallyNWSE => BoardTransformation::FlippedVertically,
            },
            BoardTransformation::Rotated180 => match next {
                BoardTransformation::Identity => BoardTransformation::Rotated180,
                BoardTransformation::Rotated90CW => BoardTransformation::Rotated90CCW,
                BoardTransformation::Rotated180 => BoardTransformation::Identity,
                BoardTransformation::Rotated90CCW => BoardTransformation::Rotated90CW,
                BoardTransformation::FlippedHorizontally => BoardTransformation::FlippedVertically,
                BoardTransformation::FlippedVertically => BoardTransformation::FlippedHorizontally,
                BoardTransformation::FlippedDiagonallySWNE => BoardTransformation::FlippedDiagonallyNWSE,
                BoardTransformation::FlippedDiagonallyNWSE => BoardTransformation::FlippedDiagonallySWNE,
            },
            BoardTransformation::Rotated90CCW => match next {
                BoardTransformation::Identity => BoardTransformation::Rotated90CCW,
                BoardTransformation::Rotated90CW => BoardTransformation::Identity,
                BoardTransformation::Rotated180 => BoardTransformation::Rotated90CW,
                BoardTransformation::Rotated90CCW => BoardTransformation::Rotated180,
                BoardTransformation::FlippedHorizontally => BoardTransformation::FlippedDiagonallySWNE,
                BoardTransformation::FlippedVertically => BoardTransformation::FlippedDiagonallyNWSE,
                BoardTransformation::FlippedDiagonallySWNE => BoardTransformation::FlippedVertically,
                BoardTransformation::FlippedDiagonallyNWSE => BoardTransformation::FlippedHorizontally,
            },
            BoardTransformation::FlippedHorizontally => match next {
                BoardTransformation::Identity => BoardTransformation::FlippedHorizontally,
                BoardTransformation::Rotated90CW => BoardTransformation::FlippedDiagonallySWNE,
                BoardTransformation::Rotated180 => BoardTransformation::FlippedVertically,
                BoardTransformation::Rotated90CCW => BoardTransformation::FlippedDiagonallyNWSE,
                BoardTransformation::FlippedHorizontally => BoardTransformation::Identity,
                BoardTransformation::FlippedVertically => BoardTransformation::Rotated180,
                BoardTransformation::FlippedDiagonallySWNE => BoardTransformation::Rotated90CW,
                BoardTransformation::FlippedDiagonallyNWSE => BoardTransformation::Rotated90CCW,
            },
            BoardTransformation::FlippedVertically => match next {
                BoardTransformation::Identity => BoardTransformation::FlippedVertically,
                BoardTransformation::Rotated90CW => BoardTransformation::FlippedDiagonallyNWSE,
                BoardTransformation::Rotated180 => BoardTransformation::FlippedHorizontally,
                BoardTransformation::Rotated90CCW => BoardTransformation::FlippedDiagonallySWNE,
                BoardTransformation::FlippedHorizontally => BoardTransformation::Rotated180,
                BoardTransformation::FlippedVertically => BoardTransformation::Identity,
                BoardTransformation::FlippedDiagonallySWNE => BoardTransformation::Rotated90CCW,
                BoardTransformation::FlippedDiagonallyNWSE => BoardTransformation::Rotated90CW,
            },
            BoardTransformation::FlippedDiagonallySWNE => match next {
                BoardTransformation::Identity => BoardTransformation::FlippedDiagonallySWNE,
                BoardTransformation::Rotated90CW => BoardTransformation::FlippedVertically,
                BoardTransformation::Rotated180 => BoardTransformation::FlippedDiagonallyNWSE,
                BoardTransformation::Rotated90CCW => BoardTransformation::FlippedHorizontally,
                BoardTransformation::FlippedHorizontally => BoardTransformation::Rotated90CCW,
                BoardTransformation::FlippedVertically => BoardTransformation::Rotated90CW,
                BoardTransformation::FlippedDiagonallySWNE => BoardTransformation::Identity,
                BoardTransformation::FlippedDiagonallyNWSE => BoardTransformation::Rotated180,
            },
            BoardTransformation::FlippedDiagonallyNWSE => match next {
                BoardTransformation::Identity => BoardTransformation::FlippedDiagonallyNWSE,
                BoardTransformation::Rotated90CW => BoardTransformation::FlippedHorizontally,
                BoardTransformation::Rotated180 => BoardTransformation::FlippedDiagonallySWNE,
                BoardTransformation::Rotated90CCW => BoardTransformation::FlippedVertically,
                BoardTransformation::FlippedHorizontally => BoardTransformation::Rotated90CW,
                BoardTransformation::FlippedVertically => BoardTransformation::Rotated90CCW,
                BoardTransformation::FlippedDiagonallySWNE => BoardTransformation::Rotated180,
                BoardTransformation::FlippedDiagonallyNWSE => BoardTransformation::Identity,
            },
        }
    }

    /// The image of `board`: each cell carried to where `forward` sends it.
    pub open spec fn transformed(self, board: Board) -> Board {
        Board::from_cells(
            |x: int, y: int|
                {
                    let (from_x, from_y) = self.backward(x, y);
                    board.cell(from_x, from_y)
                },
        )
    }

    /// Gives the name of the cell to which the named cell goes.
    pub fn transform_field_position(&self, field_pos: BoardFieldPosition) -> (to: BoardFieldPosition)
        ensures
            to.position() == self.moved(field_pos.position()),
    {
        match self {
            BoardTransformation::Identity => field_pos,
            BoardTransformation::Rotated90CW => match field_pos {
                BoardFieldPosition::NorthWest => BoardFieldPosition::NorthEast,
                BoardFieldPosition::North => BoardFieldPosition::East,
                BoardFieldPosition::NorthEast => BoardFieldPosition::SouthEast,
                BoardFieldPosition::West => BoardFieldPosition::North,
                BoardFieldPosition::East => BoardFieldPosition::South,
                BoardFieldPosition::SouthWest => BoardFieldPosition::NorthWest,
                BoardFieldPosition::South => BoardFieldPosition::West,
                BoardFieldPosition::SouthEast => BoardFieldPosition::SouthWest,
                p => p,
            },
            BoardTransformation::Rotated180 => match field_pos {
                BoardFieldPosition::NorthWest => BoardFieldPosition::SouthEast,
                BoardFieldPosition::North => BoardFieldPosition::South,
                BoardFieldPosition::NorthEast => BoardFieldPosition::SouthWest,
                BoardFieldPosition::West => BoardFieldPosition::East,
                BoardFieldPosition::East => BoardFieldPosition::West,
                BoardFieldPosition::SouthWest => BoardFieldPosition::NorthEast,
                BoardFieldPosition::South => BoardFieldPosition::North,
                BoardFieldPosition::SouthEast => BoardFieldPosition::NorthWest,
                p => p,
            },
            BoardTransformation::Rotated90CCW => match field_pos {
                BoardFieldPosition::NorthWest => BoardFieldPosition::SouthWest,
                BoardFieldPosition::North => BoardFieldPosition::West,
                BoardFieldPosition::NorthEast => BoardFieldPosition::NorthWest,
                BoardFieldPosition::West => BoardFieldPosition::South,
                BoardFieldPosition::East => BoardFieldPosition::North,
                BoardFieldPosition::SouthWest => BoardFieldPosition::SouthEast,
                BoardFieldPosition::South => BoardFieldPosition::East,
                BoardFieldPosition::SouthEast => BoardFieldPosition::NorthEast,
                p => p,
            },
            BoardTransformation::FlippedHorizontally => match field_pos {
                BoardFieldPosition::NorthWest => BoardFieldPosition::NorthEast,
                BoardFieldPosition::NorthEast => BoardFieldPosition::NorthWest,
                BoardFieldPosition::West => BoardFieldPosition::East,
                BoardFieldPosition::East => BoardFieldPosition::West,
                BoardFieldPosition::SouthWest => BoardFieldPosition::SouthEast,
                BoardFieldPosition::SouthEast => BoardFieldPosition::SouthWest,
                p => p,
            },
            BoardTransformation::FlippedVertically => match field_pos {
                BoardFieldPosition::NorthWest => BoardFieldPosition::SouthWest,
                BoardFieldPosition::North => BoardFieldPosition::South,
                BoardFieldPosition::NorthEast => BoardFieldPosition::SouthEast,
                BoardFieldPosition::SouthWest => BoardFieldPosition::NorthWest,
                BoardFieldPosition::South => BoardFieldPosition::North,
                BoardFieldPosition::SouthEast => BoardFieldPosition::NorthEast,
                p => p,
            },
            BoardTransformation::FlippedDiagonallySWNE => match field_pos {
                BoardFieldPosition::NorthWest => BoardFieldPosition::SouthEast,
                BoardFieldPosition::North => BoardFieldPosition::East,
                BoardFieldPosition::West => BoardFieldPosition::South,
                BoardFieldPosition::East => BoardFieldPosition::North,
                BoardFieldPosition::South => BoardFieldPosition::West,
                BoardFieldPosition::SouthEast => BoardFieldPosition::NorthWest,
                p => p,
            },
            BoardTransformation::FlippedDiagonallyNWSE => match field_pos {
                BoardFieldPosition::North => BoardFieldPosition::West,
                BoardFieldPosition::NorthEast => BoardFieldPosition::SouthWest,
                BoardFieldPosition::West => BoardFieldPosition::North,
                BoardFieldPosition::East => BoardFieldPosition::South,
                BoardFieldPosition::SouthWest => BoardFieldPosition::NorthEast,
                BoardFieldPosition::South => BoardFieldPosition::East,
                p => p,
            },
        }
    }

    /// Gives the name of the cell from which the named cell comes: a cell of
    /// the transformed board is named, and the answer names the cell of the
    /// board before the transformation.
    pub fn transform_back_field_position(&self, field_pos: BoardFieldPosition) -> (from:
        BoardFieldPosition)
        ensures
            from.position() == self.moved_back(field_pos.position()),
    {
        match self {
            BoardTransformation::Identity => field_pos,
            BoardTransformation::Rotated90CW => match field_pos {
                BoardFieldPosition::NorthWest => BoardFieldPosition::SouthWest,
                BoardFieldPosition::North => BoardFieldPosition::West,
                BoardFieldPosition::NorthEast => BoardFieldPosition::NorthWest,
                BoardFieldPosition::West => BoardFieldPosition::South,
                BoardFieldPosition::East => BoardFieldPosition::North,
                BoardFieldPosition::SouthWest => BoardFieldPosition::SouthEast,
                BoardFieldPosition::South => BoardFieldPosition::East,
                BoardFieldPosition::SouthEast => BoardFieldPosition::NorthEast,
                p => p,
            },
            BoardTransformation::Rotated180 => match field_pos {
                BoardFieldPosition::NorthWest => BoardFieldPosition::SouthEast,
                BoardFieldPosition::North => BoardFieldPosition::South,
                BoardFieldPosition::NorthEast => BoardFieldPosition::SouthWest,
                BoardFieldPosition::West => BoardFieldPosition::East,
                BoardFieldPosition::East => BoardFieldPosition::West,
                BoardFieldPosition::SouthWest => BoardFieldPosition::NorthEast,
                BoardFieldPosition::South => BoardFieldPosition::North,
                BoardFieldPosition::SouthEast => BoardFieldPosition::NorthWest,
                p => p,
            },
            BoardTransformation::Rotated90CCW => match field_pos {
                BoardFieldPosition::NorthWest => BoardFieldPosition::NorthEast,
                BoardFieldPosition::North => BoardFieldPosition::East,
                BoardFieldPosition::NorthEast => BoardFieldPosition::SouthEast,
                BoardFieldPosition::West => BoardFieldPosition::North,
                BoardFieldPosition::East => BoardFieldPosition::South,
                BoardFieldPosition::SouthWest => BoardFieldPosition::NorthWest,
                BoardFieldPosition::South => BoardFieldPosition::West,
                BoardFieldPosition::SouthEast => BoardFieldPosition::SouthWest,
                p => p,
            },
            BoardTransformation::FlippedHorizontally => match field_pos {
                BoardFieldPosition::NorthWest => BoardFieldPosition::NorthEast,
                BoardFieldPosition::NorthEast => BoardFieldPosition::NorthWest,
                BoardFieldPosition::West => BoardFieldPosition::East,
                BoardFieldPosition::East => BoardFieldPosition::West,
                BoardFieldPosition::SouthWest => BoardFieldPosition::SouthEast,
                BoardFieldPosition::SouthEast => BoardFieldPosition::SouthWest,
                p => p,
            },
            BoardTransformation::FlippedVertically => match field_pos {
                BoardFieldPosition::NorthWest => BoardFieldPosition::SouthWest,
                BoardFieldPosition::North => BoardFieldPosition::South,
                BoardFieldPosition::NorthEast => BoardFieldPosition::SouthEast,
                BoardFieldPosition::SouthWest => BoardFieldPosition::NorthWest,
                BoardFieldPosition::South => BoardFieldPosition::North,
                BoardFieldPosition::SouthEast => BoardFieldPosition::NorthEast,
                p => p,
            },
            BoardTransformation::FlippedDiagonallySWNE => match field_pos {
                BoardFieldPosition::NorthWest => BoardFieldPosition::SouthEast,
                BoardFieldPosition::North => BoardFieldPosition::East,
                BoardFieldPosition::West => BoardFieldPosition::South,
                BoardFieldPosition::East => BoardFieldPosition::North,
                BoardFieldPosition::South => BoardFieldPosition::West,
                BoardFieldPosition::SouthEast => BoardFieldPosition::NorthWest,
                p => p,
            },
            BoardTransformation::FlippedDiagonallyNWSE => match field_pos {
                BoardFieldPosition::North => BoardFieldPosition::West,
                BoardFieldPosition::NorthEast => BoardFieldPosition::SouthWest,
                BoardFieldPosition::West => BoardFieldPosition::North,
                BoardFieldPosition::East => BoardFieldPosition::South,
                BoardFieldPosition::SouthWest => BoardFieldPosition::NorthEast,
                BoardFieldPosition::South => BoardFieldPosition::East,
                p => p,
            },
        }
    }

    /// Gives the address from which the cell at `pos` comes; an address off
    /// the board is handed back as it is.
    pub fn transform_back(&self, pos: FieldPosition) -> (from: FieldPosition)
        ensures
            pos.on_board() ==> from == self.moved_back(pos) && from.on_board(),
            !pos.on_board() ==> from == pos,
    {
        match BoardFieldPosition::from_field_position(pos) {
            Some(name) => self.transform_back_field_position(name).to_field_position(),
            None => pos,
        }
    }

    /// Gives the address to which the cell at `pos` goes; an address off the
    /// board is handed back as it is.
    pub fn transform(&self, pos: FieldPosition) -> (to: FieldPosition)
        ensures
            pos.on_board() ==> to == self.moved(pos) && to.on_board(),
            !pos.on_board() ==> to == pos,
    {
        match BoardFieldPosition::from_field_position(pos) {
            Some(name) => self.transform_field_position(name).to_field_position(),
            None => pos,
        }
    }

    /// Gives the transformation that undoes this one.
    pub fn get_inverse(&self) -> (inverse: BoardTransformation)
        ensures
            inverse == self.inverse(),
    {
        match self {
            BoardTransformation::Rotated90CW => BoardTransformation::Rotated90CCW,
            BoardTransformation::Rotated90CCW => BoardTransformation::Rotated90CW,
            other => *other,
        }
    }

    /// Transforms a board.
    pub fn apply(&self, board: &Board) -> (image: Board)
        ensures
            image == self.transformed(*board),
    {
        proof {
            Self::lemma_board_functions(*board);
        }
        match self {
            BoardTransformation::Identity => *board,
            BoardTransformation::Rotated90CW => board.get_rotated_90_clockwise(),
            BoardTransformation::Rotated180 => {
                board.get_rotated_90_clockwise().get_rotated_90_clockwise()
            },
            BoardTransformation::Rotated90CCW => {
                let half = board.get_rotated_90_clockwise().get_rotated_90_clockwise();
                half.get_rotated_90_clockwise()
            },
            BoardTransformation::FlippedHorizontally => board.get_flipped_horizontally(),
            BoardTransformation::FlippedVertically => board.get_flipped_vertically(),
            BoardTransformation::FlippedDiagonallySWNE => board.get_flipped_diagonally_southwest_northeast(),
            BoardTransformation::FlippedDiagonallyNWSE => board.get_flipped_diagonally_northwest_southeast(),
        }
    }

    /// Each transformation of a board is what the board's own functions
    /// give: one, two or three quarter turns, or one of the four flips.
    pub proof fn lemma_board_functions(board: Board)
        ensures
            BoardTransformation::Identity.transformed(board) == board,
            BoardTransformation::Rotated90CW.transformed(board) == board.rotated_90_clockwise(),
            BoardTransformation::Rotated180.transformed(board)
                == board.rotated_90_clockwise().rotated_90_clockwise(),
            BoardTransformation::Rotated90CCW.transformed(board)
                == board.rotated_90_clockwise().rotated_90_clockwise().rotated_90_clockwise(),
            BoardTransformation::FlippedHorizontally.transformed(board)
                == board.flipped_horizontally(),
            BoardTransformation::FlippedVertically.transformed(board) == board.flipped_vertically(),
            BoardTransformation::FlippedDiagonallySWNE.transformed(board)
                == board.flipped_diagonally_southwest_northeast(),
            BoardTransformation::FlippedDiagonallyNWSE.transformed(board)
                == board.flipped_diagonally_northwest_southeast(),
    {
        BoardTransformation::Identity.transformed(board).lemma_equal_by_cells(board);
        BoardTransformation::Rotated90CW.transformed(board).lemma_equal_by_cells(
            board.rotated_90_clockwise(),
        );
        BoardTransformation::Rotated180.transformed(board).lemma_equal_by_cells(
            board.rotated_90_clockwise().rotated_90_clockwise(),
        );
        BoardTransformation::Rotated90CCW.transformed(board).lemma_equal_by_cells(
            board.rotated_90_clockwise().rotated_90_clockwise().rotated_90_clockwise(),
        );
        BoardTransformation::FlippedHorizontally.transformed(board).lemma_equal_by_cells(
            board.flipped_horizontally(),
        );
        BoardTransformation::FlippedVertically.transformed(board).lemma_equal_by_cells(
            board.flipped_vertically(),
        );
        BoardTransformation::FlippedDiagonallySWNE.transformed(board).lemma_equal_by_cells(
            board.flipped_diagonally_southwest_northeast(),
        );
        BoardTransformation::FlippedDiagonallyNWSE.transformed(board).lemma_equal_by_cells(
            board.flipped_diagonally_northwest_southeast(),
        );
    }

    /// A transformation keeps every address on the board, and going forward
    /// and then back, or back and then forward, returns to the address one
    /// started from.
    pub proof fn lemma_coordinate_round_trip(self, pos: FieldPosition)
        requires
            pos.on_board(),
        ensures
            self.moved(pos).on_board(),
            self.moved_back(pos).on_board(),
            self.moved_back(self.moved(pos)) == pos,
            self.moved(self.moved_back(pos)) == pos,
            self.inverse().moved(pos) == self.moved_back(pos),
    {
    }

    /// The cell of a transformed board at `pos` is the cell of the board at
    /// the address that `moved_back` gives; so an empty cell of the image
    /// leads back to an empty cell of the board.
    pub proof fn lemma_transformed_cell(self, board: Board, pos: FieldPosition)
        requires
            pos.on_board(),
        ensures
            self.transformed(board).cell(pos.x as int, pos.y as int) == board.cell(
                self.moved_back(pos).x as int,
                self.moved_back(pos).y as int,
            ),
            self.transformed(board).is_empty_at(pos) <==> board.is_empty_at(self.moved_back(pos)),
    {
    }

    /// Going back through `self.followed_by(next)` is going back through
    /// `next` and then through this transformation, and no step leaves the board.
    pub proof fn lemma_followed_by_backward(self, next: BoardTransformation, x: int, y: int)
        requires
            0 <= x < 3,
            0 <= y < 3,
        ensures
            0 <= next.backward(x, y).0 < 3,
            0 <= next.backward(x, y).1 < 3,
            self.followed_by(next).backward(x, y) == self.backward(
                next.backward(x, y).0,
                next.backward(x, y).1,
            ),
    {
    }

    /// Transforming a board by this transformation and then by `next` is
    /// transforming it once by `self.followed_by(next)`.
    pub proof fn lemma_followed_by(self, next: BoardTransformation, board: Board)
        ensures
            next.transformed(self.transformed(board)) == self.followed_by(next).transformed(board),
    {
        let twice = next.transformed(self.transformed(board));
        let once = self.followed_by(next).transformed(board);
        assert forall|x: int, y: int| 0 <= x < 3 && 0 <= y < 3 implies twice.cell(x, y)
            == once.cell(x, y) by {
            self.lemma_followed_by_backward(next, x, y);
            let (mid_x, mid_y) = next.backward(x, y);
            let (from_x, from_y) = self.backward(mid_x, mid_y);
            assert(twice.cell(x, y) == self.transformed(board).cell(mid_x, mid_y));
            assert(self.transformed(board).cell(mid_x, mid_y) == board.cell(from_x, from_y));
            assert(once.cell(x, y) == board.cell(from_x, from_y));
        }
        twice.lemma_equal_by_cells(once);
    }

    /// Transforming a board and then applying the inverse transformation
    /// gives the board back; so does applying the inverse first.
    pub proof fn lemma_inverse_undoes(self, board: Board)
        ensures
            self.inverse().transformed(self.transformed(board)) == board,
            self.transformed(self.inverse().transformed(board)) == board,
    {
        self.inverse().transformed(self.transformed(board)).lemma_equal_by_cells(board);
        self.transformed(self.inverse().transformed(board)).lemma_equal_by_cells(board);
    }

    /// Four quarter turns clockwise return every board to itself, and two
    /// quarter turns are a flip of the rows and a flip of the columns, in
    /// either order.
    pub proof fn lemma_quarter_turns(board: Board)
        ensures
            board.rotated_90_clockwise().rotated_90_clockwise().rotated_90_clockwise()
                .rotated_90_clockwise() == board,
            board.rotated_90_clockwise().rotated_90_clockwise()
                == board.flipped_vertically().flipped_horizontally(),
            board.rotated_90_clockwise().rotated_90_clockwise()
                == board.flipped_horizontally().flipped_vertically(),
    {
        let half = board.rotated_90_clockwise().rotated_90_clockwise();
        half.rotated_90_clockwise().rotated_90_clockwise().lemma_equal_by_cells(board);
        board.rotated_90_clockwise().rotated_90_clockwise().lemma_equal_by_cells(
            board.flipped_vertically().flipped_horizontally(),
        );
        board.rotated_90_clockwise().rotated_90_clockwise().lemma_equal_by_cells(
            board.flipped_horizontally().flipped_vertically(),
        );
    }
}

} // verus!
