use tictactoe_agent::board::{Board, BoardFieldPosition, FieldPosition, FieldState};
use tictactoe_agent::transformation::BoardTransformation;

const E: FieldState = FieldState::Empty;
const X: FieldState = FieldState::X;
const O: FieldState = FieldState::O;

fn all_transformations() -> Vec<BoardTransformation> {
    vec![
        BoardTransformation::Identity,
        BoardTransformation::Rotated90CW,
        BoardTransformation::Rotated180,
        BoardTransformation::Rotated90CCW,
        BoardTransformation::FlippedHorizontally,
        BoardTransformation::FlippedVertically,
        BoardTransformation::FlippedDiagonallySWNE,
        BoardTransformation::FlippedDiagonallyNWSE,
    ]
}

fn all_names() -> Vec<BoardFieldPosition> {
    vec![
        BoardFieldPosition::NorthWest,
        BoardFieldPosition::North,
        BoardFieldPosition::NorthEast,
        BoardFieldPosition::West,
        BoardFieldPosition::Center,
        BoardFieldPosition::East,
        BoardFieldPosition::SouthWest,
        BoardFieldPosition::South,
        BoardFieldPosition::SouthEast,
    ]
}

fn sample_boards() -> Vec<Board> {
    vec![
        Board::empty(),
        Board([[O, X, E], [E, E, E], [E, X, E]]),
        Board([[E, X, X], [E, O, E], [E, E, O]]),
        Board([[X, O, X], [O, X, O], [O, X, E]]),
        Board([[X, E, E], [E, E, E], [E, E, E]]),
        Board([[X, O, E], [E, E, E], [E, E, E]]),
    ]
}

#[test]
fn board_rotation_test() {
    let board = Board([
        [FieldState::O, FieldState::X, FieldState::Empty],
        [FieldState::Empty, FieldState::Empty, FieldState::Empty],
        [FieldState::Empty, FieldState::X, FieldState::Empty],
    ]);
    let left = board.get_rotated_90_clockwise();
    let right = Board([
        [FieldState::Empty, FieldState::Empty, FieldState::O],
        [FieldState::X, FieldState::Empty, FieldState::X],
        [FieldState::Empty, FieldState::Empty, FieldState::Empty],
    ]);
    assert_eq!(
        left, right,
        "Not matching: left: \n{}\n, right: \n{}\n",
        left.to_text(),
        right.to_text()
    );

    let board = Board([
        [FieldState::Empty, FieldState::X, FieldState::X],
        [FieldState::Empty, FieldState::O, FieldState::Empty],
        [FieldState::Empty, FieldState::Empty, FieldState::O],
    ]);
    let left = board.get_rotated_90_clockwise();
    let right = Board([
        [FieldState::Empty, FieldState::Empty, FieldState::Empty],
        [FieldState::Empty, FieldState::O, FieldState::X],
        [FieldState::O, FieldState::Empty, FieldState::X],
    ]);
    assert_eq!(
        left, right,
        "Not matching: left: \n{}\n, right: \n{}\n",
        left.to_text(),
        right.to_text()
    );

    let board = Board([
        [FieldState::Empty, FieldState::Empty, FieldState::O],
        [FieldState::X, FieldState::Empty, FieldState::Empty],
        [FieldState::O, FieldState::X, FieldState::Empty],
    ]);
    let left = board.get_rotated_90_clockwise();
    let right = Board([
        [FieldState::O, FieldState::X, FieldState::Empty],
        [FieldState::X, FieldState::Empty, FieldState::Empty],
        [FieldState::Empty, FieldState::Empty, FieldState::O],
    ]);
    assert_eq!(
        left, right,
        "Not matching: left: \n{}\n, right: \n{}\n",
        left.to_text(),
        right.to_text()
    );

    let board = Board([
        [FieldState::Empty, FieldState::Empty, FieldState::O],
        [FieldState::X, FieldState::Empty, FieldState::X],
        [FieldState::O, FieldState::X, FieldState::Empty],
    ]);
    let left = board.get_flipped_vertically();
    let right = Board([
        [FieldState::O, FieldState::X, FieldState::Empty],
        [FieldState::X, FieldState::Empty, FieldState::X],
        [FieldState::Empty, FieldState::Empty, FieldState::O],
    ]);
    assert_eq!(
        left, right,
        "Not matching: left: \n{}\n, right: \n{}\n",
        left.to_text(),
        right.to_text()
    );

    let board = Board([
        [FieldState::Empty, FieldState::Empty, FieldState::O],
        [FieldState::O, FieldState::Empty, FieldState::X],
        [FieldState::O, FieldState::X, FieldState::Empty],
    ]);
    let left = board.get_flipped_horizontally();
    let right = Board([
        [FieldState::O, FieldState::Empty, FieldState::Empty],
        [FieldState::X, FieldState::Empty, FieldState::O],
        [FieldState::Empty, FieldState::X, FieldState::O],
    ]);
    assert_eq!(
        left, right,
        "Not matching: left: \n{}\n, right: \n{}\n",
        left.to_text(),
        right.to_text()
    );

    let board = Board([
        [FieldState::Empty, FieldState::Empty, FieldState::O],
        [FieldState::O, FieldState::Empty, FieldState::X],
        [FieldState::O, FieldState::X, FieldState::Empty],
    ]);
    let left = board.get_flipped_diagonally_northwest_southeast();
    let right = Board([
        [FieldState::Empty, FieldState::O, FieldState::O],
        [FieldState::Empty, FieldState::Empty, FieldState::X],
        [FieldState::O, FieldState::X, FieldState::Empty],
    ]);
    assert_eq!(
        left, right,
        "Not matching: left: \n{}\n, right: \n{}\n",
        left.to_text(),
        right.to_text()
    );

    let board = Board([
        [FieldState::Empty, FieldState::Empty, FieldState::O],
        [FieldState::O, FieldState::Empty, FieldState::X],
        [FieldState::O, FieldState::X, FieldState::Empty],
    ]);
    let left = board.get_flipped_diagonally_southwest_northeast();
    let right = Board([
        [FieldState::Empty, FieldState::X, FieldState::O],
        [FieldState::X, FieldState::Empty, FieldState::Empty],
        [FieldState::O, FieldState::O, FieldState::Empty],
    ]);
    assert_eq!(
        left, right,
        "Not matching: left: \n{}\n, right: \n{}\n",
        left.to_text(),
        right.to_text()
    );
}

#[test]
fn flips_exchange_columns_and_rows() {
    let board = Board([[X, E, O], [E, E, E], [O, E, E]]);
    assert_eq!(
        board.get_flipped_horizontally(),
        Board([[O, E, X], [E, E, E], [E, E, O]])
    );
    assert_eq!(
        board.get_flipped_vertically(),
        Board([[O, E, E], [E, E, E], [X, E, O]])
    );
    assert_eq!(
        board.get_flipped_diagonally_southwest_northeast(),
        Board([[E, E, O], [E, E, E], [O, E, X]])
    );
    assert_eq!(
        board.get_flipped_diagonally_northwest_southeast(),
        Board([[X, E, O], [E, E, E], [O, E, E]])
    );
}

#[test]
fn board_is_written_row_by_row() {
    let board = Board([[X, E, O], [E, O, E], [E, E, X]]);
    assert_eq!(
        board.to_text(),
        " X |   | O\n------------\n   | O |  \n------------\n   |   | X\n\n"
    );
    assert_eq!(FieldState::Empty.to_text(), " ");
    assert_eq!(FieldState::X.to_text(), "X");
    assert_eq!(FieldState::O.to_text(), "O");
}

#[test]
fn empty_board_has_nine_empty_cells() {
    let board = Board::empty();
    assert_eq!(board.field_state_count(E), 9);
    assert_eq!(board.field_state_count(X), 0);
    assert_eq!(board.field_state_count(O), 0);
    assert_eq!(board.get_empty_fields_pos().len(), 9);
}

#[test]
fn counts_each_state() {
    let board = Board([[X, O, X], [O, X, E], [E, E, O]]);
    assert_eq!(board.field_state_count(X), 3);
    assert_eq!(board.field_state_count(O), 3);
    assert_eq!(board.field_state_count(E), 3);
}

#[test]
fn empty_fields_come_in_row_major_order() {
    let board = Board([[X, E, O], [E, X, E], [O, E, E]]);
    let fields = board.get_empty_fields_pos();
    let expected = vec![
        FieldPosition::new(1, 0),
        FieldPosition::new(0, 1),
        FieldPosition::new(2, 1),
        FieldPosition::new(1, 2),
        FieldPosition::new(2, 2),
    ];
    assert_eq!(fields, expected);
}

#[test]
fn full_board_has_no_empty_fields() {
    let board = Board([[X, O, X], [O, X, O], [O, X, O]]);
    assert!(board.get_empty_fields_pos().is_empty());
}

#[test]
fn field_at_reads_column_then_row() {
    let board = Board([[E, X, E], [E, E, E], [O, E, E]]);
    assert_eq!(board.field_at(FieldPosition::new(1, 0)), X);
    assert_eq!(board.field_at(FieldPosition::new(0, 2)), O);
    assert_eq!(board.field_at(FieldPosition::new(2, 2)), E);
}

#[test]
fn moves_alternate_between_cross_and_circle() {
    let mut board = Board::empty();
    board.play_move_at(FieldPosition::new(1, 1));
    assert_eq!(board, Board([[E, E, E], [E, X, E], [E, E, E]]));
    board.play_move_at(FieldPosition::new(0, 0));
    assert_eq!(board, Board([[O, E, E], [E, X, E], [E, E, E]]));
    board.play_move_at(FieldPosition::new(2, 1));
    assert_eq!(board, Board([[O, E, E], [E, X, X], [E, E, E]]));
}

#[test]
fn winner_in_first_row() {
    let board = Board([[X, X, X], [O, O, E], [E, E, E]]);
    assert_eq!(board.find_winner(), X);
}

#[test]
fn winner_in_column_diagonals_and_none() {
    assert_eq!(Board([[O, X, E], [O, X, E], [O, E, X]]).find_winner(), O);
    assert_eq!(Board([[X, O, E], [O, X, E], [E, E, X]]).find_winner(), X);
    assert_eq!(Board([[X, X, O], [E, O, E], [O, E, X]]).find_winner(), O);
    assert_eq!(Board([[X, O, X], [O, X, O], [O, X, O]]).find_winner(), E);
    assert_eq!(Board::empty().find_winner(), E);
}

#[test]
fn the_northern_of_two_complete_rows_is_found() {
    let board = Board([[X, X, X], [E, E, E], [O, O, O]]);
    assert_eq!(board.find_winner(), X);
    let board = Board([[O, O, O], [E, E, E], [X, X, X]]);
    assert_eq!(board.find_winner(), O);
    // the western of two complete columns
    let board = Board([[O, E, X], [O, E, X], [O, E, X]]);
    assert_eq!(board.find_winner(), O);
}

#[test]
fn encode_reads_cells_in_base_three() {
    assert_eq!(Board::empty().encode(), 0);
    assert_eq!(Board([[E, E, E], [E, E, E], [E, E, X]]).encode(), 1);
    assert_eq!(Board([[E, E, E], [E, E, E], [E, O, E]]).encode(), 6);
    assert_eq!(Board([[X, E, E], [E, E, E], [E, E, E]]).encode(), 6561);
    assert_eq!(Board([[O, O, O], [O, O, O], [O, O, O]]).encode(), 19682);
}

#[test]
fn four_quarter_turns_give_the_board_back() {
    for board in sample_boards() {
        let turned = board
            .get_rotated_90_clockwise()
            .get_rotated_90_clockwise()
            .get_rotated_90_clockwise()
            .get_rotated_90_clockwise();
        assert_eq!(turned, board);
    }
}

#[test]
fn two_quarter_turns_are_two_flips() {
    for board in sample_boards() {
        let turned = board.get_rotated_90_clockwise().get_rotated_90_clockwise();
        let flipped = board.get_flipped_vertically().get_flipped_horizontally();
        assert_eq!(turned, flipped);
    }
}

#[test]
fn inverse_undoes_every_transformation() {
    for board in sample_boards() {
        for t in all_transformations() {
            let image = t.apply(&board);
            assert_eq!(t.get_inverse().apply(&image), board);
        }
    }
}

#[test]
fn inverse_pairs() {
    assert_eq!(
        BoardTransformation::Rotated90CW.get_inverse(),
        BoardTransformation::Rotated90CCW
    );
    assert_eq!(
        BoardTransformation::Rotated90CCW.get_inverse(),
        BoardTransformation::Rotated90CW
    );
    assert_eq!(
        BoardTransformation::Rotated180.get_inverse(),
        BoardTransformation::Rotated180
    );
    assert_eq!(
        BoardTransformation::FlippedDiagonallySWNE.get_inverse(),
        BoardTransformation::FlippedDiagonallySWNE
    );
    assert_eq!(
        BoardTransformation::Identity.get_inverse(),
        BoardTransformation::Identity
    );
}

#[test]
fn apply_agrees_with_the_board_functions() {
    let board = Board([[E, E, O], [O, E, X], [O, X, E]]);
    assert_eq!(BoardTransformation::Identity.apply(&board), board);
    assert_eq!(
        BoardTransformation::Rotated180.apply(&board),
        Board([[E, X, O], [X, E, O], [O, E, E]])
    );
    assert_eq!(
        BoardTransformation::Rotated90CCW.apply(&board),
        Board([[O, X, E], [E, E, X], [E, O, O]])
    );
    assert_eq!(
        BoardTransformation::FlippedDiagonallySWNE.apply(&board),
        board.get_flipped_diagonally_southwest_northeast()
    );
}

#[test]
fn coordinates_round_trip_through_every_transformation() {
    for t in all_transformations() {
        for name in all_names() {
            let there = t.transform_field_position(name);
            assert_eq!(t.transform_back_field_position(there), name);
            let back = t.transform_back_field_position(name);
            assert_eq!(t.transform_field_position(back), name);
        }
        for y in 0..3 {
            for x in 0..3 {
                let pos = FieldPosition::new(x, y);
                assert_eq!(t.transform_back(t.transform(pos)), pos);
            }
        }
    }
}

#[test]
fn quarter_turn_carries_cells_clockwise() {
    let t = BoardTransformation::Rotated90CW;
    assert_eq!(
        t.transform_field_position(BoardFieldPosition::NorthWest),
        BoardFieldPosition::NorthEast
    );
    assert_eq!(
        t.transform_field_position(BoardFieldPosition::North),
        BoardFieldPosition::East
    );
    assert_eq!(
        t.transform_back_field_position(BoardFieldPosition::NorthWest),
        BoardFieldPosition::SouthWest
    );
    assert_eq!(
        t.transform_back_field_position(BoardFieldPosition::East),
        BoardFieldPosition::North
    );
    assert_eq!(t.transform(FieldPosition::new(0, 0)), FieldPosition::new(2, 0));
    assert_eq!(t.transform_back(FieldPosition::new(2, 0)), FieldPosition::new(0, 0));
}

#[test]
fn carrying_back_finds_the_cell_of_the_board() {
    let board = Board([[X, E, E], [E, O, E], [E, E, E]]);
    for t in all_transformations() {
        let image = t.apply(&board);
        for y in 0..3 {
            for x in 0..3 {
                let pos = FieldPosition::new(x, y);
                assert_eq!(image.field_at(pos), board.field_at(t.transform_back(pos)));
            }
        }
    }
}

#[test]
fn positions_off_the_board_are_left_alone() {
    let off = FieldPosition::new(3, 1);
    assert_eq!(BoardTransformation::Rotated90CW.transform(off), off);
    assert_eq!(BoardTransformation::Rotated90CW.transform_back(off), off);
    assert_eq!(BoardFieldPosition::from_field_position(off), None);
}

#[test]
fn names_and_positions_convert_both_ways() {
    for name in all_names() {
        let pos = name.to_field_position();
        assert!(pos.x < 3 && pos.y < 3);
        assert_eq!(BoardFieldPosition::from_field_position(pos), Some(name));
    }
    assert_eq!(
        BoardFieldPosition::SouthWest.to_field_position(),
        FieldPosition::new(0, 2)
    );
    assert_eq!(
        BoardFieldPosition::East.to_field_position(),
        FieldPosition::new(2, 1)
    );
}
