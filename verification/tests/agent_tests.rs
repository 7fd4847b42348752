use tictactoe_agent::agent::{Agent, AgentAction};
use tictactoe_agent::board::{Board, FieldPosition, FieldState};
use tictactoe_agent::transformation::BoardTransformation;

const E: FieldState = FieldState::Empty;
const X: FieldState = FieldState::X;
const O: FieldState = FieldState::O;

fn all_transformations() -> Vec<BoardTransformation> {
    vec![
        BoardTransformation::Identity,
        BoardTransformation::Rotated90CW,
        BoardTransformation::Rotated180,
        BoardTransformation::Rotated90CCW,
        BoardTransformation::FlippedHorizontally,
        BoardTransformation::FlippedVertically,
        BoardTransformation::FlippedDiagonallySWNE,
        BoardTransformation::FlippedDiagonallyNWSE,
    ]
}

fn biases(actions: &Vec<AgentAction>) -> Vec<i32> {
    actions.iter().map(|action| action.bias).collect()
}

#[test]
fn new_action_has_no_bias() {
    let action = AgentAction::new(FieldPosition::new(2, 1));
    assert_eq!(action.field_pos, FieldPosition::new(2, 1));
    assert_eq!(action.bias, 0);
}

#[test]
fn feedback_adds_to_the_bias() {
    let mut action = AgentAction::new(FieldPosition::new(0, 0));
    action.give_feedback(6);
    assert_eq!(action.bias, 6);
    action.give_feedback(-3);
    assert_eq!(action.bias, 3);
    action.give_feedback(1);
    assert_eq!(action.bias, 4);
    assert_eq!(action.field_pos, FieldPosition::new(0, 0));
}

#[test]
fn blank_agent_knows_nothing() {
    let agent = Agent::new_blank();
    assert_eq!(agent.memorized_boards_count(), 0);
    assert_eq!(agent.get_actions_from_board(&Board::empty()), None);
    assert_eq!(
        agent.find_identical_transformed_stored_board(&Board::empty()),
        None
    );
}

#[test]
fn full_board_gets_no_move() {
    let mut agent = Agent::new_blank();
    let board = Board([[X, O, X], [X, O, O], [O, X, X]]);
    assert_eq!(agent.play_greedy(&board), None);
    assert_eq!(agent.play_exploration(&board), None);
    assert_eq!(agent.play_greedy_exploration(&board, true), None);
    assert_eq!(agent.memorized_boards_count(), 0);
}

#[test]
fn single_empty_cell_is_played_without_memory() {
    let mut agent = Agent::new_blank();
    let board = Board([[X, O, X], [X, O, E], [O, X, O]]);
    let forced = Some(FieldPosition::new(2, 1));
    assert_eq!(agent.play_greedy(&board), forced);
    assert_eq!(agent.play_exploration(&board), forced);
    assert_eq!(agent.play_greedy_exploration(&board, true), forced);
    assert_eq!(agent.play_greedy_exploration(&board, false), forced);
    assert_eq!(agent.memorized_boards_count(), 0);
    assert_eq!(agent.get_actions_from_board(&board), None);
    // nothing was logged: a reward changes nothing
    agent.give_feedback(6);
    assert_eq!(agent.memorized_boards_count(), 0);
}

#[test]
fn first_visit_memorizes_the_board_with_fresh_actions() {
    let mut agent = Agent::new_blank();
    let board = Board::empty();
    let played = agent.play_greedy(&board);
    // all rewards are equal: the first action is taken
    assert_eq!(played, Some(FieldPosition::new(0, 0)));
    assert_eq!(agent.memorized_boards_count(), 1);
    let actions = agent.get_actions_from_board(&board).unwrap();
    assert_eq!(actions.len(), 9);
    let expected: Vec<AgentAction> = board
        .get_empty_fields_pos()
        .into_iter()
        .map(AgentAction::new)
        .collect();
    assert_eq!(actions, expected);
}

#[test]
fn end_to_end_on_the_empty_board() {
    let mut agent = Agent::new_blank();
    let board = Board::empty();
    let played = agent.play_greedy_exploration(&board, true).unwrap();
    assert_eq!(agent.memorized_boards_count(), 1);
    let actions = agent.get_actions_from_board(&board).unwrap();
    assert_eq!(actions.len(), 9);
    assert!(actions.iter().all(|action| action.bias == 0));
    agent.give_feedback(6);
    let actions = agent.get_actions_from_board(&board).unwrap();
    assert_eq!(actions.iter().filter(|action| action.bias == 6).count(), 1);
    assert_eq!(actions.iter().filter(|action| action.bias == 0).count(), 8);
    // the board is its own memorized image, so the rewarded action is the one played
    let rewarded = actions.iter().find(|action| action.bias == 6).unwrap();
    assert_eq!(rewarded.field_pos, played);
}

#[test]
fn requery_reads_the_same_entry() {
    let mut agent = Agent::new_blank();
    let board = Board([[X, E, E], [E, O, E], [E, E, E]]);
    agent.play_greedy(&board);
    let first = agent.get_actions_from_board(&board).unwrap();
    let second = agent.get_actions_from_board(&board).unwrap();
    assert_eq!(first, second);
    assert_eq!(
        agent.find_identical_transformed_stored_board(&board),
        Some((board, BoardTransformation::Identity))
    );
    agent.play_greedy(&board);
    assert_eq!(agent.memorized_boards_count(), 1);
    let third = agent.get_actions_from_board(&board).unwrap();
    assert_eq!(first, third);
}

#[test]
fn images_of_a_memorized_board_share_its_entry() {
    let board = Board([[X, O, E], [E, E, E], [E, E, E]]);
    for t in all_transformations() {
        let mut agent = Agent::new_blank();
        agent.play_greedy(&board);
        assert_eq!(agent.memorized_boards_count(), 1);
        let image = t.apply(&board);
        let (found, back) = agent
            .find_identical_transformed_stored_board(&image)
            .unwrap();
        assert_eq!(found, board);
        assert_eq!(back.apply(&image), board);
        let played = agent.play_greedy(&image).unwrap();
        assert_eq!(agent.memorized_boards_count(), 1);
        assert_eq!(image.field_at(played), E);
        assert_eq!(
            agent.get_actions_from_board(&image),
            agent.get_actions_from_board(&board)
        );
    }
}

#[test]
fn lookup_tries_the_quarter_turn_before_the_flips() {
    let mut agent = Agent::new_blank();
    // the memorized board has its mark in the north-east corner
    let stored = Board([[E, E, X], [E, E, E], [E, E, E]]);
    agent.play_greedy(&stored);
    // a mark in the north-west corner gets there by a quarter turn and by a
    // flip of the columns: the quarter turn is tried first
    let board = Board([[X, E, E], [E, E, E], [E, E, E]]);
    assert_eq!(
        agent.find_identical_transformed_stored_board(&board),
        Some((stored, BoardTransformation::Rotated90CW))
    );
}

#[test]
fn greedy_move_is_carried_back_to_the_board() {
    let mut agent = Agent::new_blank();
    let stored = Board([[E, E, X], [E, E, E], [E, E, E]]);
    // first action of the memorized board: its north-west corner
    assert_eq!(agent.play_greedy(&stored), Some(FieldPosition::new(0, 0)));
    // seen from the board turned back, that corner is the south-west one
    let board = Board([[X, E, E], [E, E, E], [E, E, E]]);
    assert_eq!(agent.play_greedy(&board), Some(FieldPosition::new(0, 2)));
    assert_eq!(agent.memorized_boards_count(), 1);
}

#[test]
fn reward_reaches_every_move_of_the_episode() {
    let mut agent = Agent::new_blank();
    let first = Board::empty();
    let second = Board([[X, O, E], [E, E, E], [E, E, E]]);
    let third = Board([[X, O, X], [O, E, E], [E, E, E]]);
    assert_eq!(agent.play_greedy(&first), Some(FieldPosition::new(0, 0)));
    assert_eq!(agent.play_greedy(&second), Some(FieldPosition::new(2, 0)));
    assert_eq!(agent.play_greedy(&third), Some(FieldPosition::new(1, 1)));
    assert_eq!(agent.memorized_boards_count(), 3);
    agent.give_feedback(6);
    assert_eq!(
        biases(&agent.get_actions_from_board(&first).unwrap()),
        vec![6, 0, 0, 0, 0, 0, 0, 0, 0]
    );
    assert_eq!(
        biases(&agent.get_actions_from_board(&second).unwrap()),
        vec![6, 0, 0, 0, 0, 0, 0]
    );
    assert_eq!(
        biases(&agent.get_actions_from_board(&third).unwrap()),
        vec![6, 0, 0, 0, 0]
    );
    // the log is empty: a second reward reaches nothing
    agent.give_feedback(6);
    assert_eq!(
        biases(&agent.get_actions_from_board(&first).unwrap()),
        vec![6, 0, 0, 0, 0, 0, 0, 0, 0]
    );
}

#[test]
fn a_move_logged_twice_is_rewarded_twice() {
    let mut agent = Agent::new_blank();
    let board = Board([[X, O, E], [E, E, E], [E, E, E]]);
    agent.play_greedy(&board);
    agent.play_greedy(&board);
    agent.give_feedback(-3);
    assert_eq!(
        biases(&agent.get_actions_from_board(&board).unwrap()),
        vec![-6, 0, 0, 0, 0, 0, 0]
    );
}

#[test]
fn greedy_takes_the_first_of_the_best() {
    let mut agent = Agent::new_blank();
    let board = Board([[X, O, E], [E, E, E], [E, E, E]]);
    // the first action loses its lead
    assert_eq!(agent.play_greedy(&board), Some(FieldPosition::new(2, 0)));
    agent.give_feedback(-3);
    // now the second action is the first of those with the greatest reward
    assert_eq!(agent.play_greedy(&board), Some(FieldPosition::new(0, 1)));
    agent.give_feedback(6);
    assert_eq!(agent.play_greedy(&board), Some(FieldPosition::new(0, 1)));
    agent.give_feedback(1);
    assert_eq!(
        biases(&agent.get_actions_from_board(&board).unwrap()),
        vec![-3, 7, 0, 0, 0, 0, 0]
    );
}

#[test]
fn exploration_plays_an_empty_cell_and_logs_it() {
    let board = Board([[X, O, E], [E, X, E], [O, E, E]]);
    for _ in 0..50 {
        let mut agent = Agent::new_blank();
        let played = agent.play_exploration(&board).unwrap();
        assert_eq!(board.field_at(played), E);
        assert_eq!(agent.memorized_boards_count(), 1);
        agent.give_feedback(1);
        let actions = agent.get_actions_from_board(&board).unwrap();
        for action in actions {
            let expected = if action.field_pos == played { 1 } else { 0 };
            assert_eq!(action.bias, expected);
        }
    }
}

#[test]
fn exploration_reaches_more_than_one_cell() {
    let board = Board::empty();
    let mut agent = Agent::new_blank();
    let mut seen: Vec<FieldPosition> = Vec::new();
    for _ in 0..200 {
        let played = agent.play_greedy_exploration(&board, true).unwrap();
        if !seen.contains(&played) {
            seen.push(played);
        }
    }
    assert!(seen.len() > 1);
}

#[test]
fn record_action_logs_only_what_can_be_played() {
    let mut agent = Agent::new_blank();
    let board = Board([[X, E, E], [E, E, E], [E, E, E]]);
    let action = AgentAction::new(FieldPosition::new(1, 0));
    // the board is not memorized yet
    assert_eq!(
        agent.record_action(&board, BoardTransformation::Identity, action),
        None
    );
    agent.play_greedy(&board);
    agent.give_feedback(0);
    // the cell is taken
    let taken = AgentAction::new(FieldPosition::new(0, 0));
    assert_eq!(
        agent.record_action(&board, BoardTransformation::Identity, taken),
        None
    );
    // the cell is off the board
    let off = AgentAction::new(FieldPosition::new(3, 0));
    assert_eq!(
        agent.record_action(&board, BoardTransformation::Identity, off),
        None
    );
    assert_eq!(
        agent.record_action(&board, BoardTransformation::Rotated90CW, action),
        Some(FieldPosition::new(0, 1))
    );
    agent.give_feedback(6);
    assert_eq!(
        biases(&agent.get_actions_from_board(&board).unwrap()),
        vec![6, 0, 0, 0, 0, 0, 0, 0]
    );
}

#[test]
fn two_agents_do_not_share_memory() {
    let mut cross = Agent::new_blank();
    let mut circle = Agent::new_blank();
    cross.play_greedy(&Board::empty());
    assert_eq!(cross.memorized_boards_count(), 1);
    assert_eq!(circle.memorized_boards_count(), 0);
    circle.play_greedy(&Board([[X, E, E], [E, E, E], [E, E, E]]));
    cross.give_feedback(6);
    circle.give_feedback(-3);
    assert_eq!(
        biases(&cross.get_actions_from_board(&Board::empty()).unwrap()),
        vec![6, 0, 0, 0, 0, 0, 0, 0, 0]
    );
    assert_eq!(circle.get_actions_from_board(&Board::empty()), None);
}

#[test]
fn feedback_that_fits_can_be_given() {
    let mut agent = Agent::new_blank();
    assert!(agent.can_give_feedback(i32::MAX));
    assert!(agent.can_give_feedback(i32::MIN));
    let board = Board([[X, O, E], [E, E, E], [E, E, E]]);
    agent.play_greedy(&board);
    assert!(agent.can_give_feedback(6));
    assert!(agent.can_give_feedback(i32::MAX));
    assert!(agent.can_give_feedback(i32::MIN));
}

#[test]
fn feedback_beyond_the_range_cannot_be_given() {
    let mut agent = Agent::new_blank();
    let board = Board([[X, O, E], [E, E, E], [E, E, E]]);
    agent.play_greedy(&board);
    agent.give_feedback(i32::MAX);
    assert_eq!(
        biases(&agent.get_actions_from_board(&board).unwrap()),
        vec![i32::MAX, 0, 0, 0, 0, 0, 0]
    );
    // the same action is the best again
    assert_eq!(agent.play_greedy(&board), Some(FieldPosition::new(2, 0)));
    assert!(!agent.can_give_feedback(1));
    assert!(agent.can_give_feedback(0));
    assert!(agent.can_give_feedback(-1));
}

#[test]
fn feedback_counts_every_entry_of_the_log() {
    let mut agent = Agent::new_blank();
    let board = Board([[X, O, E], [E, E, E], [E, E, E]]);
    agent.play_greedy(&board);
    agent.play_greedy(&board);
    // twice the reward leaves the range, once would not
    assert!(!agent.can_give_feedback(i32::MAX));
    assert!(agent.can_give_feedback(i32::MAX / 2));
    agent.give_feedback(i32::MAX / 2);
    assert_eq!(
        biases(&agent.get_actions_from_board(&board).unwrap()),
        vec![i32::MAX - 1, 0, 0, 0, 0, 0, 0]
    );
}
