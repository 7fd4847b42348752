//! The learner: what it has memorized, how it picks a move, and how it is
//! rewarded for the moves of an episode.

use crate::board::{Board, FieldPosition, FieldState};
use crate::memory::{
    memory_contains_key, memory_get, memory_get_mut, memory_insert, memory_len, memory_new,
    stored_actions, BoardMemory,
};
use crate::random::choose_action;
use crate::transformation::BoardTransformation;
use rand::rngs::ThreadRng;
use vstd::prelude::*;

verus! {

/// A move that a memorized board offers, with the reward gathered by it so far.
#[derive(Debug, Clone, Copy, PartialEq, Eq, Structural)]
pub struct AgentAction {
    pub field_pos: FieldPosition,
    pub bias: i32,
}

impl AgentAction {
    /// An action at `field_pos` that has gathered nothing yet.
    pub fn new(field_pos: FieldPosition) -> (action: Self)
        ensures
            action.field_pos == field_pos,
            action.bias == 0,
    {
        Self { field_pos, bias: 0 }
    }

    /// Adds `reward` to what the action has gathered.
    pub fn give_feedback(&mut self, reward: i32)
        requires
            i32::MIN <= old(self).bias + reward <= i32::MAX,
        ensures
            final(self).field_pos == old(self).field_pos,
            final(self).bias == old(self).bias + reward,
    {
        self.bias += reward
    }
}

/// The learner. It owns its table of memorized boards, the log of the moves
/// it has chosen in the running episode, and its source of chance.
pub struct Agent {
    board_memory: BoardMemory,
    recorded_actions: Vec<(Board, AgentAction)>,
    rng: ThreadRng,
}

impl Agent {
    /// The memorized boards, each with its list of actions.
    pub closed spec fn memory(&self) -> Map<Board, Seq<AgentAction>> {
        Map::new(
            |board: Board| stored_actions(&self.board_memory).contains_key(board.code() as u32),
            |board: Board| stored_actions(&self.board_memory)[board.code() as u32],
        )
    }

    /// The moves chosen since the last reward, oldest first: the memorized
    /// board on which each was chosen, and the action chosen there.
    pub closed spec fn recorded(&self) -> Seq<(Board, AgentAction)> {
        self.recorded_actions@
    }

    /// Whether `key` is the number of a board.
    spec fn is_code(key: u32) -> bool {
        exists|board: Board| board.code() == key
    }

    /// What the table needs beyond its contents: every key is the number of
    /// a board, and the keys are finitely many.
    pub closed spec fn table_is_sound(&self) -> bool {
        &&& stored_actions(&self.board_memory).dom().finite()
        &&& forall|key: u32| #[trigger]
            stored_actions(&self.board_memory).contains_key(key) ==> Self::is_code(key)
    }

    /// The actions that a board offers when it is first memorized: one for
    /// each empty cell, in row-major order, none with any reward yet.
    pub open spec fn fresh_actions(board: Board) -> Seq<AgentAction> {
        Seq::new(
            board.empty_fields().len(),
            |i: int| AgentAction { field_pos: board.empty_fields()[i], bias: 0 },
        )
    }

    /// Whether `actions` are moves to the empty cells of `board`, one for
    /// each, in row-major order.
    pub open spec fn actions_fit(board: Board, actions: Seq<AgentAction>) -> bool {
        &&& actions.len() == board.empty_fields().len()
        &&& forall|i: int|
            0 <= i < actions.len() ==> (#[trigger] actions[i]).field_pos == board.empty_fields()[i]
    }

    /// The state that every function of the agent keeps:
    /// - the actions of each memorized board are the moves to its empty cells;
    /// - no memorized board is a symmetric image of another memorized board;
    /// - each logged move was made on a memorized board, to one of its empty cells.
    pub open spec fn wf(&self) -> bool {
        &&& self.table_is_sound()
        &&& forall|board: Board| #[trigger]
            self.memory().contains_key(board) ==> Self::actions_fit(board, self.memory()[board])
        &&& forall|board: Board, t: BoardTransformation|
            self.memory().contains_key(board) && self.memory().contains_key(
                #[trigger] t.transformed(board),
            ) ==> t.transformed(board) == board
        &&& forall|i: int|
            0 <= i < self.recorded().len() ==> {
                let (board, action) = #[trigger] self.recorded()[i];
                self.memory().contains_key(board) && board.is_empty_at(action.field_pos)
            }
    }

    /// The order in which the images of a board are looked up.
    pub open spec fn search_order() -> Seq<BoardTransformation> {
        seq![
            BoardTransformation::Identity,
            BoardTransformation::Rotated90CW,
            BoardTransformation::Rotated180,
            BoardTransformation::Rotated90CCW,
            BoardTransformation::FlippedHorizontally,
            BoardTransformation::FlippedVertically,
            BoardTransformation::FlippedDiagonallySWNE,
            BoardTransformation::FlippedDiagonallyNWSE,
        ]
    }

    /// The first image of `board` that is among `known`, trying the
    /// transformations of `search_order` from place `from` on, together with
    /// the transformation that gives it.
    pub open spec fn first_known_from(known: Set<Board>, board: Board, from: nat) -> Option<
        (Board, BoardTransformation),
    >
        decreases 8 - from,
    {
        if from >= 8 {
            None
        } else {
            let t = Self::search_order()[from as int];
            if known.contains(t.transformed(board)) {
                Some((t.transformed(board), t))
            } else {
                Self::first_known_from(known, board, from + 1)
            }
        }
    }

    /// The memorized image of `board` that a lookup finds, if any of its
    /// eight images is memorized.
    pub open spec fn stored_variant(&self, board: Board) -> Option<(Board, BoardTransformation)> {
        Self::first_known_from(self.memory().dom(), board, 0)
    }

    /// The memorized board that stands for `board` once `board` has been
    /// visited, and the transformation that leads from `board` to it: what
    /// the lookup finds, or `board` itself where the lookup finds nothing.
    pub open spec fn canonical(&self, board: Board) -> (Board, BoardTransformation) {
        match self.stored_variant(board) {
            Some(found) => found,
            None => (board, BoardTransformation::Identity),
        }
    }

    /// The memory after a visit to `board`: unchanged where an image of
    /// `board` is memorized, else with `board` added and its fresh actions.
    pub open spec fn memory_after_visit(&self, board: Board) -> Map<Board, Seq<AgentAction>> {
        if self.stored_variant(board) is Some {
            self.memory()
        } else {
            self.memory().insert(board, Self::fresh_actions(board))
        }
    }

    /// Whether the action at place `i` has the greatest reward of all and is
    /// the first to have it.
    pub open spec fn is_first_best(actions: Seq<AgentAction>, i: int) -> bool {
        &&& 0 <= i < actions.len()
        &&& forall|j: int| 0 <= j < actions.len() ==> (#[trigger] actions[j]).bias <= actions[i].bias
        &&& forall|j: int| 0 <= j < i ==> (#[trigger] actions[j]).bias < actions[i].bias
    }

    /// The place of the first action with the greatest reward.
    pub open spec fn first_best(actions: Seq<AgentAction>) -> int {
        choose|i: int| Self::is_first_best(actions, i)
    }

    /// Whether this agent remembers and has logged exactly what `before` did.
    pub open spec fn unchanged_since(&self, before: Agent) -> bool {
        self.memory() == before.memory() && self.recorded() == before.recorded()
    }

    /// Whether this agent is `before` after it has visited `board`, chosen
    /// `action` there and answered `played`: the memory is that after the
    /// visit, the action is one of those that the memorized board offers, the
    /// log has grown by the memorized board and the action, and the answer is
    /// the action's cell carried back to `board`.
    pub open spec fn is_move_from(
        &self,
        before: Agent,
        board: Board,
        action: AgentAction,
        played: Option<FieldPosition>,
    ) -> bool {
        let (canonical, transformation) = before.canonical(board);
        &&& self.memory() == before.memory_after_visit(board)
        &&& self.memory()[canonical].contains(action)
        &&& self.recorded() == before.recorded().push((canonical, action))
        &&& played == Some(transformation.moved_back(action.field_pos))
    }

    /// How often the log holds a move on `board` to the cell `pos`.
    pub open spec fn times_recorded(
        log: Seq<(Board, AgentAction)>,
        board: Board,
        pos: FieldPosition,
    ) -> nat
        decreases log.len(),
    {
        if log.len() == 0 {
            0
        } else {
            let (logged, chosen) = log.last();
            let earlier = Self::times_recorded(log.drop_last(), board, pos);
            if logged == board && chosen.field_pos == pos {
                earlier + 1
            } else {
                earlier
            }
        }
    }

    /// Whether `reward` can be added for every logged move without any
    /// action's reward leaving the range of `i32`.
    pub open spec fn feedback_fits(&self, reward: int) -> bool {
        forall|board: Board, i: int|
            self.memory().contains_key(board) && 0 <= i < self.memory()[board].len() ==> {
                let action = #[trigger] self.memory()[board][i];
                i32::MIN <= action.bias + reward * Self::times_recorded(
                    self.recorded(),
                    board,
                    action.field_pos,
                ) <= i32::MAX
            }
    }

    /// Whether this agent's memory is that of `before` after `reward` has
    /// been added once for each move in `log`: the same boards with the same
    /// actions at the same cells, each action's reward raised by `reward`
    /// times the number of entries that `log` holds for it.
    pub open spec fn is_rewarded_from(
        &self,
        before: Agent,
        reward: int,
        log: Seq<(Board, AgentAction)>,
    ) -> bool {
        &&& self.memory().dom() == before.memory().dom()
        &&& forall|board: Board| #[trigger]
            self.memory().contains_key(board) ==> self.memory()[board].len()
                == before.memory()[board].len()
        &&& forall|board: Board, i: int|
            self.memory().contains_key(board) && 0 <= i < self.memory()[board].len() ==> {
                let action = #[trigger] self.memory()[board][i];
                let earlier = before.memory()[board][i];
                &&& action.field_pos == earlier.field_pos
                &&& action.bias == earlier.bias + reward * Self::times_recorded(
                    log,
                    board,
                    earlier.field_pos,
                )
            }
    }

    /// What a lookup among `known` finds: an image of `board` that is
    /// known, and `board` itself where that is known; or nothing, and then
    /// none of the eight images is known.
    pub proof fn lemma_first_known(known: Set<Board>, board: Board)
        ensures
            match Self::first_known_from(known, board, 0) {
                Some((image, t)) => image == t.transformed(board) && known.contains(image),
                None => forall|t: BoardTransformation| !known.contains(#[trigger] t.transformed(board)),
            },
            known.contains(board) ==> Self::first_known_from(known, board, 0) == Some(
                (board, BoardTransformation::Identity),
            ),
    {
        reveal_with_fuel(Agent::first_known_from, 9);
        BoardTransformation::lemma_board_functions(board);
        if Self::first_known_from(known, board, 0) is None {
            assert forall|t: BoardTransformation| !known.contains(
                #[trigger] t.transformed(board),
            ) by {
                assert(exists|i: int| 0 <= i < 8 && Self::search_order()[i] == t) by {
                    let i: int = match t {
                        BoardTransformation::Identity => 0,
                        BoardTransformation::Rotated90CW => 1,
                        BoardTransformation::Rotated180 => 2,
                        BoardTransformation::Rotated90CCW => 3,
                        BoardTransformation::FlippedHorizontally => 4,
                        BoardTransformation::FlippedVertically => 5,
                        BoardTransformation::FlippedDiagonallySWNE => 6,
                        BoardTransformation::FlippedDiagonallyNWSE => 7,
                    };
                    assert(Self::search_order()[i] == t);
                }
            }
        }
    }

    /// An agent that has memorized nothing and logged nothing.
    pub fn new_blank() -> (agent: Self)
        ensures
            agent.wf(),
            agent.memory() == Map::<Board, Seq<AgentAction>>::empty(),
            agent.recorded() == Seq::<(Board, AgentAction)>::empty(),
    {
        let agent = Self {
            board_memory: memory_new(),
            recorded_actions: Vec::new(),
            rng: rand::thread_rng(),
        };
        assert(agent.memory() =~= Map::<Board, Seq<AgentAction>>::empty());
        agent
    }

    /// Tells whether `board` itself is memorized.
    fn is_memorized(&self, board: &Board) -> (known: bool)
        ensures
            known == self.memory().contains_key(*board),
    {
        memory_contains_key(&self.board_memory, board.encode())
    }

    /// Looks for a memorized image of `board`: first `board` itself, then
    /// its three quarter turns clockwise, then its flips across the columns,
    /// across the rows and across the two diagonals. Gives the first image
    /// found and the transformation that leads to it.
    pub fn find_identical_transformed_stored_board(&self, board: &Board) -> (found: Option<
        (Board, BoardTransformation),
    >)
        ensures
            found == self.stored_variant(*board),
    {
        proof {
            reveal_with_fuel(Agent::first_known_from, 9);
            BoardTransformation::lemma_board_functions(*board);
        }
        if self.is_memorized(board) {
            return Some((*board, BoardTransformation::Identity));
        }
        // Rotated 90 degrees clockwise
        let rotated = board.get_rotated_90_clockwise();
        if self.is_memorized(&rotated) {
            return Some((rotated, BoardTransformation::Rotated90CW));
        }
        // Rotated 180 degrees
        let rotated = rotated.get_rotated_90_clockwise();
        if self.is_memorized(&rotated) {
            return Some((rotated, BoardTransformation::Rotated180));
        }
        // Rotated 270 degrees clockwise
        let rotated = rotated.get_rotated_90_clockwise();
        if self.is_memorized(&rotated) {
            return Some((rotated, BoardTransformation::Rotated90CCW));
        }
        let flipped = board.get_flipped_horizontally();
        if self.is_memorized(&flipped) {
            return Some((flipped, BoardTransformation::FlippedHorizontally));
        }
        let flipped = board.get_flipped_vertically();
        if self.is_memorized(&flipped) {
            return Some((flipped, BoardTransformation::FlippedVertically));
        }
        let flipped = board.get_flipped_diagonally_southwest_northeast();
        if self.is_memorized(&flipped) {
            return Some((flipped, BoardTransformation::FlippedDiagonallySWNE));
        }
        let flipped = board.get_flipped_diagonally_northwest_southeast();
        if self.is_memorized(&flipped) {
            return Some((flipped, BoardTransformation::FlippedDiagonallyNWSE));
        }
        None
    }

    /// A non-empty list has exactly one first action with the greatest reward.
    pub proof fn lemma_first_best(actions: Seq<AgentAction>, i: int)
        requires
            Self::is_first_best(actions, i),
        ensures
            Self::first_best(actions) == i,
    {
        let chosen = Self::first_best(actions);
        assert(Self::is_first_best(actions, chosen));
        if chosen < i {
            assert(actions[chosen].bias < actions[i].bias);
        } else if i < chosen {
            assert(actions[i].bias < actions[chosen].bias);
        }
    }

    /// The number of a board, as a key of the table, tells the board.
    proof fn lemma_key_tells_board(a: Board, b: Board)
        ensures
            a.code() < 19683,
            (a.code() as u32 == b.code() as u32) <==> a == b,
    {
        a.lemma_code_below(b, 9);
        b.lemma_code_below(a, 9);
        Board::lemma_pow3_bound(9);
        if a.code() == b.code() {
            a.lemma_code_injective(b);
        }
    }

    /// Finds the place of the first action with the greatest reward.
    fn first_best_index(actions: &Vec<AgentAction>) -> (best: usize)
        requires
            actions.len() > 0,
        ensures
            Self::is_first_best(actions@, best as int),
            best == Self::first_best(actions@),
    {
        let mut best: usize = 0;
        for i in 1..actions.len()
            invariant
                0 <= best < actions.len(),
                best < i,
                forall|j: int| 0 <= j < i ==> (#[trigger] actions@[j]).bias <= actions@[best as int].bias,
                forall|j: int| 0 <= j < best ==> (#[trigger] actions@[j]).bias < actions@[best as int].bias,
        {
            if actions[i].bias > actions[best].bias {
                best = i;
            }
        }
        proof {
            Self::lemma_first_best(actions@, best as int);
        }
        best
    }

    /// Makes sure that an image of `board` is memorized: where the lookup
    /// finds none, `board` itself is memorized with its fresh actions. Gives
    /// the memorized image and the transformation that leads to it.
    fn visit(&mut self, board: &Board) -> (found: (Board, BoardTransformation))
        requires
            old(self).wf(),
        ensures
            final(self).wf(),
            found == old(self).canonical(*board),
            found.0 == found.1.transformed(*board),
            final(self).memory() == old(self).memory_after_visit(*board),
            final(self).memory().contains_key(found.0),
            final(self).recorded() == old(self).recorded(),
    {
        proof {
            Self::lemma_first_known(self.memory().dom(), *board);
            BoardTransformation::lemma_board_functions(*board);
        }
        match self.find_identical_transformed_stored_board(board) {
            Some(found) => found,
            None => {
                let fields = board.get_empty_fields_pos();
                let mut possible_moves: Vec<AgentAction> = Vec::new();
                for i in 0..fields.len()
                    invariant
                        fields@ == board.empty_fields(),
                        possible_moves@ =~= Self::fresh_actions(*board).take(i as int),
                {
                    possible_moves.push(AgentAction::new(fields[i]));
                }
                let key = board.encode();
                memory_insert(&mut self.board_memory, key, possible_moves);
                proof {
                    let fresh = Self::fresh_actions(*board);
                    assert(possible_moves@ =~= fresh);
                    assert forall|other: Board|
                        (other.code() as u32 == key) <==> other == *board by {
                        Self::lemma_key_tells_board(other, *board);
                    }
                    assert(self.memory() =~= old(self).memory().insert(*board, fresh));
                    assert forall|known: Board, t: BoardTransformation|
                        self.memory().contains_key(known) && self.memory().contains_key(
                            #[trigger] t.transformed(known),
                        ) implies t.transformed(known) == known by {
                        if known == *board {
                            // no image of `board` was memorized before
                            assert(!old(self).memory().dom().contains(t.transformed(*board)));
                        } else if t.transformed(known) == *board {
                            // else `known` would be a memorized image of `board`
                            t.lemma_inverse_undoes(known);
                            assert(!old(self).memory().dom().contains(
                                t.inverse().transformed(*board),
                            ));
                        }
                    }
                    assert forall|known: Board| #[trigger]
                        self.memory().contains_key(known) implies Self::actions_fit(
                        known,
                        self.memory()[known],
                    ) by {
                        if known != *board {
                            assert(old(self).memory().contains_key(known));
                        }
                    }
                    assert forall|i: int| 0 <= i < self.recorded().len() implies {
                        let (logged, chosen) = #[trigger] self.recorded()[i];
                        self.memory().contains_key(logged) && logged.is_empty_at(chosen.field_pos)
                    } by {
                        assert(self.recorded()[i] == old(self).recorded()[i]);
                    }
                    assert(Self::is_code(key));
                    assert(self.table_is_sound());
                }
                (*board, BoardTransformation::Identity)
            },
        }
    }

    /// Logs that `action` was chosen on the memorized `board`, and carries
    /// its cell back through `transformation`. Nothing is logged, and nothing
    /// answered, where `board` is not memorized or the action's cell is not
    /// an empty cell of `board`.
    pub fn record_action(
        &mut self,
        board: &Board,
        transformation: BoardTransformation,
        action: AgentAction,
    ) -> (played: Option<FieldPosition>)
        requires
            old(self).wf(),
        ensures
            final(self).wf(),
            final(self).memory() == old(self).memory(),
            old(self).memory().contains_key(*board) && board.is_empty_at(action.field_pos) ==> {
                &&& final(self).recorded() == old(self).recorded().push((*board, action))
                &&& played == Some(transformation.moved_back(action.field_pos))
            },
            !(old(self).memory().contains_key(*board) && board.is_empty_at(action.field_pos)) ==> {
                &&& final(self).recorded() == old(self).recorded()
                &&& played is None
            },
    {
        let pos = action.field_pos;
        if pos.x < 3 && pos.y < 3 && board.field_at(pos) == FieldState::Empty && self.is_memorized(
            board,
        ) {
            self.recorded_actions.push((*board, action));
            proof {
                assert forall|i: int| 0 <= i < self.recorded().len() implies {
                    let (logged, chosen) = #[trigger] self.recorded()[i];
                    self.memory().contains_key(logged) && logged.is_empty_at(chosen.field_pos)
                } by {
                    if i < old(self).recorded().len() {
                        assert(self.recorded()[i] == old(self).recorded()[i]);
                    }
                }
            }
            Some(transformation.transform_back(pos))
        } else {
            None
        }
    }

    /// Answers the boards on which there is nothing to choose: nothing where
    /// no cell is empty, the one empty cell where there is just one.
    fn forced_move(fields: &Vec<FieldPosition>) -> (played: Option<FieldPosition>)
        requires
            fields.len() <= 1,
        ensures
            fields.len() == 0 ==> played is None,
            fields.len() == 1 ==> played == Some(fields@[0]),
    {
        if fields.len() == 0 {
            None
        } else {
            Some(fields[0])
        }
    }

    /// Chooses the move with the greatest reward so far, the first of them
    /// where several have it.
    ///
    /// A board without an empty cell gets no answer, a board with one empty
    /// cell gets that cell; neither is memorized or logged. Any other board
    /// is visited, the choice is made among the actions of its memorized
    /// image and logged, and the answer is the chosen cell on `board` itself.
    pub fn play_greedy(&mut self, board: &Board) -> (played: Option<FieldPosition>)
        requires
            old(self).wf(),
        ensures
            final(self).wf(),
            board.empty_fields().len() == 0 ==> {
                &&& played is None
                &&& final(self).unchanged_since(*old(self))
            },
            board.empty_fields().len() == 1 ==> {
                &&& played == Some(board.empty_fields()[0])
                &&& final(self).unchanged_since(*old(self))
            },
            board.empty_fields().len() >= 2 ==> {
                let actions = final(self).memory()[old(self).canonical(*board).0];
                final(self).is_move_from(
                    *old(self),
                    *board,
                    actions[Self::first_best(actions)],
                    played,
                )
            },
            played is Some ==> board.is_empty_at(played.unwrap()),
    {
        let fields = board.get_empty_fields_pos();
        proof {
            board.lemma_empty_fields();
        }
        if fields.len() <= 1 {
            return Self::forced_move(&fields);
        }
        let (canonical, transformation) = self.visit(board);
        proof {
            Self::lemma_offers_moves(*board, canonical, transformation);
        }
        let action = match memory_get(&self.board_memory, canonical.encode()) {
            Some(actions) => actions[Self::first_best_index(actions)],
            None => {
                return None;
            },
        };
        proof {
            Self::lemma_chosen_is_playable(
                *board,
                canonical,
                transformation,
                self.memory()[canonical],
                action,
            );
        }
        self.record_action(&canonical, transformation, action)
    }

    /// Chooses a move at random among those that the memorized image offers.
    ///
    /// Boards with no or one empty cell are answered as by `play_greedy`.
    /// Any other board is visited, one of the actions of its memorized image
    /// is drawn and logged, and the answer is its cell on `board` itself.
    /// The log's last entry tells which action was drawn.
    pub fn play_exploration(&mut self, board: &Board) -> (played: Option<FieldPosition>)
        requires
            old(self).wf(),
        ensures
            final(self).wf(),
            board.empty_fields().len() == 0 ==> {
                &&& played is None
                &&& final(self).unchanged_since(*old(self))
            },
            board.empty_fields().len() == 1 ==> {
                &&& played == Some(board.empty_fields()[0])
                &&& final(self).unchanged_since(*old(self))
            },
            board.empty_fields().len() >= 2 ==> final(self).is_move_from(
                *old(self),
                *board,
                final(self).recorded().last().1,
                played,
            ),
            played is Some ==> board.is_empty_at(played.unwrap()),
    {
        let fields = board.get_empty_fields_pos();
        proof {
            board.lemma_empty_fields();
        }
        if fields.len() <= 1 {
            return Self::forced_move(&fields);
        }
        let (canonical, transformation) = self.visit(board);
        proof {
            Self::lemma_offers_moves(*board, canonical, transformation);
        }
        let action = match memory_get(&self.board_memory, canonical.encode()) {
            Some(actions) => match choose_action(actions, &mut self.rng) {
                Some(action) => action,
                None => {
                    return None;
                },
            },
            None => {
                return None;
            },
        };
        proof {
            Self::lemma_chosen_is_playable(
                *board,
                canonical,
                transformation,
                self.memory()[canonical],
                action,
            );
        }
        self.record_action(&canonical, transformation, action)
    }

    /// Chooses a move: at random where `explore` is set, else the best so far.
    pub fn play_greedy_exploration(&mut self, board: &Board, explore: bool) -> (played: Option<
        FieldPosition,
    >)
        requires
            old(self).wf(),
        ensures
            final(self).wf(),
            board.empty_fields().len() == 0 ==> {
                &&& played is None
                &&& final(self).unchanged_since(*old(self))
            },
            board.empty_fields().len() == 1 ==> {
                &&& played == Some(board.empty_fields()[0])
                &&& final(self).unchanged_since(*old(self))
            },
            board.empty_fields().len() >= 2 ==> final(self).is_move_from(
                *old(self),
                *board,
                final(self).recorded().last().1,
                played,
            ),
            board.empty_fields().len() >= 2 && !explore ==> {
                let actions = final(self).memory()[old(self).canonical(*board).0];
                final(self).recorded().last().1 == actions[Self::first_best(actions)]
            },
            played is Some ==> board.is_empty_at(played.unwrap()),
    {
        if explore {
            self.play_exploration(board)
        } else {
            self.play_greedy(board)
        }
    }

    /// A board with an empty cell has a memorized image that offers a move.
    proof fn lemma_offers_moves(board: Board, canonical: Board, transformation: BoardTransformation)
        requires
            canonical == transformation.transformed(board),
            board.empty_fields().len() > 0,
        ensures
            canonical.empty_fields().len() > 0,
    {
        board.lemma_empty_fields();
        canonical.lemma_empty_fields();
        let pos = board.empty_fields()[0];
        assert(board.is_empty_at(pos));
        transformation.lemma_coordinate_round_trip(pos);
        transformation.lemma_transformed_cell(board, transformation.moved(pos));
        assert(canonical.is_empty_at(transformation.moved(pos)));
    }

    /// An action that the memorized image offers leads back to an empty cell
    /// of the board.
    proof fn lemma_chosen_is_playable(
        board: Board,
        canonical: Board,
        transformation: BoardTransformation,
        actions: Seq<AgentAction>,
        action: AgentAction,
    )
        requires
            canonical == transformation.transformed(board),
            Self::actions_fit(canonical, actions),
            actions.contains(action),
        ensures
            canonical.is_empty_at(action.field_pos),
            board.is_empty_at(transformation.moved_back(action.field_pos)),
    {
        canonical.lemma_empty_fields();
        let i = choose|i: int| 0 <= i < actions.len() && actions[i] == action;
        assert(actions[i].field_pos == canonical.empty_fields()[i]);
        assert(canonical.is_empty_at(canonical.empty_fields()[i]));
        transformation.lemma_transformed_cell(board, action.field_pos);
    }

    /// The count of a log that has grown by one entry.
    proof fn lemma_times_recorded_step(
        log: Seq<(Board, AgentAction)>,
        k: int,
        board: Board,
        pos: FieldPosition,
    )
        requires
            0 <= k < log.len(),
        ensures
            Self::times_recorded(log.take(k + 1), board, pos) == Self::times_recorded(
                log.take(k),
                board,
                pos,
            ) + if log[k].0 == board && log[k].1.field_pos == pos {
                1nat
            } else {
                0nat
            },
            Self::times_recorded(log.take(k + 1), board, pos) <= Self::times_recorded(
                log,
                board,
                pos,
            ),
        decreases log.len() - k,
    {
        assert(log.take(k + 1).drop_last() =~= log.take(k));
        assert(log.take(k + 1).last() == log[k]);
        if k + 1 < log.len() {
            Self::lemma_times_recorded_step(log, k + 1, board, pos);
        } else {
            assert(log.take(k + 1) =~= log);
        }
    }

    /// A reward that fits after all of its additions fits after each of them.
    proof fn lemma_partial_reward_fits(bias: int, reward: int, done: nat, all: nat)
        requires
            i32::MIN <= bias <= i32::MAX,
            i32::MIN <= bias + reward * all <= i32::MAX,
            done <= all,
        ensures
            i32::MIN <= bias + reward * done <= i32::MAX,
    {
        if reward >= 0 {
            assert(0 <= reward * done <= reward * all) by (nonlinear_arith)
                requires
                    reward >= 0,
                    0 <= done <= all,
            ;
        } else {
            assert(reward * all <= reward * done <= 0) by (nonlinear_arith)
                requires
                    reward < 0,
                    0 <= done <= all,
            ;
        }
    }

    /// Finds the place of the action at the cell `pos`.
    fn position_of(actions: &Vec<AgentAction>, pos: FieldPosition) -> (place: Option<usize>)
        ensures
            match place {
                Some(i) => i < actions.len() && actions@[i as int].field_pos == pos,
                None => forall|j: int| 0 <= j < actions.len() ==> (#[trigger] actions@[j]).field_pos != pos,
            },
    {
        for i in 0..actions.len()
            invariant
                forall|j: int| 0 <= j < i ==> (#[trigger] actions@[j]).field_pos != pos,
        {
            if actions[i].field_pos == pos {
                return Some(i);
            }
        }
        None
    }

    /// Adds `reward` to the action at the cell `pos` of the memorized `board`.
    fn reward_action(&mut self, board: &Board, pos: FieldPosition, reward: i32)
        requires
            old(self).wf(),
            old(self).memory().contains_key(*board),
            board.is_empty_at(pos),
            forall|i: int|
                0 <= i < old(self).memory()[*board].len() && (#[trigger] old(self).memory()[*board][i]).field_pos
                    == pos ==> i32::MIN <= old(self).memory()[*board][i].bias + reward <= i32::MAX,
        ensures
            final(self).wf(),
            final(self).recorded() == old(self).recorded(),
            final(self).is_rewarded_from(
                *old(self),
                reward as int,
                seq![(*board, AgentAction { field_pos: pos, bias: 0 })],
            ),
    {
        let key = board.encode();
        let place = match memory_get(&self.board_memory, key) {
            Some(actions) => Self::position_of(actions, pos),
            None => None,
        };
        proof {
            board.lemma_empty_fields();
            assert forall|other: Board| (other.code() as u32 == key) <==> other == *board by {
                Self::lemma_key_tells_board(other, *board);
            }
        }
        let ghost one = seq![(*board, AgentAction { field_pos: pos, bias: 0 })];
        assert(one.drop_last() =~= Seq::<(Board, AgentAction)>::empty());
        assert forall|other: Board, cell: FieldPosition|
            Self::times_recorded(one, other, cell) == if other == *board && cell == pos {
                1nat
            } else {
                0nat
            } by {
            assert(one.last() == (*board, AgentAction { field_pos: pos, bias: 0 }));
            assert(Self::times_recorded(one.drop_last(), other, cell) == 0);
        }
        match place {
            Some(i) => {
                match memory_get_mut(&mut self.board_memory, key) {
                    Some(actions) => {
                        let mut action = actions[i];
                        action.give_feedback(reward);
                        actions[i] = action;
                    },
                    None => {},
                }
                proof {
                    let before = old(self).memory()[*board];
                    let after = before.update(
                        i as int,
                        AgentAction {
                            field_pos: before[i as int].field_pos,
                            bias: (before[i as int].bias + reward) as i32,
                        },
                    );
                    assert(self.memory() =~= old(self).memory().insert(*board, after));
                    assert(self.memory().dom() =~= old(self).memory().dom());
                    assert forall|known: Board| #[trigger]
                        self.memory().contains_key(known) implies Self::actions_fit(
                        known,
                        self.memory()[known],
                    ) by {
                        assert(old(self).memory().contains_key(known));
                    }
                    assert forall|k: int| 0 <= k < self.recorded().len() implies {
                        let (logged, chosen) = #[trigger] self.recorded()[k];
                        self.memory().contains_key(logged) && logged.is_empty_at(chosen.field_pos)
                    } by {
                        assert(self.recorded()[k] == old(self).recorded()[k]);
                    }
                    assert forall|known: Board, j: int|
                        self.memory().contains_key(known) && 0 <= j < self.memory()[known].len() implies {
                        let action = #[trigger] self.memory()[known][j];
                        let earlier = old(self).memory()[known][j];
                        &&& action.field_pos == earlier.field_pos
                        &&& action.bias == earlier.bias + reward * Self::times_recorded(
                            one,
                            known,
                            earlier.field_pos,
                        )
                    } by {
                        assert(old(self).memory().contains_key(known));
                        let earlier = old(self).memory()[known][j];
                        let times = Self::times_recorded(one, known, earlier.field_pos);
                        if known == *board && j != i {
                            assert(before[j].field_pos == board.empty_fields()[j]);
                            assert(before[i as int].field_pos == board.empty_fields()[i as int]);
                            if j < i {
                                assert(board.empty_fields()[j] != board.empty_fields()[i as int]);
                            } else {
                                assert(board.empty_fields()[i as int] != board.empty_fields()[j]);
                            }
                        }
                        if known == *board && j == i {
                            assert(times == 1);
                            assert(reward * times == reward) by (nonlinear_arith)
                                requires
                                    times == 1,
                            ;
                        } else {
                            assert(times == 0);
                            assert(reward * times == 0) by (nonlinear_arith)
                                requires
                                    times == 0,
                            ;
                        }
                    }
                }
            },
            None => {
                proof {
                    let offered = old(self).memory()[*board];
                    let j = choose|j: int|
                        0 <= j < board.empty_fields().len() && board.empty_fields()[j] == pos;
                    assert(offered[j].field_pos == pos);
                }
            },
        }
    }

    /// A move that the log holds has a last entry there, and up to that
    /// entry the log holds it as often as in all.
    proof fn lemma_last_entry(log: Seq<(Board, AgentAction)>, board: Board, pos: FieldPosition) -> (k:
        int)
        requires
            Self::times_recorded(log, board, pos) > 0,
        ensures
            0 <= k < log.len(),
            log[k].0 == board,
            log[k].1.field_pos == pos,
            Self::times_recorded(log.take(k + 1), board, pos) == Self::times_recorded(
                log,
                board,
                pos,
            ),
        decreases log.len(),
    {
        let (logged, chosen) = log.last();
        if logged == board && chosen.field_pos == pos {
            assert(log.take(log.len() as int) =~= log);
            log.len() - 1
        } else {
            let k = Self::lemma_last_entry(log.drop_last(), board, pos);
            assert(log.drop_last().take(k + 1) =~= log.take(k + 1));
            k
        }
    }

    /// Counts how often the first `upto` entries of the log hold a move on
    /// `board` to the cell `pos`.
    fn count_recorded(&self, upto: usize, board: &Board, pos: FieldPosition) -> (count: usize)
        requires
            upto <= self.recorded().len(),
        ensures
            count == Self::times_recorded(self.recorded().take(upto as int), *board, pos),
            count <= upto,
    {
        let key = board.encode();
        let mut count: usize = 0;
        for j in 0..upto
            invariant
                upto <= self.recorded().len(),
                key == board.code(),
                count == Self::times_recorded(self.recorded().take(j as int), *board, pos),
                count <= j,
        {
            proof {
                Self::lemma_times_recorded_step(self.recorded(), j as int, *board, pos);
                Self::lemma_key_tells_board(self.recorded()[j as int].0, *board);
            }
            let (logged, chosen) = self.recorded_actions[j];
            if logged.encode() == key && chosen.field_pos == pos {
                count += 1;
            }
        }
        count
    }

    /// Whether `reward` can be added for the logged moves up to and with
    /// entry `k` without leaving `i32` at the action of that entry.
    pub open spec fn entry_fits(&self, reward: int, k: int) -> bool {
        let (board, chosen) = self.recorded()[k];
        forall|i: int|
            0 <= i < self.memory()[board].len() && (#[trigger] self.memory()[board][i]).field_pos
                == chosen.field_pos ==> i32::MIN <= self.memory()[board][i].bias + reward
                * Self::times_recorded(self.recorded().take(k + 1), board, chosen.field_pos)
                <= i32::MAX
    }

    /// A reward fits if and only if it fits at every entry of the log.
    proof fn lemma_feedback_fits_by_entries(&self, reward: int)
        requires
            self.wf(),
        ensures
            self.feedback_fits(reward) <==> forall|k: int|
                0 <= k < self.recorded().len() ==> #[trigger] self.entry_fits(reward, k),
    {
        let log = self.recorded();
        if self.feedback_fits(reward) {
            assert forall|k: int| 0 <= k < log.len() implies #[trigger] self.entry_fits(
                reward,
                k,
            ) by {
                let (board, chosen) = log[k];
                assert forall|i: int|
                    0 <= i < self.memory()[board].len() && (
                    #[trigger] self.memory()[board][i]).field_pos
                        == chosen.field_pos implies i32::MIN <= self.memory()[board][i].bias
                    + reward * Self::times_recorded(log.take(k + 1), board, chosen.field_pos)
                    <= i32::MAX by {
                    let action = self.memory()[board][i];
                    Self::lemma_times_recorded_step(log, k, board, chosen.field_pos);
                    Self::lemma_partial_reward_fits(
                        action.bias as int,
                        reward,
                        Self::times_recorded(log.take(k + 1), board, chosen.field_pos),
                        Self::times_recorded(log, board, chosen.field_pos),
                    );
                }
            }
        }
        if forall|k: int| 0 <= k < log.len() ==> #[trigger] self.entry_fits(reward, k) {
            assert forall|board: Board, i: int|
                self.memory().contains_key(board) && 0 <= i < self.memory()[board].len() implies {
                let action = #[trigger] self.memory()[board][i];
                i32::MIN <= action.bias + reward * Self::times_recorded(
                    log,
                    board,
                    action.field_pos,
                ) <= i32::MAX
            } by {
                let action = self.memory()[board][i];
                let all = Self::times_recorded(log, board, action.field_pos);
                if all == 0 {
                    assert(reward * all == 0) by (nonlinear_arith)
                        requires
                            all == 0,
                    ;
                } else {
                    let k = Self::lemma_last_entry(log, board, action.field_pos);
                    assert(self.entry_fits(reward, k));
                }
            }
        }
    }

    /// Tells whether `reward` fits at entry `k` of the log.
    fn entry_can_take(&self, k: usize, reward: i32) -> (fits: bool)
        requires
            self.wf(),
            k < self.recorded().len(),
        ensures
            fits == self.entry_fits(reward as int, k as int),
    {
        let count = self.recorded_actions.len();
        let (board, action) = self.recorded_actions[k];
        let pos = action.field_pos;
        let times = self.count_recorded(k + 1, &board, pos);
        let key = board.encode();
        proof {
            assert(self.recorded()[k as int] == (board, action));
            assert(self.memory().contains_key(board));
            Self::lemma_key_tells_board(board, board);
            board.lemma_empty_fields();
        }
        let place = match memory_get(&self.board_memory, key) {
            Some(actions) => match Self::position_of(actions, pos) {
                Some(i) => Some((i, actions[i].bias)),
                None => None,
            },
            None => None,
        };
        match place {
            Some((at, bias)) => {
                assert(-0x8000_0000_0000_0000_0000_0000 <= reward * times
                    <= 0x8000_0000_0000_0000_0000_0000) by (nonlinear_arith)
                    requires
                        -0x8000_0000 <= reward <= 0x8000_0000,
                        0 <= times <= 0x1_0000_0000_0000_0000,
                ;
                let total: i128 = bias as i128 + (reward as i128) * (times as i128);
                proof {
                    let offered = self.memory()[board];
                    assert forall|i: int|
                        0 <= i < offered.len() && (#[trigger] offered[i]).field_pos
                            == pos implies i == at by {
                        assert(offered[i].field_pos == board.empty_fields()[i]);
                        assert(offered[at as int].field_pos == board.empty_fields()[at as int]);
                        if i < at {
                            assert(board.empty_fields()[i] != board.empty_fields()[at as int]);
                        } else if at < i {
                            assert(board.empty_fields()[at as int] != board.empty_fields()[i]);
                        }
                    }
                    assert(offered[at as int].field_pos == pos);
                }
                i32::MIN as i128 <= total && total <= i32::MAX as i128
            },
            None => true,
        }
    }

    /// Tells whether `reward` can be given: whether adding it for every
    /// logged move keeps each action's reward within `i32`.
    pub fn can_give_feedback(&self, reward: i32) -> (fits: bool)
        requires
            self.wf(),
        ensures
            fits == self.feedback_fits(reward as int),
    {
        let count = self.recorded_actions.len();
        for k in 0..count
            invariant
                count == self.recorded().len(),
                self.wf(),
                forall|n: int| 0 <= n < k ==> #[trigger] self.entry_fits(reward as int, n),
        {
            if !self.entry_can_take(k, reward) {
                proof {
                    self.lemma_feedback_fits_by_entries(reward as int);
                }
                return false;
            }
        }
        proof {
            self.lemma_feedback_fits_by_entries(reward as int);
        }
        true
    }

    /// Rewards every move of the episode: adds `reward` to the action of
    /// each logged move, once for each time it was logged, and empties the log.
    pub fn give_feedback(&mut self, reward: i32)
        requires
            old(self).wf(),
            old(self).feedback_fits(reward as int),
        ensures
            final(self).wf(),
            final(self).is_rewarded_from(*old(self), reward as int, old(self).recorded()),
            final(self).recorded() == Seq::<(Board, AgentAction)>::empty(),
    {
        let count = self.recorded_actions.len();
        proof {
            assert forall|board: Board, pos: FieldPosition|
                reward * Self::times_recorded(old(self).recorded().take(0), board, pos) == 0 by {
                let none = Self::times_recorded(old(self).recorded().take(0), board, pos);
                assert(none == 0);
                assert(reward * none == 0) by (nonlinear_arith)
                    requires
                        none == 0,
                ;
            }
        }
        for k in 0..count
            invariant
                count == old(self).recorded().len(),
                old(self).wf(),
                old(self).feedback_fits(reward as int),
                self.wf(),
                self.recorded() == old(self).recorded(),
                self.is_rewarded_from(*old(self), reward as int, old(self).recorded().take(k as int)),
        {
            let (board, action) = self.recorded_actions[k];
            let ghost log = old(self).recorded();
            let ghost mid = *self;
            proof {
                assert(self.recorded()[k as int] == (board, action));
                assert forall|i: int|
                    0 <= i < self.memory()[board].len() && (#[trigger] self.memory()[board][i]).field_pos
                        == action.field_pos implies i32::MIN <= self.memory()[board][i].bias + reward
                    <= i32::MAX by {
                    let earlier = old(self).memory()[board][i];
                    Self::lemma_times_recorded_step(log, k as int, board, earlier.field_pos);
                    Self::lemma_partial_reward_fits(
                        earlier.bias as int,
                        reward as int,
                        Self::times_recorded(log.take(k + 1), board, earlier.field_pos),
                        Self::times_recorded(log, board, earlier.field_pos),
                    );
                    assert(reward * (Self::times_recorded(log.take(k as int), board, earlier.field_pos) + 1)
                        == reward * Self::times_recorded(log.take(k as int), board, earlier.field_pos)
                        + reward) by (nonlinear_arith);
                }
            }
            self.reward_action(&board, action.field_pos, reward);
            proof {
                let one = seq![(board, AgentAction { field_pos: action.field_pos, bias: 0 })];
                assert(one.drop_last() =~= Seq::<(Board, AgentAction)>::empty());
                assert forall|known: Board, i: int|
                    self.memory().contains_key(known) && 0 <= i < self.memory()[known].len() implies {
                    let now = #[trigger] self.memory()[known][i];
                    let earlier = old(self).memory()[known][i];
                    &&& now.field_pos == earlier.field_pos
                    &&& now.bias == earlier.bias + reward * Self::times_recorded(
                        log.take(k + 1),
                        known,
                        earlier.field_pos,
                    )
                } by {
                    let earlier = old(self).memory()[known][i];
                    let between = mid.memory()[known][i];
                    assert(mid.memory().contains_key(known));
                    assert(between.field_pos == earlier.field_pos);
                    Self::lemma_times_recorded_step(log, k as int, known, earlier.field_pos);
                    assert(one.last() == (board, AgentAction { field_pos: action.field_pos, bias: 0 }));
                    assert(Self::times_recorded(one.drop_last(), known, earlier.field_pos) == 0);
                    let step = Self::times_recorded(one, known, earlier.field_pos);
                    let done = Self::times_recorded(log.take(k as int), known, earlier.field_pos);
                    assert(reward * (done + step) == reward * done + reward * step)
                        by (nonlinear_arith);
                }
            }
        }
        self.recorded_actions.clear();
        proof {
            assert(old(self).recorded().take(count as int) =~= old(self).recorded());
        }
    }

    /// Gives the actions of the memorized image of `board` that a lookup
    /// finds, or `None` where no image of `board` is memorized.
    pub fn get_actions_from_board(&self, board: &Board) -> (actions: Option<Vec<AgentAction>>)
        ensures
            match self.stored_variant(*board) {
                Some((image, _)) => actions is Some && actions.unwrap()@ == self.memory()[image],
                None => actions is None,
            },
    {
        proof {
            Self::lemma_first_known(self.memory().dom(), *board);
        }
        match self.find_identical_transformed_stored_board(board) {
            Some((image, _)) => match memory_get(&self.board_memory, image.encode()) {
                Some(stored) => {
                    let mut actions: Vec<AgentAction> = Vec::new();
                    for i in 0..stored.len()
                        invariant
                            actions@ =~= stored@.take(i as int),
                    {
                        actions.push(stored[i]);
                    }
                    assert(actions@ =~= stored@);
                    Some(actions)
                },
                None => None,
            },
            None => None,
        }
    }

    /// Counts the memorized boards.
    pub fn memorized_boards_count(&self) -> (count: usize)
        requires
            self.wf(),
        ensures
            self.memory().dom().finite(),
            count == self.memory().dom().len(),
    {
        proof {
            let keys = stored_actions(&self.board_memory).dom();
            let board_of = |key: u32| choose|board: Board| board.code() == key;
            assert forall|a: u32, b: u32|
                keys.contains(a) && keys.contains(b) && #[trigger] board_of(a) == #[trigger] board_of(
                    b,
                ) implies a == b by {
                assert(Self::is_code(a) && Self::is_code(b));
            }
            assert(vstd::relations::injective_on(board_of, keys));
            assert forall|board: Board| self.memory().dom().contains(board) implies keys.map(
                board_of,
            ).contains(board) by {
                let key = board.code() as u32;
                Self::lemma_key_tells_board(board, board);
                assert(Self::is_code(key));
                Self::lemma_key_tells_board(board_of(key), board);
                assert(keys.contains(key) && board == board_of(key));
            }
            assert forall|board: Board| keys.map(board_of).contains(board) implies self.memory().dom().contains(
                board,
            ) by {
                let key = choose|key: u32| keys.contains(key) && board == board_of(key);
                assert(Self::is_code(key));
            }
            assert(keys.map(board_of) =~= self.memory().dom());
            vstd::set_lib::lemma_map_size(keys, self.memory().dom(), board_of);
        }
        memory_len(&self.board_memory)
    }

    /// After a reward, an action that the log held once has gained exactly
    /// the reward, and an action that the log did not hold has what it had.
    pub proof fn lemma_reward_by_entry(&self, before: Agent, reward: int, board: Board, i: int)
        requires
            self.is_rewarded_from(before, reward, before.recorded()),
            before.memory().contains_key(board),
            0 <= i < before.memory()[board].len(),
        ensures
            self.memory()[board][i].field_pos == before.memory()[board][i].field_pos,
            Self::times_recorded(before.recorded(), board, before.memory()[board][i].field_pos)
                == 1 ==> self.memory()[board][i].bias == before.memory()[board][i].bias + reward,
            Self::times_recorded(before.recorded(), board, before.memory()[board][i].field_pos)
                == 0 ==> self.memory()[board][i].bias == before.memory()[board][i].bias,
    {
        let times = Self::times_recorded(
            before.recorded(),
            board,
            before.memory()[board][i].field_pos,
        );
        assert(self.memory().contains_key(board));
        assert(times == 1 ==> reward * times == reward) by (nonlinear_arith);
        assert(times == 0 ==> reward * times == 0) by (nonlinear_arith);
    }

    /// A memorized board stands for itself: the lookup finds it under the
    /// identity, so a visit changes nothing in the memory and every query
    /// for it reads the same list of actions.
    pub proof fn lemma_memorized_board_is_found(&self, board: Board)
        requires
            self.memory().contains_key(board),
        ensures
            self.stored_variant(board) == Some((board, BoardTransformation::Identity)),
            self.canonical(board) == (board, BoardTransformation::Identity),
            self.memory_after_visit(board) == self.memory(),
    {
        Self::lemma_first_known(self.memory().dom(), board);
    }

    /// Every image of a memorized board leads to that board: the lookup
    /// finds the memorized board under a transformation that carries the
    /// image onto it, so a visit to the image adds nothing to the memory.
    pub proof fn lemma_image_leads_to_memorized_board(&self, board: Board, t: BoardTransformation)
        requires
            self.wf(),
            self.memory().contains_key(board),
        ensures
            self.stored_variant(t.transformed(board)) is Some,
            self.canonical(t.transformed(board)).0 == board,
            self.canonical(t.transformed(board)).1.transformed(t.transformed(board)) == board,
            self.memory_after_visit(t.transformed(board)) == self.memory(),
    {
        let image = t.transformed(board);
        Self::lemma_first_known(self.memory().dom(), image);
        t.lemma_inverse_undoes(board);
        match self.stored_variant(image) {
            Some((found, back)) => {
                t.lemma_followed_by(back, board);
                assert(found == t.followed_by(back).transformed(board));
            },
            None => {
                assert(!self.memory().dom().contains(t.inverse().transformed(image)));
            },
        }
    }
}

} // verus!
