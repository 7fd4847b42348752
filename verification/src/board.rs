//! The 3×3 board, its cells and coordinates, and its eight symmetric images.

use vstd::prelude::*;
use vstd::string::StringExecFns;

verus! {

/// What a single cell of the board holds.
#[derive(Debug, Hash, Clone, Copy, PartialEq, Eq, Structural)]
pub enum FieldState {
    Empty,
    X,
    O,
}

impl FieldState {
    /// How the state is written: a blank for an empty cell, else the mark's letter.
    pub open spec fn symbol(self) -> Seq<char> {
        match self {
            FieldState::Empty => " "@,
            FieldState::X => "X"@,
            FieldState::O => "O"@,
        }
    }

    /// Gives the state as it is written.
    pub fn to_text(&self) -> (text: &'static str)
        ensures
            text@ == self.symbol(),
    {
        match self {
            FieldState::Empty => " ",
            FieldState::X => "X",
            FieldState::O => "O",
        }
    }
}

/// A cell address: column `x` and row `y`, both counted from the north-west corner.
#[derive(Debug, Clone, Copy, PartialEq, Eq, PartialOrd, Structural)]
pub struct FieldPosition {
    pub x: usize,
    pub y: usize,
}

impl FieldPosition {
    /// Whether the address lies on the 3×3 board.
    pub open spec fn on_board(self) -> bool {
        self.x < 3 && self.y < 3
    }

    pub fn new(x: usize, y: usize) -> (pos: Self)
        ensures
            pos.x == x,
            pos.y == y,
    {
        Self { x, y }
    }
}

/// The nine cells by name, as a player would call them.
#[derive(Debug, Clone, Copy, PartialEq, Eq, Structural)]
pub enum BoardFieldPosition {
    NorthWest,
    North,
    NorthEast,
    West,
    Center,
    East,
    SouthWest,
    South,
    SouthEast,
}

impl BoardFieldPosition {
    /// The address of the named cell.
    pub open spec fn position(self) -> FieldPosition {
        match self {
            BoardFieldPosition::NorthWest => FieldPosition { x: 0, y: 0 },
            BoardFieldPosition::North => FieldPosition { x: 1, y: 0 },
            BoardFieldPosition::NorthEast => FieldPosition { x: 2, y: 0 },
            BoardFieldPosition::West => FieldPosition { x: 0, y: 1 },
            BoardFieldPosition::Center => FieldPosition { x: 1, y: 1 },
            BoardFieldPosition::East => FieldPosition { x: 2, y: 1 },
            BoardFieldPosition::SouthWest => FieldPosition { x: 0, y: 2 },
            BoardFieldPosition::South => FieldPosition { x: 1, y: 2 },
            BoardFieldPosition::SouthEast => FieldPosition { x: 2, y: 2 },
        }
    }

    /// Gives the address of the named cell.
    pub fn to_field_position(self) -> (pos: FieldPosition)
        ensures
            pos == self.position(),
    {
        match self {
            BoardFieldPosition::NorthWest => FieldPosition::new(0, 0),
            BoardFieldPosition::North => FieldPosition::new(1, 0),
            BoardFieldPosition::NorthEast => FieldPosition::new(2, 0),
            BoardFieldPosition::West => FieldPosition::new(0, 1),
            BoardFieldPosition::Center => FieldPosition::new(1, 1),
            BoardFieldPosition::East => FieldPosition::new(2, 1),
            BoardFieldPosition::SouthWest => FieldPosition::new(0, 2),
            BoardFieldPosition::South => FieldPosition::new(1, 2),
            BoardFieldPosition::SouthEast => FieldPosition::new(2, 2),
        }
    }

    /// Gives the name of the cell at `pos`, or `None` where `pos` is off the board.
    pub fn from_field_position(pos: FieldPosition) -> (named: Option<BoardFieldPosition>)
        ensures
            named is Some <==> pos.on_board(),
            named is Some ==> named.unwrap().position() == pos,
    {
        if pos.y == 0 {
            if pos.x == 0 {
                Some(BoardFieldPosition::NorthWest)
            } else if pos.x == 1 {
                Some(BoardFieldPosition::North)
            } else if pos.x == 2 {
                Some(BoardFieldPosition::NorthEast)
            } else {
                None
            }
        } else if pos.y == 1 {
            if pos.x == 0 {
                Some(BoardFieldPosition::West)
            } else if pos.x == 1 {
                Some(BoardFieldPosition::Center)
            } else if pos.x == 2 {
                Some(BoardFieldPosition::East)
            } else {
                None
            }
        } else if pos.y == 2 {
            if pos.x == 0 {
                Some(BoardFieldPosition::SouthWest)
            } else if pos.x == 1 {
                Some(BoardFieldPosition::South)
            } else if pos.x == 2 {
                Some(BoardFieldPosition::SouthEast)
            } else {
                None
            }
        } else {
            None
        }
    }

    /// Names and addresses on the board stand in one-to-one correspondence:
    /// every name has an address on the board, no two names share one, and
    /// every address on the board has a name.
    pub proof fn lemma_names_match_positions()
        ensures
            forall|name: BoardFieldPosition| #[trigger] name.position().on_board(),
            forall|a: BoardFieldPosition, b: BoardFieldPosition|
                a.position() == b.position() ==> a == b,
            forall|pos: FieldPosition|
                pos.on_board() ==> exists|name: BoardFieldPosition| name.position() == pos,
    {
        assert forall|pos: FieldPosition| pos.on_board() implies exists|name: BoardFieldPosition|
            name.position() == pos by {
            let name = if pos.y == 0 {
                if pos.x == 0 {
                    BoardFieldPosition::NorthWest
                } else if pos.x == 1 {
                    BoardFieldPosition::North
                } else {
                    BoardFieldPosition::NorthEast
                }
            } else if pos.y == 1 {
                if pos.x == 0 {
                    BoardFieldPosition::West
                } else if pos.x == 1 {
                    BoardFieldPosition::Center
                } else {
                    BoardFieldPosition::East
                }
            } else {
                if pos.x == 0 {
                    BoardFieldPosition::SouthWest
                } else if pos.x == 1 {
                    BoardFieldPosition::South
                } else {
                    BoardFieldPosition::SouthEast
                }
            };
            assert(name.position() == pos);
        }
    }
}

/// The board: three rows of three cells, row 0 being the northern one.
#[derive(Debug, Hash, Clone, Copy, PartialEq, Eq)]
pub struct Board(pub [[FieldState; 3]; 3]);

impl Board {
    /// The cell in column `x` of row `y`.
    pub open spec fn cell(self, x: int, y: int) -> FieldState {
        self.0[y][x]
    }

    /// The `k`-th cell in row-major order: row 0 from west to east, then
    /// row 1, then row 2.
    pub open spec fn nth_cell(self, k: int) -> FieldState {
        self.cell(k % 3, k / 3)
    }

    /// The board whose cell in column `x` of row `y` is `f(x, y)`.
    pub open spec fn from_cells(f: spec_fn(int, int) -> FieldState) -> Board {
        Board(
            [
                [f(0, 0), f(1, 0), f(2, 0)],
                [f(0, 1), f(1, 1), f(2, 1)],
                [f(0, 2), f(1, 2), f(2, 2)],
            ],
        )
    }

    /// How many of the first `n` cells in row-major order hold `state`.
    pub open spec fn count_below(self, n: nat, state: FieldState) -> nat
        decreases n,
    {
        if n == 0 {
            0
        } else {
            let k = (n - 1) as nat;
            let rest = self.count_below(k, state);
            if self.nth_cell(k as int) == state {
                rest + 1
            } else {
                rest
            }
        }
    }

    /// How many of the nine cells hold `state`.
    pub open spec fn count(self, state: FieldState) -> nat {
        self.count_below(9, state)
    }

    /// The cell's digit in the board's number: 0 for empty, 1 for X, 2 for O.
    pub open spec fn digit(state: FieldState) -> nat {
        match state {
            FieldState::Empty => 0,
            FieldState::X => 1,
            FieldState::O => 2,
        }
    }

    /// The first `n` cells in row-major order read as a number in base 3,
    /// the first cell being the most significant digit.
    pub open spec fn code_below(self, n: nat) -> nat
        decreases n,
    {
        if n == 0 {
            0
        } else {
            let k = (n - 1) as nat;
            3 * self.code_below(k) + Self::digit(self.nth_cell(k as int))
        }
    }

    /// 3 to the power of `n`.
    pub open spec fn pow3(n: nat) -> nat
        decreases n,
    {
        if n == 0 {
            1
        } else {
            3 * Self::pow3((n - 1) as nat)
        }
    }

    /// The board as a number below 3^9: its nine cells read in base 3.
    pub open spec fn code(self) -> nat {
        self.code_below(9)
    }

    /// The empty cells among the first `n` cells in row-major order
    /// (row 0 from west to east, then row 1, then row 2), in that order.
    pub open spec fn empty_fields_below(self, n: nat) -> Seq<FieldPosition>
        decreases n,
    {
        if n == 0 {
            Seq::empty()
        } else {
            let k = (n - 1) as nat;
            let rest = self.empty_fields_below(k);
            if self.nth_cell(k as int) == FieldState::Empty {
                rest.push(FieldPosition { x: (k % 3) as usize, y: (k / 3) as usize })
            } else {
                rest
            }
        }
    }

    /// All empty cells in row-major order.
    pub open spec fn empty_fields(self) -> Seq<FieldPosition> {
        self.empty_fields_below(9)
    }

    /// Whether `pos` addresses an empty cell of the board.
    pub open spec fn is_empty_at(self, pos: FieldPosition) -> bool {
        pos.on_board() && self.cell(pos.x as int, pos.y as int) == FieldState::Empty
    }

    /// The mark that the next move places: X while both sides have moved
    /// equally often, O otherwise.
    pub open spec fn mark_to_move(self) -> FieldState {
        if self.count(FieldState::X) == self.count(FieldState::O) {
            FieldState::X
        } else {
            FieldState::O
        }
    }

    /// The board after the side to move has marked the cell at `pos`.
    pub open spec fn with_move_at(self, pos: FieldPosition) -> Board {
        Board::from_cells(
            |x: int, y: int|
                if x == pos.x && y == pos.y {
                    self.mark_to_move()
                } else {
                    self.cell(x, y)
                },
        )
    }

    /// The board turned a quarter clockwise: the cell at `(x, y)` moves to `(2 - y, x)`.
    pub open spec fn rotated_90_clockwise(self) -> Board {
        Board::from_cells(|x: int, y: int| self.cell(y, 2 - x))
    }

    /// Rows 0 and 2 exchanged: the cell at `(x, y)` moves to `(x, 2 - y)`.
    pub open spec fn flipped_vertically(self) -> Board {
        Board::from_cells(|x: int, y: int| self.cell(x, 2 - y))
    }

    /// Columns 0 and 2 exchanged: the cell at `(x, y)` moves to `(2 - x, y)`.
    pub open spec fn flipped_horizontally(self) -> Board {
        Board::from_cells(|x: int, y: int| self.cell(2 - x, y))
    }

    /// The board mirrored on its diagonal from south-west to north-east:
    /// the cell at `(x, y)` moves to `(2 - y, 2 - x)`.
    pub open spec fn flipped_diagonally_southwest_northeast(self) -> Board {
        Board::from_cells(|x: int, y: int| self.cell(2 - y, 2 - x))
    }

    /// The board mirrored on its diagonal from north-west to south-east:
    /// the cell at `(x, y)` moves to `(y, x)`.
    pub open spec fn flipped_diagonally_northwest_southeast(self) -> Board {
        Board::from_cells(|x: int, y: int| self.cell(y, x))
    }

    /// Whether three cells hold the same mark, X or O.
    pub open spec fn all_same(a: FieldState, b: FieldState, c: FieldState) -> bool {
        a != FieldState::Empty && a == b && a == c
    }

    /// Whether row `y` is complete.
    pub open spec fn row_complete(self, y: int) -> bool {
        Self::all_same(self.cell(0, y), self.cell(1, y), self.cell(2, y))
    }

    /// Whether column `x` is complete.
    pub open spec fn column_complete(self, x: int) -> bool {
        Self::all_same(self.cell(x, 0), self.cell(x, 1), self.cell(x, 2))
    }

    /// Whether the diagonal from north-west to south-east is complete.
    pub open spec fn diagonal_complete(self) -> bool {
        Self::all_same(self.cell(0, 0), self.cell(1, 1), self.cell(2, 2))
    }

    /// Whether the diagonal from south-west to north-east is complete.
    pub open spec fn antidiagonal_complete(self) -> bool {
        Self::all_same(self.cell(0, 2), self.cell(1, 1), self.cell(2, 0))
    }

    /// Whether any of the eight lines is complete.
    pub open spec fn has_complete_line(self) -> bool {
        ||| exists|y: int| 0 <= y < 3 && self.row_complete(y)
        ||| exists|x: int| 0 <= x < 3 && self.column_complete(x)
        ||| self.diagonal_complete()
        ||| self.antidiagonal_complete()
    }

    /// The mark of the first complete line, looking at the rows from north to
    /// south, then the columns from west to east, then the two diagonals;
    /// `Empty` where no line is complete.
    pub open spec fn winner(self) -> FieldState {
        if self.row_complete(0) {
            self.cell(0, 0)
        } else if self.row_complete(1) {
            self.cell(0, 1)
        } else if self.row_complete(2) {
            self.cell(0, 2)
        } else if self.column_complete(0) {
            self.cell(0, 0)
        } else if self.column_complete(1) {
            self.cell(1, 0)
        } else if self.column_complete(2) {
            self.cell(2, 0)
        } else if self.diagonal_complete() || self.antidiagonal_complete() {
            self.cell(1, 1)
        } else {
            FieldState::Empty
        }
    }

    /// Row `y` as it is written: the three cells between bars, and a line break.
    pub open spec fn row_text(self, y: int) -> Seq<char> {
        " "@ + self.cell(0, y).symbol() + " | "@ + self.cell(1, y).symbol() + " | "@ + self.cell(
            2,
            y,
        ).symbol() + "\n"@
    }

    /// The board as it is written: its three rows from north to south, a
    /// rule of dashes between them, and an empty line at the end.
    pub open spec fn text(self) -> Seq<char> {
        self.row_text(0) + "------------\n"@ + self.row_text(1) + "------------\n"@
            + self.row_text(2) + "\n"@
    }

    /// Two boards with the same nine cells are the same board.
    pub proof fn lemma_equal_by_cells(self, other: Board)
        requires
            forall|x: int, y: int| 0 <= x < 3 && 0 <= y < 3 ==> self.cell(x, y) == other.cell(x, y),
        ensures
            self == other,
    {
        assert forall|y: int| 0 <= y < 3 implies self.0[y] == other.0[y] by {
            assert forall|x: int| 0 <= x < 3 implies self.0[y][x] == other.0[y][x] by {
                assert(self.cell(x, y) == other.cell(x, y));
            }
            assert(self.0[y] =~= other.0[y]);
        }
        assert(self.0 =~= other.0);
    }

    /// Boards that agree on their first `n` cells have the same number there,
    /// and the other way round; that number is below 3^n.
    pub proof fn lemma_code_below(self, other: Board, n: nat)
        requires
            n <= 9,
        ensures
            self.code_below(n) < Self::pow3(n),
            self.code_below(n) == other.code_below(n) <==> forall|k: int|
                0 <= k < n ==> #[trigger] self.nth_cell(k) == other.nth_cell(k),
        decreases n,
    {
        if n > 0 {
            let k = (n - 1) as nat;
            self.lemma_code_below(other, k);
            let a = self.nth_cell(k as int);
            let b = other.nth_cell(k as int);
            if self.code_below(n) == other.code_below(n) {
                assert(self.code_below(k) == other.code_below(k));
                assert(a == b);
            }
        }
    }

    /// The powers of 3 up to the ninth stay within 19683.
    pub proof fn lemma_pow3_bound(n: nat)
        requires
            n <= 9,
        ensures
            Self::pow3(n) <= 19683,
            Self::pow3(9) == 19683,
    {
        reveal_with_fuel(Board::pow3, 10);
    }

    /// A board is known by its number: two boards with the same number are
    /// the same board.
    pub proof fn lemma_code_injective(self, other: Board)
        requires
            self.code() == other.code(),
        ensures
            self == other,
    {
        self.lemma_code_below(other, 9);
        assert forall|x: int, y: int| 0 <= x < 3 && 0 <= y < 3 implies self.cell(x, y)
            == other.cell(x, y) by {
            let k = 3 * y + x;
            assert(k % 3 == x && k / 3 == y);
            assert(self.nth_cell(k) == other.nth_cell(k));
        }
        self.lemma_equal_by_cells(other);
    }

    /// What the row-major list of the empty cells among the first `n` cells
    /// holds: exactly the empty cells there, each once, in rising order, as
    /// many as `count_below` counts.
    pub proof fn lemma_empty_fields_below(self, n: nat)
        requires
            n <= 9,
        ensures
            self.empty_fields_below(n).len() == self.count_below(n, FieldState::Empty),
            forall|i: int|
                0 <= i < self.empty_fields_below(n).len() ==> {
                    let pos = #[trigger] self.empty_fields_below(n)[i];
                    self.is_empty_at(pos) && 3 * pos.y + pos.x < n
                },
            forall|i: int, j: int|
                0 <= i < j < self.empty_fields_below(n).len() ==> {
                    let a = #[trigger] self.empty_fields_below(n)[i];
                    let b = #[trigger] self.empty_fields_below(n)[j];
                    3 * a.y + a.x < 3 * b.y + b.x
                },
            forall|pos: FieldPosition|
                self.is_empty_at(pos) && 3 * pos.y + pos.x < n ==> self.empty_fields_below(
                    n,
                ).contains(pos),
        decreases n,
    {
        if n > 0 {
            let k = (n - 1) as nat;
            self.lemma_empty_fields_below(k);
            let rest = self.empty_fields_below(k);
            let all = self.empty_fields_below(n);
            let last = FieldPosition { x: (k % 3) as usize, y: (k / 3) as usize };
            assert(3 * last.y + last.x == k);
            assert forall|pos: FieldPosition|
                self.is_empty_at(pos) && 3 * pos.y + pos.x < n implies all.contains(pos) by {
                if 3 * pos.y + pos.x < k {
                    let i = choose|i: int| 0 <= i < rest.len() && rest[i] == pos;
                    assert(all[i] == pos);
                } else {
                    assert(3 * pos.y + pos.x == k);
                    assert(pos == last);
                    assert(all[rest.len() as int] == pos);
                }
            }
        }
    }

    /// The empty cells of a board, as listed: each is an empty cell on the
    /// board, none is listed twice, every empty cell is listed, and there are
    /// as many as the count of empty cells.
    pub proof fn lemma_empty_fields(self)
        ensures
            self.empty_fields().len() == self.count(FieldState::Empty),
            self.empty_fields().len() <= 9,
            forall|i: int|
                0 <= i < self.empty_fields().len() ==> self.is_empty_at(
                    #[trigger] self.empty_fields()[i],
                ),
            forall|i: int, j: int|
                0 <= i < j < self.empty_fields().len() ==> self.empty_fields()[i]
                    != self.empty_fields()[j],
            forall|pos: FieldPosition|
                self.is_empty_at(pos) <==> self.empty_fields().contains(pos),
    {
        self.lemma_empty_fields_below(9);
        self.lemma_count_below_bound(9, FieldState::Empty);
    }

    /// Among `n` cells at most `n` hold a given state.
    pub proof fn lemma_count_below_bound(self, n: nat, state: FieldState)
        ensures
            self.count_below(n, state) <= n,
        decreases n,
    {
        if n > 0 {
            self.lemma_count_below_bound((n - 1) as nat, state);
        }
    }

    /// Whether the marks are in balance: X has moved as often as O, or once more.
    pub open spec fn is_balanced(self) -> bool {
        self.count(FieldState::X) == self.count(FieldState::O) || self.count(FieldState::X)
            == self.count(FieldState::O) + 1
    }

    /// How a move changes the count of `state` among the first `n` cells:
    /// once the moved-to cell is among them, one more of the mark placed
    /// and one empty cell less.
    pub proof fn lemma_count_below_after_move(self, pos: FieldPosition, n: nat, state: FieldState)
        requires
            self.is_empty_at(pos),
            n <= 9,
        ensures
            self.with_move_at(pos).count_below(n, state) + (if 3 * pos.y + pos.x < n && state
                == FieldState::Empty {
                1nat
            } else {
                0nat
            }) == self.count_below(n, state) + (if 3 * pos.y + pos.x < n && state
                == self.mark_to_move() {
                1nat
            } else {
                0nat
            }),
        decreases n,
    {
        if n > 0 {
            let k = (n - 1) as nat;
            self.lemma_count_below_after_move(pos, k, state);
            let after = self.with_move_at(pos);
            if k == 3 * pos.y + pos.x {
                assert(k as int % 3 == pos.x && k as int / 3 == pos.y);
                assert(after.nth_cell(k as int) == self.mark_to_move());
                assert(self.nth_cell(k as int) == FieldState::Empty);
            } else {
                assert(after.nth_cell(k as int) == self.nth_cell(k as int));
            }
        }
    }

    /// A move fills one empty cell with the mark of the side to move and
    /// leaves every other count as it was; marks that were in balance stay
    /// in balance, and the side to move changes.
    pub proof fn lemma_move_changes_counts(self, pos: FieldPosition)
        requires
            self.is_empty_at(pos),
        ensures
            self.with_move_at(pos).count(FieldState::Empty) + 1 == self.count(FieldState::Empty),
            self.mark_to_move() == FieldState::X ==> {
                &&& self.with_move_at(pos).count(FieldState::X) == self.count(FieldState::X) + 1
                &&& self.with_move_at(pos).count(FieldState::O) == self.count(FieldState::O)
            },
            self.mark_to_move() == FieldState::O ==> {
                &&& self.with_move_at(pos).count(FieldState::O) == self.count(FieldState::O) + 1
                &&& self.with_move_at(pos).count(FieldState::X) == self.count(FieldState::X)
            },
            self.is_balanced() ==> self.with_move_at(pos).is_balanced() && self.with_move_at(
                pos,
            ).mark_to_move() != self.mark_to_move(),
    {
        self.lemma_count_below_after_move(pos, 9, FieldState::Empty);
        self.lemma_count_below_after_move(pos, 9, FieldState::X);
        self.lemma_count_below_after_move(pos, 9, FieldState::O);
    }

    /// A board on which every cell is empty.
    pub fn empty() -> (board: Board)
        ensures
            forall|x: int, y: int| 0 <= x < 3 && 0 <= y < 3 ==> board.cell(x, y) == FieldState::Empty,
    {
        let e = FieldState::Empty;
        Board([[e, e, e], [e, e, e], [e, e, e]])
    }

    /// Reads the cell at `pos`.
    pub fn field_at(&self, pos: FieldPosition) -> (state: FieldState)
        requires
            pos.on_board(),
        ensures
            state == self.cell(pos.x as int, pos.y as int),
    {
        self.0[pos.y][pos.x]
    }

    /// Places the mark of the side to move on the empty cell at `board_pos`.
    pub fn play_move_at(&mut self, board_pos: FieldPosition)
        requires
            old(self).is_empty_at(board_pos),
        ensures
            *final(self) == old(self).with_move_at(board_pos),
    {
        let cross_count = self.field_state_count(FieldState::X);
        let circle_count = self.field_state_count(FieldState::O);
        let mark = if cross_count == circle_count {
            FieldState::X
        } else {
            FieldState::O
        };
        self.0[board_pos.y][board_pos.x] = mark;
        proof {
            self.lemma_equal_by_cells(old(self).with_move_at(board_pos));
        }
    }

    /// Counts the cells that hold `field_state`.
    pub fn field_state_count(&self, field_state: FieldState) -> (count: usize)
        ensures
            count == self.count(field_state),
    {
        let mut count: usize = 0;
        for k in 0..9usize
            invariant
                count == self.count_below(k as nat, field_state),
                count <= k,
        {
            if self.0[k / 3][k % 3] == field_state {
                count += 1;
            }
        }
        count
    }

    /// Lists the empty cells in row-major order.
    pub fn get_empty_fields_pos(&self) -> (fields: Vec<FieldPosition>)
        ensures
            fields@ == self.empty_fields(),
    {
        let mut fields: Vec<FieldPosition> = Vec::new();
        for k in 0..9usize
            invariant
                fields@ == self.empty_fields_below(k as nat),
        {
            if self.0[k / 3][k % 3] == FieldState::Empty {
                fields.push(FieldPosition::new(k % 3, k / 3));
            }
        }
        fields
    }

    /// Turns the board a quarter clockwise.
    pub fn get_rotated_90_clockwise(&self) -> (rotate: Board)
        ensures
            rotate == self.rotated_90_clockwise(),
    {
        let mut rotate = *self;
        for y in 0..3usize
            invariant
                forall|i: int, j: int|
                    0 <= i < 3 && 0 <= j < y ==> rotate.cell(2 - j, i) == self.cell(i, j),
        {
            for x in 0..3usize
                invariant
                    y < 3,
                    forall|i: int, j: int|
                        0 <= i < 3 && 0 <= j < y ==> rotate.cell(2 - j, i) == self.cell(i, j),
                    forall|i: int| 0 <= i < x ==> rotate.cell(2 - y, i) == self.cell(i, y as int),
            {
                rotate.0[x][2 - y] = self.0[y][x];
            }
        }
        proof {
            let expected = self.rotated_90_clockwise();
            assert forall|x: int, y: int| 0 <= x < 3 && 0 <= y < 3 implies rotate.cell(x, y)
                == expected.cell(x, y) by {
                assert(rotate.cell(2 - (2 - x), y) == self.cell(y, 2 - x));
            }
            rotate.lemma_equal_by_cells(expected);
        }
        rotate
    }

    /// Exchanges the northern and the southern row.
    pub fn get_flipped_vertically(&self) -> (flip: Board)
        ensures
            flip == self.flipped_vertically(),
    {
        let mut flip = *self;
        flip.0[0] = self.0[2];
        flip.0[2] = self.0[0];
        proof {
            flip.lemma_equal_by_cells(self.flipped_vertically());
        }
        flip
    }

    /// Exchanges the western and the eastern column.
    pub fn get_flipped_horizontally(&self) -> (flip: Board)
        ensures
            flip == self.flipped_horizontally(),
    {
        let mut flip = *self;
        for y in 0..3usize
            invariant
                forall|i: int, j: int|
                    0 <= i < 3 && 0 <= j < y ==> flip.cell(2 - i, j) == self.cell(i, j),
                forall|i: int, j: int| 0 <= i < 3 && y <= j < 3 ==> flip.cell(i, j) == self.cell(i, j),
        {
            flip.0[y][0] = self.0[y][2];
            flip.0[y][2] = self.0[y][0];
        }
        proof {
            let expected = self.flipped_horizontally();
            assert forall|x: int, y: int| 0 <= x < 3 && 0 <= y < 3 implies flip.cell(x, y)
                == expected.cell(x, y) by {
                assert(flip.cell(2 - (2 - x), y) == self.cell(2 - x, y));
            }
            flip.lemma_equal_by_cells(expected);
        }
        flip
    }

    /// Mirrors the board on its diagonal from south-west to north-east.
    pub fn get_flipped_diagonally_southwest_northeast(&self) -> (flip: Board)
        ensures
            flip == self.flipped_diagonally_southwest_northeast(),
    {
        let mut flip = *self;
        for y in 0..3usize
            invariant
                forall|i: int, j: int|
                    0 <= i < 3 && 0 <= j < y ==> flip.cell(2 - j, 2 - i) == self.cell(i, j),
        {
            for x in 0..3usize
                invariant
                    y < 3,
                    forall|i: int, j: int|
                        0 <= i < 3 && 0 <= j < y ==> flip.cell(2 - j, 2 - i) == self.cell(i, j),
                    forall|i: int|
                        0 <= i < x ==> flip.cell(2 - y, 2 - i) == self.cell(i, y as int),
            {
                flip.0[2 - x][2 - y] = self.0[y][x];
            }
        }
        proof {
            let expected = self.flipped_diagonally_southwest_northeast();
            assert forall|x: int, y: int| 0 <= x < 3 && 0 <= y < 3 implies flip.cell(x, y)
                == expected.cell(x, y) by {
                assert(flip.cell(2 - (2 - x), 2 - (2 - y)) == self.cell(2 - y, 2 - x));
            }
            flip.lemma_equal_by_cells(expected);
        }
        flip
    }

    /// Mirrors the board on its diagonal from north-west to south-east.
    pub fn get_flipped_diagonally_northwest_southeast(&self) -> (flip: Board)
        ensures
            flip == self.flipped_diagonally_northwest_southeast(),
    {
        let mut flip = *self;
        for y in 0..3usize
            invariant
                forall|i: int, j: int| 0 <= i < 3 && 0 <= j < y ==> flip.cell(j, i) == self.cell(i, j),
        {
            for x in 0..3usize
                invariant
                    y < 3,
                    forall|i: int, j: int|
                        0 <= i < 3 && 0 <= j < y ==> flip.cell(j, i) == self.cell(i, j),
                    forall|i: int| 0 <= i < x ==> flip.cell(y as int, i) == self.cell(i, y as int),
            {
                flip.0[x][y] = self.0[y][x];
            }
        }
        proof {
            flip.lemma_equal_by_cells(self.flipped_diagonally_northwest_southeast());
        }
        flip
    }

    /// Computes the board's number.
    pub fn encode(&self) -> (code: u32)
        ensures
            code == self.code(),
            code < 19683,
    {
        let mut code: u32 = 0;
        for k in 0..9usize
            invariant
                code == self.code_below(k as nat),
                code < Self::pow3(k as nat),
        {
            proof {
                Self::lemma_pow3_bound(k as nat);
            }
            let digit: u32 = match self.0[k / 3][k % 3] {
                FieldState::Empty => 0,
                FieldState::X => 1,
                FieldState::O => 2,
            };
            code = 3 * code + digit;
        }
        proof {
            Self::lemma_pow3_bound(9);
        }
        code
    }

    /// Writes row `y` at the end of `text`.
    fn append_row(&self, text: &mut String, y: usize)
        requires
            y < 3,
        ensures
            final(text)@ == old(text)@ + self.row_text(y as int),
    {
        text.append(" ");
        text.append(self.0[y][0].to_text());
        text.append(" | ");
        text.append(self.0[y][1].to_text());
        text.append(" | ");
        text.append(self.0[y][2].to_text());
        text.append("\n");
        assert(text@ =~= old(text)@ + self.row_text(y as int));
    }

    /// Writes the board out for a reader.
    pub fn to_text(&self) -> (text: String)
        ensures
            text@ == self.text(),
    {
        let mut text = String::new();
        self.append_row(&mut text, 0);
        text.append("------------\n");
        self.append_row(&mut text, 1);
        text.append("------------\n");
        self.append_row(&mut text, 2);
        text.append("\n");
        assert(text@ =~= self.text());
        text
    }

    /// Finds the mark of the first complete line, `Empty` if there is none.
    pub fn find_winner(&self) -> (winner: FieldState)
        ensures
            winner == self.winner(),
            winner != FieldState::Empty <==> self.has_complete_line(),
    {
        for y in 0..3usize
            invariant
                forall|j: int| 0 <= j < y ==> !self.row_complete(j),
        {
            if is_all_same(self.0[y][0], self.0[y][1], self.0[y][2]) {
                return self.0[y][0];
            }
        }
        for x in 0..3usize
            invariant
                forall|j: int| 0 <= j < 3 ==> !self.row_complete(j),
                forall|i: int| 0 <= i < x ==> !self.column_complete(i),
        {
            if is_all_same(self.0[0][x], self.0[1][x], self.0[2][x]) {
                return self.0[0][x];
            }
        }
        if is_all_same(self.0[0][0], self.0[1][1], self.0[2][2]) {
            return self.0[1][1];
        }
        if is_all_same(self.0[2][0], self.0[1][1], self.0[0][2]) {
            return self.0[1][1];
        }
        FieldState::Empty
    }
}

/// Tells whether three cells hold the same mark, X or O.
fn is_all_same(a: FieldState, b: FieldState, c: FieldState) -> (same: bool)
    ensures
        same == Board::all_same(a, b, c),
{
    a != FieldState::Empty && a == b && a == c
}

} // verus!
