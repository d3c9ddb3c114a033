//! The game as it is played at the table: coloured pieces in a frame, and
//! whose turn it is.
use rand::rngs::ThreadRng;
use rand::Rng;
use vstd::prelude::*;
use crate::bitboard::{grid_of, lemma_cell};
use crate::bits::bit_set;
use crate::grid::Grid;
use crate::layout::{
    cell_bit, cell_index, lemma_cell_bit, lemma_set_cell, lemma_settled_mask, on_board,
    valid_bits, within_board, HEIGHT, WIDTH,
};

verus! {

/// What a cell of the frame holds.
#[derive(Copy, Clone, Debug, PartialEq, Eq, Structural)]
pub enum Piece {
    Empty,
    Red,
    Yellow,
}

impl Default for Piece {
    fn default() -> (piece: Self)
        ensures
            piece == Piece::Empty,
    {
        Piece::Empty
    }
}

/// Whose move it is, or how the game has ended.
#[derive(Copy, Clone, Debug, PartialEq, Eq, Structural)]
pub enum Turn {
    Red,
    Yellow,
    RedWon,
    YellowWon,
    Tie,
}

impl Default for Turn {
    fn default() -> (turn: Self)
        ensures
            turn == Turn::Red,
    {
        Turn::Red
    }
}

impl Turn {
    /// The piece that the player to move plays; `Empty` once the game is over.
    pub open spec fn piece(self) -> Piece {
        match self {
            Turn::Red => Piece::Red,
            Turn::Yellow => Piece::Yellow,
            _ => Piece::Empty,
        }
    }

    /// The turn after a move that does not end the game; a game that is over
    /// stays as it is.
    pub open spec fn changed(self) -> Turn {
        match self {
            Turn::Red => Turn::Yellow,
            Turn::Yellow => Turn::Red,
            _ => self,
        }
    }

    /// The end of the game in which the player to move has won.
    pub open spec fn won(self) -> Turn {
        match self {
            Turn::Red => Turn::RedWon,
            Turn::Yellow => Turn::YellowWon,
            _ => self,
        }
    }

    /// The game is still going on.
    pub open spec fn playing(self) -> bool {
        self == Turn::Red || self == Turn::Yellow
    }

    /// The piece that the player to move plays.
    pub fn get_piece(&self) -> (piece: Piece)
        ensures
            piece == self.piece(),
    {
        match self {
            Self::Red => Piece::Red,
            Self::Yellow => Piece::Yellow,
            _ => Piece::Empty,
        }
    }

    /// Hands the move to the other player.
    pub fn change(&self) -> (next: Turn)
        ensures
            next == self.changed(),
    {
        match self {
            Self::Red => Self::Yellow,
            Self::Yellow => Self::Red,
            _ => *self,
        }
    }

    /// Ends the game in favour of the player to move.
    pub fn win(&self) -> (end: Turn)
        ensures
            end == self.won(),
    {
        match self {
            Self::Red => Self::RedWon,
            Self::Yellow => Self::YellowWon,
            _ => *self,
        }
    }
}

/// The frame with its pieces, `cells[column][row]` with row 0 at the bottom,
/// and the turn.
pub struct Table {
    pub cells: Seq<Seq<Piece>>,
    pub turn: Turn,
}

/// How far `steps` steps lead along an axis that moves by `delta` each step,
/// for a `delta` of one, none, or one back.
pub open spec fn offset(delta: int, steps: int) -> int {
    if delta > 0 {
        steps
    } else if delta < 0 {
        -steps
    } else {
        0
    }
}

/// The columns that one step along the axis `direction` moves across.
pub open spec fn axis_across(direction: int) -> int {
    if direction == 0 || direction == 1 {
        1
    } else if direction == 2 {
        0
    } else {
        -1
    }
}

/// The rows that one step along the axis `direction` moves up.
pub open spec fn axis_up(direction: int) -> int {
    if direction == 0 {
        0
    } else {
        1
    }
}

impl Table {
    /// The empty frame, with Red to move.
    pub open spec fn start() -> Table {
        Table {
            cells: Seq::new(WIDTH as nat, |column: int| Seq::new(HEIGHT as nat, |row: int| Piece::Empty)),
            turn: Turn::Red,
        }
    }

    /// The frame has `WIDTH` columns of `HEIGHT` cells.
    pub open spec fn shaped(self) -> bool {
        &&& self.cells.len() == WIDTH
        &&& forall|column: int| 0 <= column < WIDTH ==> (#[trigger] self.cells[column]).len() == HEIGHT
    }

    /// No piece hangs over an empty cell.
    pub open spec fn settled(self) -> bool {
        forall|column: int, row: int|
            on_board(column, row) && on_board(column, row + 1) && (#[trigger] self.cells[column][row
                + 1]) != Piece::Empty ==> self.cells[column][row] != Piece::Empty
    }

    /// The frame has its shape and the pieces have fallen as far as they go.
    pub open spec fn valid(self) -> bool {
        self.shaped() && self.settled()
    }

    /// The cell `(column, row)` is in the frame and holds `piece`.
    pub open spec fn holds(self, column: int, row: int, piece: Piece) -> bool {
        on_board(column, row) && self.cells[column][row] == piece
    }

    /// The lowest empty row of `column`; `HEIGHT` if the column is full.
    pub open spec fn height(self, column: int) -> int {
        let stack = self.cells[column];
        if stack[0] == Piece::Empty {
            0
        } else if stack[1] == Piece::Empty {
            1
        } else if stack[2] == Piece::Empty {
            2
        } else if stack[3] == Piece::Empty {
            3
        } else if stack[4] == Piece::Empty {
            4
        } else if stack[5] == Piece::Empty {
            5
        } else {
            6
        }
    }

    /// No cell is empty.
    pub open spec fn is_full(self) -> bool {
        forall|column: int, row: int|
            on_board(column, row) ==> (#[trigger] self.cells[column][row]) != Piece::Empty
    }

    /// Four cells in a row hold `piece`: the first is `(column, row)`, and
    /// each next one lies `across` columns and `up` rows further.
    pub open spec fn window(self, column: int, row: int, across: int, up: int, piece: Piece) -> bool {
        &&& self.holds(column, row, piece)
        &&& self.holds(column + across, row + up, piece)
        &&& self.holds(column + 2 * across, row + 2 * up, piece)
        &&& self.holds(column + 3 * across, row + 3 * up, piece)
    }

    /// The cell `(column, row)` is one of four in a row along the axis
    /// `(across, up)` that all hold what it holds.
    pub open spec fn run_through(self, column: int, row: int, across: int, up: int) -> bool {
        let piece = self.cells[column][row];
        ||| self.window(column, row, across, up, piece)
        ||| self.window(column - across, row - up, across, up, piece)
        ||| self.window(column - 2 * across, row - 2 * up, across, up, piece)
        ||| self.window(column - 3 * across, row - 3 * up, across, up, piece)
    }

    /// The piece in `(column, row)` is one of four of its colour in a row.
    pub open spec fn connects(self, column: int, row: int) -> bool {
        &&& self.cells[column][row] != Piece::Empty
        &&& exists|direction: int|
            0 <= direction < 4 && #[trigger] self.run_through(
                column,
                row,
                axis_across(direction),
                axis_up(direction),
            )
    }

    /// The turn once the piece in `(column, row)` has been looked at: the
    /// player to move has won if it connects four, the game is a tie if the
    /// frame is full, and nothing changes otherwise, or for an empty cell.
    pub open spec fn outcome(self, column: int, row: int) -> Turn {
        if self.cells[column][row] == Piece::Empty {
            self.turn
        } else if self.connects(column, row) {
            self.turn.won()
        } else if self.is_full() {
            Turn::Tie
        } else {
            self.turn
        }
    }

    /// The frame with the piece of the player to move put into `column`.
    pub open spec fn placed(self, column: int) -> Table {
        Table {
            cells: self.cells.update(
                column,
                self.cells[column].update(self.height(column), self.turn.piece()),
            ),
            turn: self.turn,
        }
    }

    /// The game after a move into `column`. A full column takes no piece and
    /// leaves the game as it is. Otherwise the piece of the player to move
    /// comes to rest on the column; if it connects four that player has won,
    /// if it fills the frame the game is a tie, and else the other player
    /// moves next. A game that is over stays as it is.
    pub open spec fn after_move(self, column: int) -> Table {
        if self.height(column) >= HEIGHT {
            self
        } else {
            Table {
                cells: self.placed(column).cells,
                turn: self.placed(column).outcome(column, self.height(column)).changed(),
            }
        }
    }

    /// The position as the player to move sees it: their own pieces against
    /// all others. Once the game is over no piece counts as their own.
    pub open spec fn grid(self) -> Grid {
        Grid {
            columns: Seq::new(
                WIDTH as nat,
                |column: int|
                    Seq::new(
                        self.height(column) as nat,
                        |row: int| self.cells[column][row] == self.turn.piece(),
                    ),
            ),
        }
    }

    /// In a valid frame the cells below a column's height hold pieces and
    /// those from it upwards are empty.
    pub proof fn lemma_height(self, column: int, row: int)
        requires
            self.valid(),
            on_board(column, row),
        ensures
            0 <= self.height(column) <= HEIGHT,
            self.cells[column][row] != Piece::Empty <==> row < self.height(column),
    {
        let stack = self.cells[column];
        assert(on_board(column, 0) && on_board(column, 1) && on_board(column, 2) && on_board(
            column,
            3,
        ) && on_board(column, 4) && on_board(column, 5));
        assert(self.cells[column][0int + 1] != Piece::Empty ==> stack[0] != Piece::Empty);
        assert(self.cells[column][1int + 1] != Piece::Empty ==> stack[1] != Piece::Empty);
        assert(self.cells[column][2int + 1] != Piece::Empty ==> stack[2] != Piece::Empty);
        assert(self.cells[column][3int + 1] != Piece::Empty ==> stack[3] != Piece::Empty);
        assert(self.cells[column][4int + 1] != Piece::Empty ==> stack[4] != Piece::Empty);
    }
}

impl Table {
    /// Where `column` has room, the cells from its height upwards are empty
    /// and the frame with one more piece in it is valid.
    pub proof fn lemma_placed(self, column: int)
        requires
            self.valid(),
            0 <= column < WIDTH,
            self.height(column) < HEIGHT,
        ensures
            self.cells[column][self.height(column)] == Piece::Empty,
            self.placed(column).shaped(),
            self.turn.playing() ==> self.placed(column).valid(),
            self.turn.playing() ==> self.placed(column).height(column) == self.height(column) + 1,
            forall|other: int|
                0 <= other < WIDTH && other != column ==> self.placed(column).height(other)
                    == self.height(other),
            !self.turn.playing() ==> self.placed(column) == self,
    {
        let row = self.height(column);
        let placed = self.placed(column);
        self.lemma_height(column, row);
        if row > 0 {
            self.lemma_height(column, row - 1);
        }
        if self.turn.playing() {
            assert forall|c: int, r: int|
                on_board(c, r) && on_board(c, r + 1) && (#[trigger] placed.cells[c][r + 1])
                    != Piece::Empty implies placed.cells[c][r] != Piece::Empty by {
                self.lemma_height(c, r);
                self.lemma_height(c, r + 1);
            }
            self.lemma_height(column, 0);
            self.lemma_height(column, 1);
            self.lemma_height(column, 2);
            self.lemma_height(column, 3);
            self.lemma_height(column, 4);
            self.lemma_height(column, 5);
        } else {
            assert(placed.cells[column] =~= self.cells[column]);
            assert(placed.cells =~= self.cells);
        }
    }

    /// A game that is over stays as it is, whatever move is tried.
    pub proof fn lemma_over_stays(self, column: int)
        requires
            self.valid(),
            !self.turn.playing(),
            0 <= column < WIDTH,
        ensures
            self.after_move(column) == self,
    {
        if self.height(column) < HEIGHT {
            self.lemma_placed(column);
        }
    }

    /// A move into a full column changes nothing.
    pub proof fn lemma_full_column_refuses(self, column: int)
        requires
            self.height(column) >= HEIGHT,
        ensures
            self.after_move(column) == self,
    {
    }

    /// While the game goes on, a move at the table is a stone dropped on the
    /// board that the player to move sees.
    pub proof fn lemma_move_is_drop(self, column: int)
        requires
            self.valid(),
            self.turn.playing(),
            0 <= column < WIDTH,
            self.height(column) < HEIGHT,
            self.after_move(column).turn.playing(),
        ensures
            self.grid().can_drop(column),
            self.after_move(column).turn == self.turn.changed(),
            self.after_move(column).grid() == self.grid().drop(column),
    {
        let after = self.after_move(column);
        self.lemma_placed(column);
        assert forall|c: int| 0 <= c < WIDTH implies #[trigger] after.grid().columns[c]
            == self.grid().drop(column).columns[c] by {
            self.lemma_height(c, 0);
            self.lemma_height(c, 1);
            self.lemma_height(c, 2);
            self.lemma_height(c, 3);
            self.lemma_height(c, 4);
            self.lemma_height(c, 5);
            assert(after.grid().columns[c] =~= self.grid().drop(column).columns[c]);
        }
        assert(after.grid().columns =~= self.grid().drop(column).columns);
    }
}

/// A cell whose neighbours along an axis hold its piece for `forward - 1`
/// steps one way and `backward - 1` steps the other, and no further, is one
/// of four in a row exactly if those runs and the cell make four.
pub proof fn lemma_run_length(
    table: Table,
    column: int,
    row: int,
    across: int,
    up: int,
    forward: int,
    backward: int,
)
    requires
        table.shaped(),
        on_board(column, row),
        -1 <= across <= 1,
        -1 <= up <= 1,
        1 <= forward,
        1 <= backward,
        forall|steps: int|
            1 <= steps < forward ==> table.holds(
                column + #[trigger] offset(across, steps),
                row + offset(up, steps),
                table.cells[column][row],
            ),
        !table.holds(
            column + offset(across, forward),
            row + offset(up, forward),
            table.cells[column][row],
        ),
        forall|steps: int|
            1 <= steps < backward ==> table.holds(
                column + #[trigger] offset(-across, steps),
                row + offset(-up, steps),
                table.cells[column][row],
            ),
        !table.holds(
            column + offset(-across, backward),
            row + offset(-up, backward),
            table.cells[column][row],
        ),
    ensures
        forward + backward >= 5 <==> table.run_through(column, row, across, up),
{
    let piece = table.cells[column][row];
    assert(table.holds(column, row, piece));
    assert(1 < forward ==> table.holds(column + offset(across, 1), row + offset(up, 1), piece));
    assert(2 < forward ==> table.holds(column + offset(across, 2), row + offset(up, 2), piece));
    assert(3 < forward ==> table.holds(column + offset(across, 3), row + offset(up, 3), piece));
    assert(1 < backward ==> table.holds(column + offset(-across, 1), row + offset(-up, 1), piece));
    assert(2 < backward ==> table.holds(column + offset(-across, 2), row + offset(-up, 2), piece));
    assert(3 < backward ==> table.holds(column + offset(-across, 3), row + offset(-up, 3), piece));
    assert(forward == 1 || forward == 2 || forward == 3 || forward >= 4);
    assert(backward == 1 || backward == 2 || backward == 3 || backward >= 4);
}

/// The thread-local random number generator of the `rand` crate.
#[verifier::external_type_specification]
#[verifier::external_body]
pub struct ExThreadRng(ThreadRng);

/// `rand::Rng::gen_range` on the half-open range from zero to `bound`: the
/// crate samples a value that lies in the range, and panics where the range
/// is empty. Which value comes back is left open.
#[verifier::external_body]
fn random_below(rng: &mut ThreadRng, bound: usize) -> (pick: usize)
    requires
        bound > 0,
    ensures
        pick < bound,
{
    rng.gen_range(0..bound)
}

/// The game: the frame, the pieces in it and the turn.
#[derive(Debug)]
pub struct Game {
    board: [[Piece; 6]; 7],
    turn: Turn,
}

impl View for Game {
    type V = Table;

    closed spec fn view(&self) -> Table {
        table_of(self.board, self.turn)
    }
}

/// The frame that an array of columns stands for, with the turn beside it.
pub open spec fn table_of(board: [[Piece; 6]; 7], turn: Turn) -> Table {
    Table {
        cells: Seq::new(
            WIDTH as nat,
            |column: int| Seq::new(HEIGHT as nat, |row: int| board[column][row]),
        ),
        turn,
    }
}

impl Clone for Game {
    fn clone(&self) -> (copy: Self)
        ensures
            copy@ == self@,
    {
        proof {
            use_type_invariant(self);
        }
        Game { board: self.board, turn: self.turn }
    }
}

impl Default for Game {
    fn default() -> (game: Self)
        ensures
            game@ == Table::start(),
    {
        Self::new()
    }
}

impl Game {
    /// No piece hangs over an empty cell. This holds of every `Game`.
    #[verifier::type_invariant]
    pub closed spec fn well_formed(&self) -> bool {
        self@.valid()
    }

    /// Every game stands for a valid frame.
    pub proof fn lemma_view_valid(self)
        requires
            self.well_formed(),
        ensures
            self@.valid(),
    {
    }

    /// A new game: the frame is empty and Red moves first.
    pub fn new() -> (game: Self)
        ensures
            game@ == Table::start(),
    {
        let game = Game { board: [[Piece::Empty; 6]; 7], turn: Turn::Red };
        proof {
            assert(game@.cells =~~= Table::start().cells);
        }
        game
    }

    /// What the cell `(column, row)` holds.
    pub fn piece_at(&self, column: usize, row: usize) -> (piece: Piece)
        requires
            on_board(column as int, row as int),
        ensures
            piece == self@.cells[column as int][row as int],
    {
        self.board[column][row]
    }

    /// Whose move it is, or how the game has ended.
    pub fn turn(&self) -> (turn: Turn)
        ensures
            turn == self@.turn,
    {
        self.turn
    }

    /// The row in which a piece put into `column` comes to rest, if the
    /// column has room.
    pub fn find_space(&self, column: usize) -> (space: Option<usize>)
        requires
            column < WIDTH,
        ensures
            space == if self@.height(column as int) < HEIGHT {
                Some(self@.height(column as int) as usize)
            } else {
                None
            },
    {
        proof {
            use_type_invariant(self);
            self@.lemma_height(column as int, 0);
        }
        for row in 0..6usize
            invariant
                column < WIDTH,
                forall|below: int| 0 <= below < row ==> self@.cells[column as int][below] != Piece::Empty,
        {
            if self.board[column][row] == Piece::Empty {
                return Some(row);
            }
        }
        None
    }

    /// Whether it is the computer's move: the computer plays Yellow.
    pub fn is_computer_turn(&self) -> (computer: bool)
        ensures
            computer == (self@.turn == Turn::Yellow),
    {
        self.turn == Turn::Yellow
    }

    /// The position as two words: in the first a one for every piece of the
    /// player to move, in the second a one for every piece.
    pub fn get_bitboards(&self) -> (words: (u64, u64))
        ensures
            valid_bits(words.0, words.1),
            grid_of(words.0, words.1) == self@.grid(),
            forall|column: int, row: int|
                on_board(column, row) ==> (bit_set(words.1, #[trigger] cell_index(column, row))
                    <==> self@.cells[column][row] != Piece::Empty),
            forall|column: int, row: int|
                on_board(column, row) ==> (bit_set(words.0, #[trigger] cell_index(column, row))
                    <==> self@.cells[column][row] != Piece::Empty && self@.cells[column][row]
                    == self@.turn.piece()),
    {
        let mut position: u64 = 0;
        let mut mask: u64 = 0;
        let current_piece: Piece = self.turn.get_piece();
        proof {
            assert(within_board(0) && 0u64 & !0u64 == 0) by (bit_vector);
            assert forall|index: u64| index < 64 implies (0u64 >> index) & 1 != 1 by {
                assert((0u64 >> index) & 1 != 1) by (bit_vector);
            }
        }

        for column in 0..7usize
            invariant
                current_piece == self@.turn.piece(),
                within_board(mask),
                position & !mask == 0,
                forall|c: int, r: int|
                    on_board(c, r) ==> (bit_set(mask, #[trigger] cell_index(c, r)) <==> c < column
                        && self@.cells[c][r] != Piece::Empty),
                forall|c: int, r: int|
                    on_board(c, r) ==> (bit_set(position, #[trigger] cell_index(c, r)) <==> c
                        < column && self@.cells[c][r] != Piece::Empty && self@.cells[c][r]
                        == current_piece),
        {
            for row in 0..6usize
                invariant
                    column < 7,
                    current_piece == self@.turn.piece(),
                    within_board(mask),
                    position & !mask == 0,
                    forall|c: int, r: int|
                        on_board(c, r) ==> (bit_set(mask, #[trigger] cell_index(c, r)) <==> (c
                            < column || (c == column && r < row)) && self@.cells[c][r]
                            != Piece::Empty),
                    forall|c: int, r: int|
                        on_board(c, r) ==> (bit_set(position, #[trigger] cell_index(c, r)) <==> (c
                            < column || (c == column && r < row)) && self@.cells[c][r]
                            != Piece::Empty && self@.cells[c][r] == current_piece),
            {
                let ghost index: u64 = cell_index(column as int, row as int) as u64;
                let ghost old_mask: u64 = mask;
                let ghost old_position: u64 = position;
                if self.board[column][row] != Piece::Empty {
                    mask |= Self::position_mask(column as u8, row as u8);
                    if self.board[column][row] == current_piece {
                        position |= Self::position_mask(column as u8, row as u8);
                    }
                }
                proof {
                    lemma_set_cell(old_mask, old_position, column as u64, row as u64, index, 0);
                    assert forall|c: int, r: int| on_board(c, r) implies (bit_set(
                        mask,
                        #[trigger] cell_index(c, r),
                    ) <==> (c < column || (c == column && r < row + 1)) && self@.cells[c][r]
                        != Piece::Empty) by {
                        lemma_set_cell(
                            old_mask,
                            old_position,
                            column as u64,
                            row as u64,
                            index,
                            cell_index(c, r) as u64,
                        );
                    }
                    assert forall|c: int, r: int| on_board(c, r) implies (bit_set(
                        position,
                        #[trigger] cell_index(c, r),
                    ) <==> (c < column || (c == column && r < row + 1)) && self@.cells[c][r]
                        != Piece::Empty && self@.cells[c][r] == current_piece) by {
                        lemma_set_cell(
                            old_position,
                            old_position,
                            column as u64,
                            row as u64,
                            index,
                            cell_index(c, r) as u64,
                        );
                    }
                }
            }
        }
        proof {
            use_type_invariant(self);
            assert forall|c: int, r: int|
                on_board(c, r) && on_board(c, r + 1) && bit_set(
                    mask,
                    #[trigger] cell_index(c, r + 1),
                ) implies bit_set(mask, cell_index(c, r)) by {
                assert(self@.cells[c][r + 1] != Piece::Empty);
            }
            lemma_settled_mask(mask);
            let table = self@;
            assert forall|c: int| 0 <= c < WIDTH implies #[trigger] grid_of(position, mask).columns[c]
                == table.grid().columns[c] by {
                lemma_cell(position, mask, c, 0);
                lemma_cell(position, mask, c, 1);
                lemma_cell(position, mask, c, 2);
                lemma_cell(position, mask, c, 3);
                lemma_cell(position, mask, c, 4);
                lemma_cell(position, mask, c, 5);
                table.lemma_height(c, 0);
                table.lemma_height(c, 1);
                table.lemma_height(c, 2);
                table.lemma_height(c, 3);
                table.lemma_height(c, 4);
                table.lemma_height(c, 5);
                assert(grid_of(position, mask).columns[c] =~= table.grid().columns[c]);
            }
            assert(grid_of(position, mask).columns =~= table.grid().columns);
        }
        (position, mask)
    }

    /// Puts the piece of the player to move into `column`, if the column has
    /// room, and settles what follows from it.
    pub fn make_move(&mut self, column: usize)
        requires
            column < WIDTH,
        ensures
            final(self)@ == old(self)@.after_move(column as int),
    {
        let row: Option<usize> = self.find_space(column);
        if let Some(row) = row {
            proof {
                use_type_invariant(&*self);
                self@.lemma_height(column as int, row as int);
                if row > 0 {
                    self@.lemma_height(column as int, row - 1);
                }
                if row < 5 {
                    self@.lemma_height(column as int, row + 1);
                }
            }
            let piece: Piece = self.turn.get_piece();
            let mut board: [[Piece; 6]; 7] = self.board;
            let mut stack: [Piece; 6] = board[column];
            stack[row] = piece;
            board[column] = stack;
            let ghost placed: Table = old(self)@.placed(column as int);
            proof {
                assert(table_of(board, self.turn).cells =~~= placed.cells);
                assert(placed.settled()) by {
                    assert forall|c: int, r: int|
                        on_board(c, r) && on_board(c, r + 1) && (#[trigger] placed.cells[c][r + 1])
                            != Piece::Empty implies placed.cells[c][r] != Piece::Empty by {
                        assert(old(self)@.cells[c][r + 1] != Piece::Empty ==> old(self)@.cells[c][r]
                            != Piece::Empty);
                    }
                }
            }
            *self = Game { board, turn: self.turn };
            self.check_game_over(column, row);
            self.turn = self.turn.change();
        }
    }

    /// Moves into a column that `rng` picks; a pick that falls on a full
    /// column leaves the game as it is.
    pub fn make_random_move(&mut self, rng: &mut ThreadRng)
        ensures
            exists|column: int|
                0 <= column < WIDTH && final(self)@ == #[trigger] old(self)@.after_move(column),
    {
        let column: usize = random_below(rng, 7);
        self.make_move(column);
    }

    /// Looks at the piece in `(column, row)` and ends the game if it connects
    /// four or if the frame is full; says whether the game is over.
    fn check_game_over(&mut self, column: usize, row: usize) -> (over: bool)
        requires
            on_board(column as int, row as int),
        ensures
            final(self)@.cells == old(self)@.cells,
            final(self)@.turn == old(self)@.outcome(column as int, row as int),
            over == (old(self)@.cells[column as int][row as int] != Piece::Empty && (old(
                self,
            )@.connects(column as int, row as int) || old(self)@.is_full())),
    {
        proof {
            use_type_invariant(&*self);
        }
        if self.board[column][row] == Piece::Empty {
            return false;
        }
        for i in 0..4usize
            invariant
                on_board(column as int, row as int),
                *self == *old(self),
                self.well_formed(),
                self@.cells[column as int][row as int] != Piece::Empty,
                forall|direction: int|
                    0 <= direction < i ==> !#[trigger] self@.run_through(
                        column as int,
                        row as int,
                        axis_across(direction),
                        axis_up(direction),
                    ),
        {
            if self.check_both_directions(column, row, i) {
                assert(self@.connects(column as int, row as int));
                self.turn = self.turn.win();
                return true;
            }
        }
        assert(!self@.connects(column as int, row as int));

        for filled in 0..7usize
            invariant
                *self == *old(self),
                self.well_formed(),
                on_board(column as int, row as int),
                self@.cells[column as int][row as int] != Piece::Empty,
                !self@.connects(column as int, row as int),
                forall|c: int, r: int|
                    0 <= c < filled && 0 <= r < HEIGHT ==> (#[trigger] self@.cells[c][r])
                        != Piece::Empty,
        {
            for above in 0..6usize
                invariant
                    filled < 7,
                    *self == *old(self),
                    self.well_formed(),
                    on_board(column as int, row as int),
                    self@.cells[column as int][row as int] != Piece::Empty,
                    !self@.connects(column as int, row as int),
                    forall|c: int, r: int|
                        0 <= c < filled && 0 <= r < HEIGHT ==> (#[trigger] self@.cells[c][r])
                            != Piece::Empty,
                    forall|r: int|
                        0 <= r < above ==> (#[trigger] self@.cells[filled as int][r]) != Piece::Empty,
            {
                if self.board[filled][above] == Piece::Empty {
                    assert(on_board(filled as int, above as int) && self@.cells[filled as int][above as int]
                        == Piece::Empty);
                    return false;
                }
            }
        }

        assert(self@.is_full());
        self.turn = Turn::Tie;
        true
    }

    /// Whether the piece in `(column, row)` is one of four of its colour in
    /// a row along the axis `direction`: 0 for the row, 1 and 3 for the two
    /// diagonals, 2 for the column.
    fn check_both_directions(&self, column: usize, row: usize, direction: usize) -> (connected:
        bool)
        requires
            on_board(column as int, row as int),
        ensures
            connected == self@.run_through(
                column as int,
                row as int,
                axis_across(direction as int),
                axis_up(direction as int),
            ),
    {
        let forward: (i32, i32) = match direction {
            0 => (1, 0),
            1 => (1, 1),
            2 => (0, 1),
            _ => (-1, 1),
        };
        let ahead: usize = self.count_direction(
            column as i32,
            row as i32,
            forward.0,
            forward.1,
            self.board[column][row],
        );
        let behind: usize = self.count_direction(
            column as i32,
            row as i32,
            -forward.0,
            -forward.1,
            self.board[column][row],
        );
        proof {
            lemma_run_length(
                self@,
                column as int,
                row as int,
                forward.0 as int,
                forward.1 as int,
                ahead as int,
                behind as int,
            );
        }
        ahead + behind >= 5
    }

    /// The number of steps from `(column, row)` along `(delta_column,
    /// delta_row)` to the first cell that lies outside the frame or does not
    /// hold `color`.
    fn count_direction(
        &self,
        column: i32,
        row: i32,
        delta_column: i32,
        delta_row: i32,
        color: Piece,
    ) -> (steps: usize)
        requires
            on_board(column as int, row as int),
            -1 <= delta_column <= 1,
            -1 <= delta_row <= 1,
            delta_column != 0 || delta_row != 0,
        ensures
            1 <= steps <= 7,
            forall|before: int|
                1 <= before < steps ==> self@.holds(
                    column + #[trigger] offset(delta_column as int, before),
                    row + offset(delta_row as int, before),
                    color,
                ),
            !self@.holds(
                column + offset(delta_column as int, steps as int),
                row + offset(delta_row as int, steps as int),
                color,
            ),
    {
        let mut i: i32 = 1;
        loop
            invariant
                on_board(column as int, row as int),
                -1 <= delta_column <= 1,
                -1 <= delta_row <= 1,
                delta_column != 0 || delta_row != 0,
                1 <= i <= 7,
                forall|before: int|
                    1 <= before < i ==> self@.holds(
                        column + #[trigger] offset(delta_column as int, before),
                        row + offset(delta_row as int, before),
                        color,
                    ),
            decreases 8 - i,
        {
            assert(delta_column * i == offset(delta_column as int, i as int) && delta_row * i
                == offset(delta_row as int, i as int)) by (nonlinear_arith)
                requires
                    -1 <= delta_column <= 1,
                    -1 <= delta_row <= 1,
                    1 <= i <= 7,
            ;
            let c: i32 = column + delta_column * i;
            let r: i32 = row + delta_row * i;
            if c < 0 || c > 6 || r < 0 || r > 5 || self.board[c as usize][r as usize] != color {
                return i as usize;
            }
            i += 1;
        }
    }

    /// The word whose only one is the cell `(column, row)`.
    fn position_mask(column: u8, row: u8) -> (bit: u64)
        requires
            on_board(column as int, row as int),
        ensures
            bit == cell_bit(column as int, row as int),
    {
        proof {
            lemma_cell_bit(
                0,
                row as u64,
                (column * 7) as u64,
                cell_index(column as int, row as int) as u64,
            );
        }
        1u64 << row << (column * 7)
    }
}

/// The game at the table together with what is needed to drive it: whether
/// the pointer's button was down when it was last looked at, and the source
/// of the computer's moves.
pub struct Model {
    pub game: Game,
    pub mouse_clicked: bool,
    pub rng: ThreadRng,
}

impl Model {
    /// Lets the computer move if it is its turn, and says whether it was.
    /// The computer moves into a column picked at random.
    pub fn computer_turn(&mut self) -> (moved: bool)
        ensures
            moved == (old(self).game@.turn == Turn::Yellow),
            !moved ==> final(self).game@ == old(self).game@,
            moved ==> exists|column: int|
                0 <= column < WIDTH && final(self).game@ == #[trigger] old(self).game@.after_move(
                    column,
                ),
            final(self).mouse_clicked == old(self).mouse_clicked,
    {
        if self.game.is_computer_turn() {
            self.game.make_random_move(&mut self.rng);
            true
        } else {
            false
        }
    }

    /// Takes note of the pointer: a button that is down and was not down
    /// before is a click, and a click is a move into the column under the
    /// pointer.
    pub fn pointer(&mut self, mouse_click: bool, column: usize)
        requires
            column < WIDTH,
        ensures
            final(self).mouse_clicked == mouse_click,
            final(self).game@ == if !old(self).mouse_clicked && mouse_click {
                old(self).game@.after_move(column as int)
            } else {
                old(self).game@
            },
    {
        if !self.mouse_clicked && mouse_click {
            self.game.make_move(column);
        }
        self.mouse_clicked = mouse_click;
    }
}

} // verus!
