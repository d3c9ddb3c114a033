//! The position as two 64-bit words, and the moves on it.
use vstd::prelude::*;
use vstd::std_specs::convert::FromSpecImpl;
use vstd::string::StringExecFns;
use crate::alignment::{check_alignment, lemma_alignment_is_line};
use crate::bits::{
    bit_set, lemma_nonzero_has_bit, lemma_popcount_disjoint, lemma_popcount_run, popcount,
};
use crate::game::Game;
use crate::grid::Grid;
use crate::layout::{
    cell_bit, cell_index, column_height, lemma_bit_cell, lemma_cell_bit, lemma_difference,
    lemma_mask_is_stacks, lemma_move_bits, lemma_move_owner, lemma_occupied_below_height,
    lemma_stones_within, lemma_sum_injective, mask_after, on_board, stack_bits, top_free,
    valid_bits, BOARD_HEIGHT, BOTTOM, HEIGHT, TOTAL_SIZE, WIDTH,
};

verus! {

/// The stones of `column`, bottom first, that `position` and `mask` encode.
pub open spec fn stack_of(position: u64, mask: u64, column: int) -> Seq<bool> {
    Seq::new(
        column_height(mask, column as u64) as nat,
        |row: int| bit_set(position, cell_index(column, row)),
    )
}

/// The board that `position` and `mask` encode.
pub open spec fn grid_of(position: u64, mask: u64) -> Grid {
    Grid { columns: Seq::new(WIDTH as nat, |column: int| stack_of(position, mask, column)) }
}

/// What the two words say about one cell of a valid encoding.
pub proof fn lemma_cell(position: u64, mask: u64, column: int, row: int)
    requires
        valid_bits(position, mask),
        on_board(column, row),
    ensures
        bit_set(mask, cell_index(column, row)) <==> row < column_height(mask, column as u64),
        bit_set(position, cell_index(column, row)) ==> bit_set(mask, cell_index(column, row)),
        column_height(mask, column as u64) <= HEIGHT,
        top_free(mask, column as u64) <==> grid_of(position, mask).can_drop(column),
        grid_of(position, mask).height(column) == column_height(mask, column as u64),
        forall|mine: bool|
            grid_of(position, mask).stone(column, row, mine) <==> bit_set(
                mask,
                cell_index(column, row),
            ) && bit_set(position, cell_index(column, row)) == mine,
{
    lemma_occupied_below_height(
        position,
        mask,
        column as u64,
        row as u64,
        cell_index(column, row) as u64,
    );
}

/// What a valid encoding means cell by cell: every one of the mask stands
/// for a cell, so that the guard bits are free; a stone of the player to move
/// is a stone; and every stone above the bottom row rests on a stone.
pub proof fn lemma_valid_cells(position: u64, mask: u64)
    requires
        valid_bits(position, mask),
    ensures
        forall|index: int| #[trigger]
            bit_set(mask, index) ==> on_board(index / 7, index % 7) && cell_index(
                index / 7,
                index % 7,
            ) == index,
        forall|column: int, row: int|
            on_board(column, row) && bit_set(position, #[trigger] cell_index(column, row))
                ==> bit_set(mask, cell_index(column, row)),
        forall|column: int, row: int|
            on_board(column, row) && on_board(column, row + 1) && bit_set(
                mask,
                #[trigger] cell_index(column, row + 1),
            ) ==> bit_set(mask, cell_index(column, row)),
{
    assert forall|index: int| #[trigger] bit_set(mask, index) implies on_board(
        index / 7,
        index % 7,
    ) && cell_index(index / 7, index % 7) == index by {
        lemma_bit_cell(mask, index);
    }
    assert forall|column: int, row: int|
        on_board(column, row) && bit_set(position, #[trigger] cell_index(column, row)) implies bit_set(
        mask,
        cell_index(column, row),
    ) by {
        lemma_cell(position, mask, column, row);
    }
    assert forall|column: int, row: int|
        on_board(column, row) && on_board(column, row + 1) && bit_set(
            mask,
            #[trigger] cell_index(column, row + 1),
        ) implies bit_set(mask, cell_index(column, row)) by {
        lemma_cell(position, mask, column, row);
        lemma_cell(position, mask, column, row + 1);
    }
}

/// A valid encoding stands for a valid board with as many stones as the mask
/// has ones.
pub proof fn lemma_grid_of(position: u64, mask: u64)
    requires
        valid_bits(position, mask),
    ensures
        grid_of(position, mask).valid(),
        grid_of(position, mask).stones() == popcount(mask),
{
    let grid = grid_of(position, mask);
    assert forall|column: int| 0 <= column < WIDTH implies (#[trigger] grid.columns[column]).len()
        <= HEIGHT by {
        lemma_cell(position, mask, column, 0);
    }
    lemma_mask_is_stacks(mask);
    let s0 = stack_bits(mask, 0);
    let s1 = s0 | stack_bits(mask, 1);
    let s2 = s1 | stack_bits(mask, 2);
    let s3 = s2 | stack_bits(mask, 3);
    let s4 = s3 | stack_bits(mask, 4);
    let s5 = s4 | stack_bits(mask, 5);
    lemma_popcount_disjoint(s0, stack_bits(mask, 1));
    lemma_popcount_disjoint(s1, stack_bits(mask, 2));
    lemma_popcount_disjoint(s2, stack_bits(mask, 3));
    lemma_popcount_disjoint(s3, stack_bits(mask, 4));
    lemma_popcount_disjoint(s4, stack_bits(mask, 5));
    lemma_popcount_disjoint(s5, stack_bits(mask, 6));
    assert forall|column: u64| column < 7 implies popcount(#[trigger] stack_bits(mask, column))
        == grid.height(column as int) by {
        lemma_cell(position, mask, column as int, 0);
        lemma_popcount_run((7 * column) as u64, column_height(mask, column));
    }
    assert(popcount(stack_bits(mask, 0)) == grid.height(0));
    assert(popcount(stack_bits(mask, 1)) == grid.height(1));
    assert(popcount(stack_bits(mask, 2)) == grid.height(2));
    assert(popcount(stack_bits(mask, 3)) == grid.height(3));
    assert(popcount(stack_bits(mask, 4)) == grid.height(4));
    assert(popcount(stack_bits(mask, 5)) == grid.height(5));
    assert(popcount(stack_bits(mask, 6)) == grid.height(6));
}

/// A move on the words is a stone dropped on the board they encode.
pub proof fn lemma_move_grid(position: u64, mask: u64, column: int)
    requires
        valid_bits(position, mask),
        grid_of(position, mask).can_drop(column),
    ensures
        mask + cell_bit(column, 0) <= u64::MAX,
        valid_bits(position ^ mask, mask_after(mask, column as u64)),
        grid_of(position ^ mask, mask_after(mask, column as u64)) == grid_of(position, mask).drop(
            column,
        ),
{
    let before = grid_of(position, mask);
    let moved = mask_after(mask, column as u64);
    let after = grid_of(position ^ mask, moved);
    lemma_cell(position, mask, column, 0);
    lemma_move_bits(position, mask, column as u64, column as u64);
    assert(cell_bit(column, 0) == 1u64 << (7 * (column as u64)));
    assert forall|c: int| 0 <= c < WIDTH implies #[trigger] after.columns[c] == before.drop(
        column,
    ).columns[c] by {
        let old_stack = before.columns[c];
        let new_stack = after.columns[c];
        lemma_move_bits(position, mask, column as u64, c as u64);
        lemma_cell(position, mask, c, 0);
        assert forall|row: int| 0 <= row < new_stack.len() implies new_stack[row] == (row
            < old_stack.len() && !old_stack[row]) by {
            lemma_cell(position, mask, c, row);
            lemma_move_owner(position, mask, cell_index(c, row) as u64);
        }
        assert(new_stack =~= before.drop(column).columns[c]);
    }
    assert(after.columns =~= before.drop(column).columns);
}

/// A board has one valid encoding only.
pub proof fn lemma_same_grid(position: u64, mask: u64, other_position: u64, other_mask: u64)
    requires
        valid_bits(position, mask),
        valid_bits(other_position, other_mask),
        grid_of(position, mask) == grid_of(other_position, other_mask),
    ensures
        position == other_position,
        mask == other_mask,
{
    let grid = grid_of(position, mask);
    assert forall|column: u64| column < 7 implies #[trigger] stack_bits(mask, column)
        == stack_bits(other_mask, column) by {
        lemma_cell(position, mask, column as int, 0);
        lemma_cell(other_position, other_mask, column as int, 0);
    }
    lemma_mask_is_stacks(mask);
    lemma_mask_is_stacks(other_mask);
    assert(stack_bits(mask, 0) == stack_bits(other_mask, 0));
    assert(stack_bits(mask, 1) == stack_bits(other_mask, 1));
    assert(stack_bits(mask, 2) == stack_bits(other_mask, 2));
    assert(stack_bits(mask, 3) == stack_bits(other_mask, 3));
    assert(stack_bits(mask, 4) == stack_bits(other_mask, 4));
    assert(stack_bits(mask, 5) == stack_bits(other_mask, 5));
    assert(stack_bits(mask, 6) == stack_bits(other_mask, 6));
    assert(mask == other_mask);
    lemma_stones_within(position, mask);
    lemma_stones_within(other_position, other_mask);
    lemma_difference(position, other_position, 0);
    if position != other_position {
        let index = lemma_nonzero_has_bit(position ^ other_position);
        lemma_difference(position, other_position, index as u64);
        lemma_bit_cell(position ^ other_position, index);
        let column = index / 7;
        let row = index % 7;
        lemma_cell(position, mask, column, row);
        lemma_cell(other_position, other_mask, column, row);
        assert(grid.stone(column, row, true) == bit_set(position, index));
        assert(grid.stone(column, row, true) == bit_set(other_position, index));
    }
}

/// Why a move cannot be made.
#[derive(Clone, Copy, Debug, PartialEq, Eq, Structural)]
pub enum IllegalMove {
    /// The board has no column of that number.
    NoSuchColumn,
    /// The column holds as many stones as it can.
    ColumnFull,
}

/// A position: which cells hold a stone, and which of the stones belong to
/// the player about to move.
#[derive(Clone, Copy, Debug)]
pub struct Bitboard {
    position: u64,
    mask: u64,
}

impl View for Bitboard {
    type V = Grid;

    open spec fn view(&self) -> Grid {
        grid_of(self.position_bits(), self.mask_bits())
    }
}

impl Default for Bitboard {
    fn default() -> (board: Self)
        ensures
            board@ == Grid::empty(),
            board.position_bits() == 0,
            board.mask_bits() == 0,
    {
        Self::new()
    }
}

impl<'a> From<&'a str> for Bitboard {
    /// The position that a move list leads to from the empty board.
    fn from(value: &'a str) -> (board: Bitboard) {
        let board = Bitboard::from_moves(value);
        proof {
            use_type_invariant(&board);
            board.lemma_encoding();
        }
        board
    }
}

impl From<Game> for Bitboard {
    /// The position of a game, as the player to move sees it.
    fn from(value: Game) -> (board: Bitboard) {
        let (position, mask) = value.get_bitboards();
        let board = Bitboard { position, mask };
        proof {
            board.lemma_encoding();
        }
        board
    }
}

impl FromSpecImpl<Game> for Bitboard {
    open spec fn obeys_from_spec() -> bool {
        true
    }

    open spec fn from_spec(value: Game) -> Bitboard {
        Bitboard::encoding(value@.grid())
    }
}

impl<'a> FromSpecImpl<&'a str> for Bitboard {
    open spec fn obeys_from_spec() -> bool {
        true
    }

    open spec fn from_spec(value: &'a str) -> Bitboard {
        Bitboard::encoding(Grid::replay(value@))
    }
}

impl Bitboard {
    /// The word with a one for each stone of the player about to move.
    pub closed spec fn position_bits(&self) -> u64 {
        self.position
    }

    /// The word with a one for each stone on the board.
    pub closed spec fn mask_bits(&self) -> u64 {
        self.mask
    }

    /// The two words encode a board. This holds of every `Bitboard`.
    #[verifier::type_invariant]
    pub open spec fn well_formed(&self) -> bool {
        valid_bits(self.position_bits(), self.mask_bits())
    }

    /// A well-formed position stands for a valid board.
    pub proof fn lemma_view_valid(self)
        requires
            self.well_formed(),
        ensures
            self@.valid(),
    {
        lemma_grid_of(self.position, self.mask);
    }

    /// The position that stands for `grid`.
    pub closed spec fn encoding(grid: Grid) -> Bitboard {
        choose|board: Bitboard| board.well_formed() && board@ == grid
    }

    /// Two positions that stand for the same board are the same.
    pub proof fn lemma_view_injective(self, other: Bitboard)
        requires
            self.well_formed(),
            other.well_formed(),
            self@ == other@,
        ensures
            self == other,
    {
        lemma_same_grid(self.position, self.mask, other.position, other.mask);
    }

    /// A position is the encoding of the board it stands for.
    pub proof fn lemma_encoding(self)
        requires
            self.well_formed(),
        ensures
            Bitboard::encoding(self@) == self,
    {
        self.lemma_view_injective(Bitboard::encoding(self@));
    }

    /// The position that the move list `moves` leads to from the empty
    /// board. The characters `'1'` to `'7'` name the columns from left to
    /// right; a character that names no column, or a full one, is passed over.
    pub fn from_moves(moves: &str) -> (board: Bitboard)
        ensures
            board@ == Grid::replay(moves@),
    {
        let mut board: Bitboard = Bitboard::new();
        for digit in it: moves.chars()
            invariant
                it.seq() == moves@,
                board@ == Grid::replay(moves@.take(it.index())),
        {
            proof {
                assert(moves@.take(it.index() + 1).drop_last() =~= moves@.take(it.index()));
            }
            let code: u32 = digit as u32;
            if '1' as u32 <= code && code <= '7' as u32 {
                let column: u8 = (code - '1' as u32) as u8;
                if board.can_play(column) {
                    board.play(column);
                }
            }
        }
        proof {
            assert(moves@.take(moves@.len() as int) =~= moves@);
        }
        board
    }

    /// The empty board.
    pub fn new() -> (board: Self)
        ensures
            board@ == Grid::empty(),
            board.position_bits() == 0,
            board.mask_bits() == 0,
    {
        proof {
            assert(valid_bits(0, 0)) by (bit_vector);
            assert forall|column: u64| column < 7 implies #[trigger] column_height(0, column)
                == 0 by {
                assert(column_height(0, column) == 0) by (bit_vector);
            }
            assert(grid_of(0, 0).columns =~~= Grid::empty().columns);
        }
        Bitboard { position: 0, mask: 0 }
    }

    /// Whether `column` has room for another stone.
    pub fn can_play(&self, column: u8) -> (playable: bool)
        requires
            column < WIDTH,
        ensures
            playable == self@.can_drop(column as int),
            playable == (self.mask_bits() & cell_bit(column as int, HEIGHT - 1) == 0),
    {
        proof {
            use_type_invariant(self);
            lemma_cell(self.position, self.mask, column as int, 0);
            let shift: u64 = (7 * column) as u64;
            assert(1u64 << ((shift + 5) as u64) == 32u64 << shift) by (bit_vector)
                requires
                    shift < 50,
            ;
        }
        self.mask & Self::top_mask(column) == 0
    }

    /// The word whose only one is the top cell of `column`.
    pub fn top_mask(column: u8) -> (bit: u64)
        requires
            column < WIDTH,
        ensures
            bit == cell_bit(column as int, HEIGHT - 1),
    {
        let shift: u8 = column * BOARD_HEIGHT;
        proof {
            let wide: u64 = shift as u64;
            assert(1u64 << ((wide + 5) as u64) == 0b100000u64 << wide) by (bit_vector)
                requires
                    wide < 50,
            ;
        }
        0b100000u64 << shift
    }

    /// The word whose only one is the bottom cell of `column`.
    pub fn bottom_mask(column: u8) -> (bit: u64)
        requires
            column < WIDTH,
        ensures
            bit == cell_bit(column as int, 0),
    {
        1u64 << (column * BOARD_HEIGHT)
    }

    /// Puts a stone of the player about to move into `column`; the other
    /// player moves next.
    pub fn play(&mut self, column: u8)
        requires
            column < WIDTH,
            old(self)@.can_drop(column as int),
        ensures
            final(self)@ == old(self)@.drop(column as int),
            final(self).position_bits() == old(self).position_bits() ^ old(self).mask_bits(),
            final(self).mask_bits() == old(self).mask_bits() | (old(self).mask_bits() + cell_bit(
                column as int,
                0,
            )) as u64,
    {
        proof {
            use_type_invariant(&*self);
            lemma_move_grid(self.position, self.mask, column as int);
        }
        let bottom: u64 = Self::bottom_mask(column);
        let position: u64 = self.position ^ self.mask;
        let mask: u64 = self.mask | (self.mask + bottom);
        *self = Bitboard { position, mask };
    }

    /// Puts a stone of the player about to move into `column` if that is a
    /// legal move, and says why not if it is none.
    pub fn try_play(&mut self, column: u8) -> (played: Result<(), IllegalMove>)
        ensures
            played is Ok <==> old(self)@.can_drop(column as int),
            played is Ok ==> final(self)@ == old(self)@.drop(column as int),
            played is Err ==> *final(self) == *old(self),
            played == Err::<(), IllegalMove>(IllegalMove::NoSuchColumn) <==> column >= WIDTH,
            played == Err::<(), IllegalMove>(IllegalMove::ColumnFull) <==> column < WIDTH && !old(
                self,
            )@.can_drop(column as int),
    {
        if column >= WIDTH {
            Err(IllegalMove::NoSuchColumn)
        } else if !self.can_play(column) {
            Err(IllegalMove::ColumnFull)
        } else {
            self.play(column);
            Ok(())
        }
    }

    /// The number of stones on the board.
    pub fn move_count(&self) -> (count: u8)
        ensures
            count == self@.stones(),
            count == popcount(self.mask_bits()),
            count <= TOTAL_SIZE,
    {
        proof {
            use_type_invariant(self);
            lemma_grid_of(self.position, self.mask);
            self@.lemma_full();
        }
        self.mask.count_ones() as u8
    }

    /// The sum of the two words and of `BOTTOM`, which tells this position
    /// from every other.
    pub open spec fn fingerprint(&self) -> int {
        self.position_bits() + self.mask_bits() + BOTTOM
    }

    /// A key that no two positions share.
    pub fn get_unique_repr(&self) -> (key: u64)
        ensures
            key == self.fingerprint(),
    {
        proof {
            use_type_invariant(self);
            lemma_stones_within(self.position, self.mask);
        }
        self.position + self.mask + BOTTOM
    }

    /// After any list of moves from the empty board the mask has as many
    /// ones as moves of the list were made.
    pub proof fn lemma_ones_count_moves(self, moves: Seq<char>)
        requires
            self.well_formed(),
            self@ == Grid::replay(moves),
        ensures
            popcount(self.mask_bits()) == Grid::applied(moves),
    {
        lemma_grid_of(self.position, self.mask);
        Grid::lemma_replay(moves);
    }

    /// Positions with the same fingerprint are the same position.
    pub proof fn lemma_fingerprint_injective(self, other: Bitboard)
        requires
            self.well_formed(),
            other.well_formed(),
            self.fingerprint() == other.fingerprint(),
        ensures
            self == other,
            self@ == other@,
    {
        lemma_sum_injective(self.position, self.mask, other.position, other.mask);
    }

    /// The word whose only one is the cell `(column, row)`.
    pub fn position_mask(column: u8, row: u8) -> (bit: u64)
        requires
            on_board(column as int, row as int),
        ensures
            bit == cell_bit(column as int, row as int),
    {
        proof {
            lemma_cell_bit(
                0,
                row as u64,
                (column * 7) as u64,
                cell_index(column as int, row as int) as u64,
            );
        }
        1u64 << row << (column * 7)
    }

    /// Whether the player about to move has four stones in a row.
    pub fn check_win(&self) -> (won: bool)
        ensures
            won == self@.has_line(true),
    {
        proof {
            use_type_invariant(self);
            lemma_grid_of(self.position, self.mask);
            lemma_stones_within(self.position, self.mask);
            assert forall|column: int, row: int| on_board(column, row) implies (bit_set(
                self.position,
                cell_index(column, row),
            ) <==> #[trigger] self@.stone(column, row, true)) by {
                lemma_cell(self.position, self.mask, column, row);
            }
            lemma_alignment_is_line(self.position, self@, true);
        }
        check_alignment(self.position)
    }

    /// Whether a stone put into `column` gives the player about to move four
    /// in a row.
    pub fn is_winning_move(&self, column: u8) -> (winning: bool)
        requires
            column < WIDTH,
            self@.can_drop(column as int),
        ensures
            winning == self@.wins_by(column as int),
    {
        let mut other: Bitboard = *self;
        other.play(column);
        let stones: u64 = other.position ^ other.mask;
        proof {
            use_type_invariant(&other);
            lemma_grid_of(other.position, other.mask);
            lemma_stones_within(other.position, other.mask);
            assert forall|column: int, row: int| on_board(column, row) implies (bit_set(
                stones,
                cell_index(column, row),
            ) <==> #[trigger] other@.stone(column, row, false)) by {
                lemma_cell(other.position, other.mask, column, row);
                lemma_move_owner(other.position, other.mask, cell_index(column, row) as u64);
            }
            lemma_alignment_is_line(stones, other@, false);
        }
        check_alignment(stones)
    }

    /// The mark of the cell `(column, row)`: a blank where it is free, `x`
    /// for a stone of the player who moved first and `o` for one of the other.
    pub open spec fn tile(grid: Grid, column: int, row: int) -> char {
        if row >= grid.height(column) {
            ' '
        } else if grid.columns[column][row] == (grid.stones() % 2 == 0) {
            'x'
        } else {
            'o'
        }
    }

    /// The mark of the cell `(column, row)`.
    pub fn get_tile(&self, column: u8, row: u8) -> (mark: char)
        requires
            on_board(column as int, row as int),
        ensures
            mark == Self::tile(self@, column as int, row as int),
    {
        proof {
            use_type_invariant(self);
            lemma_cell(self.position, self.mask, column as int, row as int);
            let index: u64 = cell_index(column as int, row as int) as u64;
            lemma_cell_bit(self.mask, row as u64, (column * 7) as u64, index);
            lemma_cell_bit(self.position, row as u64, (column * 7) as u64, index);
        }
        if self.mask & Self::position_mask(column, row) == 0 {
            return ' ';
        }
        let is_current_piece: bool = self.position & Self::position_mask(column, row) != 0;
        let is_first_player_turn: bool = self.move_count() % 2 == 0;
        if is_current_piece == is_first_player_turn {
            'x'
        } else {
            'o'
        }
    }

    /// The marks of one row between bars.
    pub open spec fn row_text(grid: Grid, row: int) -> Seq<char> {
        Seq::new(
            15,
            |place: int|
                if place % 2 == 0 {
                    '|'
                } else {
                    Self::tile(grid, place / 2, row)
                },
        )
    }

    /// The rows from the top down to `row`, each under a rule.
    pub open spec fn rows_from_top(grid: Grid, row: int) -> Seq<char>
        decreases HEIGHT - row,
    {
        if row >= HEIGHT {
            Seq::empty()
        } else {
            Self::rows_from_top(grid, row + 1) + "\n---------------\n"@ + Self::row_text(grid, row)
        }
    }

    /// The picture of a board: its rows from the top down, with a rule above
    /// each and one below the last.
    pub open spec fn picture(grid: Grid) -> Seq<char> {
        Self::rows_from_top(grid, 0) + "\n---------------\n"@
    }

    /// The board as text, for a terminal.
    pub fn render(&self) -> (text: String)
        ensures
            text@ == Self::picture(self@),
    {
        let mut text: String = String::new();
        let mut row: u8 = HEIGHT;
        assert(text@ =~= Self::rows_from_top(self@, HEIGHT as int));
        while row > 0
            invariant
                row <= HEIGHT,
                text@ == Self::rows_from_top(self@, row as int),
            decreases row,
        {
            row -= 1;
            text.append("\n---------------\n");
            let ghost above: Seq<char> = text@;
            text.push('|');
            for column in 0..WIDTH
                invariant
                    row < HEIGHT,
                    text@.len() == above.len() + 1 + 2 * column,
                    text@.subrange(0, above.len() as int) == above,
                    forall|place: int|
                        0 <= place < 1 + 2 * column ==> text@[above.len() + place] == Self::row_text(
                            self@,
                            row as int,
                        )[place],
            {
                let ghost before: Seq<char> = text@;
                text.push(self.get_tile(column, row));
                text.push('|');
                assert(text@.subrange(0, above.len() as int) =~= before.subrange(
                    0,
                    above.len() as int,
                ));
            }
            assert(text@ =~= above + Self::row_text(self@, row as int));
        }
        text.append("\n---------------\n");
        text
    }
}

/// `String::push` is documented to append the given character to the end of
/// the string.
pub assume_specification[ String::push ](text: &mut String, mark: char)
    ensures
        final(text)@ == old(text)@.push(mark),
;

} // verus!
