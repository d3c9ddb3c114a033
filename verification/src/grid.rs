//! The board as the players see it: seven stacks of stones.
use vstd::prelude::*;
use crate::layout::{HEIGHT, TOTAL_SIZE, WIDTH};

verus! {

/// A position from the point of view of the player about to move.
///
/// `columns[c]` lists the stones of column `c` from the bottom up; an entry is
/// `true` for a stone of the player about to move and `false` for a stone of
/// the player who has just moved.
pub struct Grid {
    pub columns: Seq<Seq<bool>>,
}

/// The stones of one column after the players have changed roles.
pub open spec fn turned(stack: Seq<bool>) -> Seq<bool> {
    Seq::new(stack.len(), |row: int| !stack[row])
}

/// The column that a character of a move list names: `'1'` to `'7'` name
/// the columns from left to right, and no other character names one.
pub open spec fn move_column(digit: char) -> Option<int> {
    if '1' as u32 <= digit as u32 <= '7' as u32 {
        Some(digit as u32 - '1' as u32)
    } else {
        None
    }
}

impl Grid {
    /// The board before the first move.
    pub open spec fn empty() -> Grid {
        Grid { columns: Seq::new(WIDTH as nat, |column: int| Seq::<bool>::empty()) }
    }

    /// There are `WIDTH` columns and none is higher than `HEIGHT`.
    pub open spec fn valid(self) -> bool {
        &&& self.columns.len() == WIDTH
        &&& forall|column: int|
            0 <= column < WIDTH ==> (#[trigger] self.columns[column]).len() <= HEIGHT
    }

    /// Number of stones in `column`.
    pub open spec fn height(self, column: int) -> nat {
        if 0 <= column < self.columns.len() {
            self.columns[column].len()
        } else {
            0
        }
    }

    /// Number of stones on the board, which is the number of moves made.
    pub open spec fn stones(self) -> nat {
        self.height(0) + self.height(1) + self.height(2) + self.height(3) + self.height(4)
            + self.height(5) + self.height(6)
    }

    /// Number of cells that are still free.
    pub open spec fn empties(self) -> nat {
        if self.stones() <= TOTAL_SIZE {
            (TOTAL_SIZE - self.stones()) as nat
        } else {
            0
        }
    }

    /// Every cell holds a stone.
    pub open spec fn is_full(self) -> bool {
        self.stones() >= TOTAL_SIZE
    }

    /// `column` exists and has room for one more stone.
    pub open spec fn can_drop(self, column: int) -> bool {
        0 <= column < WIDTH && self.height(column) < HEIGHT
    }

    /// The position after the player to move has put a stone into `column`,
    /// seen by the other player, who moves next.
    pub open spec fn drop(self, column: int) -> Grid {
        Grid {
            columns: Seq::new(
                self.columns.len(),
                |c: int|
                    if c == column {
                        turned(self.columns[c]).push(false)
                    } else {
                        turned(self.columns[c])
                    },
            ),
        }
    }

    /// The cell `(column, row)` holds a stone, and it belongs to the player to
    /// move exactly if `mine` says so.
    pub open spec fn stone(self, column: int, row: int, mine: bool) -> bool {
        &&& 0 <= column < WIDTH
        &&& 0 <= row < self.height(column)
        &&& self.columns[column][row] == mine
    }

    /// Four stones of one player in a row, starting at `(column, row)` and
    /// stepping by `(across, up)`.
    pub open spec fn line_from(self, column: int, row: int, across: int, up: int, mine: bool) -> bool {
        &&& self.stone(column, row, mine)
        &&& self.stone(column + across, row + up, mine)
        &&& self.stone(column + 2 * across, row + 2 * up, mine)
        &&& self.stone(column + 3 * across, row + 3 * up, mine)
    }

    /// Four stones of one player in a row start at `(column, row)`: upwards,
    /// to the right, or along one of the two diagonals to the right.
    pub open spec fn line_at(self, column: int, row: int, mine: bool) -> bool {
        ||| self.line_from(column, row, 0, 1, mine)
        ||| self.line_from(column, row, 1, 0, mine)
        ||| self.line_from(column, row, 1, 1, mine)
        ||| self.line_from(column, row, 1, -1, mine)
    }

    /// One of the players has four stones in a row somewhere.
    pub open spec fn has_line(self, mine: bool) -> bool {
        exists|column: int, row: int| #[trigger] self.line_at(column, row, mine)
    }

    /// A stone dropped into `column` gives the player to move four in a row.
    pub open spec fn wins_by(self, column: int) -> bool {
        self.can_drop(column) && self.drop(column).has_line(false)
    }

    /// The player to move can win at once.
    pub open spec fn can_win(self) -> bool {
        exists|column: int| #[trigger] self.wins_by(column)
    }

    /// The empty board is valid and holds no stone.
    pub proof fn lemma_empty()
        ensures
            Grid::empty().valid(),
            Grid::empty().stones() == 0,
            forall|column: int| Grid::empty().height(column) == 0,
    {
    }

    /// A move adds one stone to its column and leaves the other columns'
    /// heights alone.
    pub proof fn lemma_drop(self, column: int)
        requires
            self.valid(),
            self.can_drop(column),
        ensures
            self.drop(column).valid(),
            self.drop(column).height(column) == self.height(column) + 1,
            forall|other: int| other != column ==> self.drop(column).height(other) == self.height(other),
            self.drop(column).stones() == self.stones() + 1,
            self.drop(column).empties() + 1 == self.empties(),
            self.stones() < TOTAL_SIZE,
    {
        let after = self.drop(column);
        assert forall|other: int| 0 <= other < WIDTH implies (#[trigger] after.columns[other]).len()
            == self.columns[other].len() + (if other == column { 1int } else { 0int }) by {}
        assert(self.columns[0].len() <= HEIGHT);
        assert(self.columns[1].len() <= HEIGHT);
        assert(self.columns[2].len() <= HEIGHT);
        assert(self.columns[3].len() <= HEIGHT);
        assert(self.columns[4].len() <= HEIGHT);
        assert(self.columns[5].len() <= HEIGHT);
        assert(self.columns[6].len() <= HEIGHT);
    }

    /// A valid board holds at most `TOTAL_SIZE` stones, and it is full exactly
    /// if no column has room.
    pub proof fn lemma_full(self)
        requires
            self.valid(),
        ensures
            self.stones() <= TOTAL_SIZE,
            self.is_full() <==> forall|column: int| !self.can_drop(column),
    {
        assert(self.columns[0].len() <= HEIGHT);
        assert(self.columns[1].len() <= HEIGHT);
        assert(self.columns[2].len() <= HEIGHT);
        assert(self.columns[3].len() <= HEIGHT);
        assert(self.columns[4].len() <= HEIGHT);
        assert(self.columns[5].len() <= HEIGHT);
        assert(self.columns[6].len() <= HEIGHT);
        if !self.is_full() {
            assert(self.can_drop(0) || self.can_drop(1) || self.can_drop(2) || self.can_drop(3)
                || self.can_drop(4) || self.can_drop(5) || self.can_drop(6));
        }
    }

    /// `digit` names a column that has room.
    pub open spec fn accepts(self, digit: char) -> bool {
        move_column(digit) matches Some(column) && self.can_drop(column)
    }

    /// The position after the move that `digit` names, and the position
    /// itself where `digit` names no column or a full one.
    pub open spec fn try_drop(self, digit: char) -> Grid {
        if self.accepts(digit) {
            self.drop(move_column(digit)->0)
        } else {
            self
        }
    }

    /// The position that a move list leads to from the empty board; what
    /// names no move that can be made is passed over.
    pub open spec fn replay(moves: Seq<char>) -> Grid
        decreases moves.len(),
    {
        if moves.len() == 0 {
            Grid::empty()
        } else {
            Grid::replay(moves.drop_last()).try_drop(moves.last())
        }
    }

    /// How many characters of a move list are moves that are made.
    pub open spec fn applied(moves: Seq<char>) -> nat
        decreases moves.len(),
    {
        if moves.len() == 0 {
            0
        } else if Grid::replay(moves.drop_last()).accepts(moves.last()) {
            Grid::applied(moves.drop_last()) + 1
        } else {
            Grid::applied(moves.drop_last())
        }
    }

    /// How many characters of a move list are moves into `column` that are
    /// made.
    pub open spec fn applied_into(moves: Seq<char>, column: int) -> nat
        decreases moves.len(),
    {
        if moves.len() == 0 {
            0
        } else if Grid::replay(moves.drop_last()).accepts(moves.last()) && move_column(
            moves.last(),
        ) == Some(column) {
            Grid::applied_into(moves.drop_last(), column) + 1
        } else {
            Grid::applied_into(moves.drop_last(), column)
        }
    }

    /// After any move list the board is valid, it holds as many stones as
    /// moves were made, and each column as many as were made into it.
    pub proof fn lemma_replay(moves: Seq<char>)
        ensures
            Grid::replay(moves).valid(),
            Grid::replay(moves).stones() == Grid::applied(moves),
            forall|column: int|
                0 <= column < WIDTH ==> #[trigger] Grid::replay(moves).height(column)
                    == Grid::applied_into(moves, column),
        decreases moves.len(),
    {
        if moves.len() == 0 {
            Grid::lemma_empty();
        } else {
            let before = Grid::replay(moves.drop_last());
            Grid::lemma_replay(moves.drop_last());
            if before.accepts(moves.last()) {
                before.lemma_drop(move_column(moves.last())->0);
            }
        }
    }

    /// A column takes stones until `HEIGHT` moves have been made into it.
    pub proof fn lemma_room_until_height(moves: Seq<char>, column: int)
        requires
            0 <= column < WIDTH,
        ensures
            Grid::replay(moves).can_drop(column) <==> Grid::applied_into(moves, column) < HEIGHT,
            Grid::applied_into(moves, column) <= HEIGHT,
    {
        Grid::lemma_replay(moves);
        assert(Grid::replay(moves).columns[column].len() <= HEIGHT);
    }

    /// A column that is full stays full, whatever is played afterwards.
    pub proof fn lemma_full_column_stays_full(moves: Seq<char>, more: Seq<char>, column: int)
        requires
            0 <= column < WIDTH,
            !Grid::replay(moves).can_drop(column),
        ensures
            !Grid::replay(moves + more).can_drop(column),
        decreases more.len(),
    {
        if more.len() == 0 {
            assert(moves + more =~= moves);
        } else {
            let all = moves + more;
            assert(all.drop_last() =~= moves + more.drop_last());
            Grid::lemma_full_column_stays_full(moves, more.drop_last(), column);
            let before = Grid::replay(all.drop_last());
            Grid::lemma_replay(all.drop_last());
            if before.accepts(all.last()) {
                before.lemma_drop(move_column(all.last())->0);
            }
        }
    }
}

} // verus!
