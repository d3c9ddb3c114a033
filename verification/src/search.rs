//! The value of a position under best play, found by trying every line of
//! play to the end.
use vstd::prelude::*;
use crate::bitboard::Bitboard;
use crate::grid::Grid;
use crate::layout::{TOTAL_SIZE, WIDTH};

verus! {

/// What a win is worth to the player who completes it on this board: the
/// fewer stones it takes, the more.
pub open spec fn win_score(grid: Grid) -> int {
    (TOTAL_SIZE + 1 - grid.stones()) / 2
}

/// The value of `grid` for the player about to move, when both play their
/// best: positive if that player wins, negative if the other does, zero for a
/// draw.
///
/// A full board is a draw. A player who can complete four in a row does so
/// and scores [`win_score`]. Otherwise the value is that of the best reply.
pub open spec fn value(grid: Grid) -> int
    decreases grid.empties(), WIDTH + 1,
    when grid.valid()
    via value_decreases
{
    if grid.is_full() {
        0
    } else if grid.can_win() {
        win_score(grid)
    } else {
        best_reply(grid, WIDTH as int)
    }
}

/// The best that the player about to move can get with a move into one of
/// the first `columns` columns: the largest negated value of the positions
/// those moves lead to, and `-TOTAL_SIZE` if none of them has room.
pub open spec fn best_reply(grid: Grid, columns: int) -> int
    decreases grid.empties(), columns,
    when grid.valid()
    via best_reply_decreases
{
    if columns <= 0 {
        -(TOTAL_SIZE as int)
    } else {
        let rest = best_reply(grid, columns - 1);
        if grid.can_drop(columns - 1) && -value(grid.drop(columns - 1)) > rest {
            -value(grid.drop(columns - 1))
        } else {
            rest
        }
    }
}

#[via_fn]
proof fn value_decreases(grid: Grid) {
}

#[via_fn]
proof fn best_reply_decreases(grid: Grid, columns: int) {
    if columns > 0 && grid.can_drop(columns - 1) {
        grid.lemma_drop(columns - 1);
    }
}

/// The number of positions that the search looks at from `grid`: the
/// position itself and, unless the game ends there or with the next stone,
/// those of every move in turn.
pub open spec fn node_count(grid: Grid) -> nat
    decreases grid.empties(), WIDTH + 1,
    when grid.valid()
    via node_count_decreases
{
    if grid.is_full() || grid.can_win() {
        1
    } else {
        1 + reply_nodes(grid, WIDTH as int)
    }
}

/// The number of positions that the search looks at below the moves into
/// the first `columns` columns.
pub open spec fn reply_nodes(grid: Grid, columns: int) -> nat
    decreases grid.empties(), columns,
    when grid.valid()
    via reply_nodes_decreases
{
    if columns <= 0 {
        0
    } else if grid.can_drop(columns - 1) {
        reply_nodes(grid, columns - 1) + node_count(grid.drop(columns - 1))
    } else {
        reply_nodes(grid, columns - 1)
    }
}

#[via_fn]
proof fn node_count_decreases(grid: Grid) {
}

#[via_fn]
proof fn reply_nodes_decreases(grid: Grid, columns: int) {
    if columns > 0 && grid.can_drop(columns - 1) {
        grid.lemma_drop(columns - 1);
    }
}

/// The size of a tree of the given depth in which every position has
/// `WIDTH` moves.
pub open spec fn tree_bound(depth: nat) -> nat
    decreases depth,
{
    if depth == 0 {
        1
    } else {
        1 + (WIDTH as nat) * tree_bound((depth - 1) as nat)
    }
}

/// The most free cells with which the number of positions is known to fit
/// the counter.
pub const MAX_COUNTED_DEPTH: u8 = 22;

/// What the best reply among the first `columns` columns is: at least as
/// good as each of them, and as good as one of them if any has room.
pub proof fn lemma_best_reply(grid: Grid, columns: int)
    requires
        grid.valid(),
        0 <= columns <= WIDTH,
    ensures
        forall|column: int|
            0 <= column < columns && #[trigger] grid.can_drop(column) ==> best_reply(grid, columns)
                >= -value(grid.drop(column)),
        (forall|column: int| 0 <= column < columns ==> !grid.can_drop(column)) ==> best_reply(
            grid,
            columns,
        ) == -TOTAL_SIZE,
        (exists|column: int| 0 <= column < columns && grid.can_drop(column)) ==> exists|
            column: int,
        |
            0 <= column < columns && #[trigger] grid.can_drop(column) && best_reply(grid, columns)
                == -value(grid.drop(column)),
    decreases grid.empties(), columns,
{
    if columns > 0 {
        let last = columns - 1;
        lemma_best_reply(grid, last);
        if grid.can_drop(last) {
            grid.lemma_drop(last);
            lemma_value_range(grid.drop(last));
            if exists|column: int| 0 <= column < last && grid.can_drop(column) {
                let found = choose|column: int|
                    0 <= column < last && #[trigger] grid.can_drop(column) && best_reply(
                        grid,
                        last,
                    ) == -value(grid.drop(column));
                assert(0 <= found < columns && grid.can_drop(found));
            }
            assert(0 <= last < columns && grid.can_drop(last));
        } else {
            if exists|column: int| 0 <= column < columns && grid.can_drop(column) {
                let any = choose|column: int| 0 <= column < columns && grid.can_drop(column);
                assert(0 <= any < last && grid.can_drop(any));
                let found = choose|column: int|
                    0 <= column < last && #[trigger] grid.can_drop(column) && best_reply(
                        grid,
                        last,
                    ) == -value(grid.drop(column));
                assert(0 <= found < columns && grid.can_drop(found));
            }
        }
    }
}

/// The value lies between the worst loss and the best win that the free
/// cells still allow.
pub proof fn lemma_value_range(grid: Grid)
    requires
        grid.valid(),
    ensures
        -(grid.empties() / 2) <= value(grid) <= (grid.empties() + 1) / 2,
        -(TOTAL_SIZE / 2) <= value(grid) <= (TOTAL_SIZE + 1) / 2,
    decreases grid.empties(), WIDTH + 1,
{
    grid.lemma_full();
    if !grid.is_full() && !grid.can_win() {
        lemma_best_reply(grid, WIDTH as int);
        let column = choose|column: int| 0 <= column < WIDTH && grid.can_drop(column);
        assert(0 <= column < WIDTH && grid.can_drop(column));
        let best = choose|column: int|
            0 <= column < WIDTH && #[trigger] grid.can_drop(column) && best_reply(
                grid,
                WIDTH as int,
            ) == -value(grid.drop(column));
        grid.lemma_drop(best);
        lemma_value_range(grid.drop(best));
    }
}

/// A full board is a draw.
pub proof fn lemma_value_full(grid: Grid)
    requires
        grid.valid(),
        grid.is_full(),
    ensures
        value(grid) == 0,
        node_count(grid) == 1,
{
}

/// Where the player about to move can complete four in a row, the value is
/// the score of that win, whichever column completes it.
pub proof fn lemma_value_win(grid: Grid, column: int)
    requires
        grid.valid(),
        grid.wins_by(column),
    ensures
        value(grid) == (TOTAL_SIZE + 1 - grid.stones()) / 2,
        value(grid) > 0,
        node_count(grid) == 1,
{
    grid.lemma_drop(column);
}

/// Where the game goes on and cannot be won at once, the value is the
/// largest negated value among the positions that the moves lead to.
pub proof fn lemma_value_is_best_reply(grid: Grid)
    requires
        grid.valid(),
        !grid.is_full(),
        !grid.can_win(),
    ensures
        exists|column: int| #[trigger]
            grid.can_drop(column) && value(grid) == -value(grid.drop(column)),
        forall|column: int| #[trigger]
            grid.can_drop(column) ==> value(grid) >= -value(grid.drop(column)),
{
    grid.lemma_full();
    lemma_best_reply(grid, WIDTH as int);
    let any = choose|column: int| grid.can_drop(column);
    assert(0 <= any < WIDTH && grid.can_drop(any));
    let best = choose|column: int|
        0 <= column < WIDTH && #[trigger] grid.can_drop(column) && best_reply(grid, WIDTH as int)
            == -value(grid.drop(column));
    assert(grid.can_drop(best) && value(grid) == -value(grid.drop(best)));
}

/// The player about to move can make sure of a win: by completing four in a
/// row at once, or by a move after which the other player has lost.
pub open spec fn forces_win(grid: Grid) -> bool
    decreases grid.empties(), WIDTH + 1,
    when grid.valid()
    via forces_win_decreases
{
    !grid.is_full() && (grid.can_win() || some_reply_lost(grid, WIDTH as int))
}

/// A move into one of the first `columns` columns leaves the other player
/// with a lost position.
pub open spec fn some_reply_lost(grid: Grid, columns: int) -> bool
    decreases grid.empties(), columns,
    when grid.valid()
    via some_reply_lost_decreases
{
    columns > 0 && ((grid.can_drop(columns - 1) && is_lost(grid.drop(columns - 1)))
        || some_reply_lost(grid, columns - 1))
}

/// The player about to move cannot avoid defeat: the game goes on, it cannot
/// be won at once, and after every move the other player can make sure of a
/// win.
pub open spec fn is_lost(grid: Grid) -> bool
    decreases grid.empties(), WIDTH + 1,
    when grid.valid()
    via is_lost_decreases
{
    !grid.is_full() && !grid.can_win() && every_reply_won(grid, WIDTH as int)
}

/// After each move into one of the first `columns` columns the other player
/// can make sure of a win.
pub open spec fn every_reply_won(grid: Grid, columns: int) -> bool
    decreases grid.empties(), columns,
    when grid.valid()
    via every_reply_won_decreases
{
    columns <= 0 || ((grid.can_drop(columns - 1) ==> forces_win(grid.drop(columns - 1)))
        && every_reply_won(grid, columns - 1))
}

#[via_fn]
proof fn forces_win_decreases(grid: Grid) {
}

#[via_fn]
proof fn some_reply_lost_decreases(grid: Grid, columns: int) {
    if columns > 0 && grid.can_drop(columns - 1) {
        grid.lemma_drop(columns - 1);
    }
}

#[via_fn]
proof fn is_lost_decreases(grid: Grid) {
}

#[via_fn]
proof fn every_reply_won_decreases(grid: Grid, columns: int) {
    if columns > 0 && grid.can_drop(columns - 1) {
        grid.lemma_drop(columns - 1);
    }
}

/// The value is positive exactly where the player about to move can make
/// sure of a win, negative exactly where that player cannot avoid defeat,
/// and zero where neither holds.
pub proof fn lemma_value_sign(grid: Grid)
    requires
        grid.valid(),
    ensures
        value(grid) > 0 <==> forces_win(grid),
        value(grid) < 0 <==> is_lost(grid),
        value(grid) == 0 <==> !forces_win(grid) && !is_lost(grid),
    decreases grid.empties(), WIDTH + 1,
{
    grid.lemma_full();
    if !grid.is_full() {
        lemma_best_reply_sign(grid, WIDTH as int);
    }
}

/// The best reply is positive exactly where some reply leaves a lost
/// position, and negative exactly where every reply leaves a won one.
pub proof fn lemma_best_reply_sign(grid: Grid, columns: int)
    requires
        grid.valid(),
        !grid.is_full(),
        0 <= columns <= WIDTH,
    ensures
        best_reply(grid, columns) > 0 <==> some_reply_lost(grid, columns),
        best_reply(grid, columns) < 0 <==> every_reply_won(grid, columns),
    decreases grid.empties(), columns,
{
    if columns > 0 {
        lemma_best_reply_sign(grid, columns - 1);
        if grid.can_drop(columns - 1) {
            grid.lemma_drop(columns - 1);
            lemma_value_sign(grid.drop(columns - 1));
        }
    }
}

/// What a win is worth to the player who will complete it with the next
/// stone but one, as it looks to the player who moves before.
pub open spec fn next_win_score(grid: Grid) -> int {
    (TOTAL_SIZE - grid.stones()) / 2
}

/// The player about to move can make sure of a win and needs at most
/// `waits` moves of their own before the one that completes four in a row.
pub open spec fn forces_win_in(grid: Grid, waits: int) -> bool
    decreases grid.empties(), WIDTH + 1,
    when grid.valid()
    via forces_win_in_decreases
{
    waits >= 0 && !grid.is_full() && (grid.can_win() || (waits > 0 && some_reply_lost_in(
        grid,
        WIDTH as int,
        waits - 1,
    )))
}

/// A move into one of the first `columns` columns leaves the other player
/// with a position that is lost within `waits` moves.
pub open spec fn some_reply_lost_in(grid: Grid, columns: int, waits: int) -> bool
    decreases grid.empties(), columns,
    when grid.valid()
    via some_reply_lost_in_decreases
{
    columns > 0 && ((grid.can_drop(columns - 1) && is_lost_in(grid.drop(columns - 1), waits))
        || some_reply_lost_in(grid, columns - 1, waits))
}

/// The player about to move cannot avoid defeat, and whatever that player
/// does, the other needs at most `waits` moves before the winning one.
pub open spec fn is_lost_in(grid: Grid, waits: int) -> bool
    decreases grid.empties(), WIDTH + 1,
    when grid.valid()
    via is_lost_in_decreases
{
    waits >= 0 && !grid.is_full() && !grid.can_win() && every_reply_won_in(
        grid,
        WIDTH as int,
        waits,
    )
}

/// After each move into one of the first `columns` columns the other player
/// can make sure of a win with at most `waits` moves before the winning one.
pub open spec fn every_reply_won_in(grid: Grid, columns: int, waits: int) -> bool
    decreases grid.empties(), columns,
    when grid.valid()
    via every_reply_won_in_decreases
{
    columns <= 0 || ((grid.can_drop(columns - 1) ==> forces_win_in(grid.drop(columns - 1), waits))
        && every_reply_won_in(grid, columns - 1, waits))
}

#[via_fn]
proof fn forces_win_in_decreases(grid: Grid, waits: int) {
}

#[via_fn]
proof fn some_reply_lost_in_decreases(grid: Grid, columns: int, waits: int) {
    if columns > 0 && grid.can_drop(columns - 1) {
        grid.lemma_drop(columns - 1);
    }
}

#[via_fn]
proof fn is_lost_in_decreases(grid: Grid, waits: int) {
}

#[via_fn]
proof fn every_reply_won_in_decreases(grid: Grid, columns: int, waits: int) {
    if columns > 0 && grid.can_drop(columns - 1) {
        grid.lemma_drop(columns - 1);
    }
}

/// The size of the value tells how soon the game is decided: a win that
/// takes at most `waits` moves before the winning one is worth at least the
/// score of a win at once less `waits`, and the same holds of a defeat with
/// the signs changed.
pub proof fn lemma_value_speed(grid: Grid, waits: int)
    requires
        grid.valid(),
        waits >= 0,
    ensures
        forces_win_in(grid, waits) <==> value(grid) > 0 && value(grid) >= win_score(grid) - waits,
        is_lost_in(grid, waits) <==> value(grid) < 0 && value(grid) <= waits - next_win_score(
            grid,
        ),
    decreases grid.empties(), WIDTH + 1,
{
    grid.lemma_full();
    if !grid.is_full() {
        lemma_replies_speed(grid, WIDTH as int, waits);
        if waits > 0 {
            lemma_replies_speed(grid, WIDTH as int, waits - 1);
        }
        if !grid.can_win() {
            lemma_best_reply(grid, WIDTH as int);
            let any = choose|column: int| grid.can_drop(column);
            assert(0 <= any < WIDTH && grid.can_drop(any));
            let best = choose|column: int|
                0 <= column < WIDTH && #[trigger] grid.can_drop(column) && best_reply(
                    grid,
                    WIDTH as int,
                ) == -value(grid.drop(column));
            grid.lemma_drop(best);
            lemma_value_range(grid.drop(best));
        }
    }
}

/// What [`lemma_value_speed`] says of the replies in the first `columns`
/// columns.
pub proof fn lemma_replies_speed(grid: Grid, columns: int, waits: int)
    requires
        grid.valid(),
        !grid.is_full(),
        0 <= columns <= WIDTH,
        waits >= 0,
    ensures
        some_reply_lost_in(grid, columns, waits) <==> best_reply(grid, columns) > 0 && best_reply(
            grid,
            columns,
        ) >= win_score(grid) - (waits + 1),
        every_reply_won_in(grid, columns, waits) <==> best_reply(grid, columns) < 0 && best_reply(
            grid,
            columns,
        ) <= waits - next_win_score(grid),
    decreases grid.empties(), columns,
{
    grid.lemma_full();
    if columns > 0 {
        lemma_replies_speed(grid, columns - 1, waits);
        if grid.can_drop(columns - 1) {
            grid.lemma_drop(columns - 1);
            lemma_value_speed(grid.drop(columns - 1), waits);
        }
    }
}

/// A position that is won is won with exactly as many moves before the
/// winning one as the value falls short of a win at once, and no fewer; a
/// position that is lost is lost likewise.
pub proof fn lemma_value_counts_moves(grid: Grid)
    requires
        grid.valid(),
    ensures
        value(grid) > 0 ==> forces_win_in(grid, win_score(grid) - value(grid)) && !forces_win_in(
            grid,
            win_score(grid) - value(grid) - 1,
        ),
        value(grid) < 0 ==> is_lost_in(grid, next_win_score(grid) + value(grid)) && !is_lost_in(
            grid,
            next_win_score(grid) + value(grid) - 1,
        ),
{
    grid.lemma_full();
    lemma_value_range(grid);
    if value(grid) > 0 {
        lemma_value_speed(grid, win_score(grid) - value(grid));
        if win_score(grid) - value(grid) - 1 >= 0 {
            lemma_value_speed(grid, win_score(grid) - value(grid) - 1);
        }
    }
    if value(grid) < 0 {
        lemma_value_speed(grid, next_win_score(grid) + value(grid));
        if next_win_score(grid) + value(grid) - 1 >= 0 {
            lemma_value_speed(grid, next_win_score(grid) + value(grid) - 1);
        }
    }
}

/// The positions below the first columns are among those below all of them.
pub proof fn lemma_reply_nodes_grow(grid: Grid, fewer: int, more: int)
    requires
        grid.valid(),
        fewer <= more,
    ensures
        reply_nodes(grid, fewer) <= reply_nodes(grid, more),
    decreases more - fewer,
{
    if fewer < more {
        lemma_reply_nodes_grow(grid, fewer, more - 1);
    }
}

/// The search looks at no more positions than a full tree as deep as there
/// are free cells has.
pub proof fn lemma_node_count_bound(grid: Grid)
    requires
        grid.valid(),
    ensures
        1 <= node_count(grid) <= tree_bound(grid.empties()),
    decreases grid.empties(), WIDTH + 1,
{
    grid.lemma_full();
    if !grid.is_full() && !grid.can_win() {
        lemma_reply_nodes_bound(grid, WIDTH as int);
    }
}

/// The positions below the first `columns` moves fit into that many trees
/// that are one move less deep.
pub proof fn lemma_reply_nodes_bound(grid: Grid, columns: int)
    requires
        grid.valid(),
        !grid.is_full(),
        0 <= columns <= WIDTH,
    ensures
        reply_nodes(grid, columns) <= columns * tree_bound((grid.empties() - 1) as nat),
    decreases grid.empties(), columns,
{
    grid.lemma_full();
    if columns > 0 {
        lemma_reply_nodes_bound(grid, columns - 1);
        let below = tree_bound((grid.empties() - 1) as nat);
        assert(columns * below == (columns - 1) * below + below) by (nonlinear_arith);
        if grid.can_drop(columns - 1) {
            grid.lemma_drop(columns - 1);
            lemma_node_count_bound(grid.drop(columns - 1));
        }
    }
}

/// A tree at most `MAX_COUNTED_DEPTH` deep has no more positions than the
/// counter can hold.
pub proof fn lemma_tree_bound_fits(depth: nat)
    requires
        depth <= MAX_COUNTED_DEPTH,
    ensures
        tree_bound(depth) <= 4561457890013486057,
        tree_bound(depth) <= u64::MAX,
{
    lemma_tree_bound_value(22);
    lemma_tree_bound_grows(depth, 22);
}

/// Deeper trees are larger.
proof fn lemma_tree_bound_grows(shallow: nat, deep: nat)
    requires
        shallow <= deep,
    ensures
        tree_bound(shallow) <= tree_bound(deep),
    decreases deep - shallow,
{
    if shallow < deep {
        lemma_tree_bound_grows(shallow, (deep - 1) as nat);
    }
}

/// The power of `WIDTH` with the given exponent.
pub open spec fn width_power(exponent: nat) -> nat
    decreases exponent,
{
    if exponent == 0 {
        1
    } else {
        (WIDTH as nat) * width_power((exponent - 1) as nat)
    }
}

/// Six times the size of a tree, and one, is the next power of `WIDTH`.
proof fn lemma_tree_bound_value(depth: nat)
    ensures
        6 * tree_bound(depth) + 1 == width_power(depth + 1),
        depth == 22 ==> tree_bound(depth) == 4561457890013486057,
    decreases depth,
{
    reveal_with_fuel(width_power, 2);
    if depth > 0 {
        lemma_tree_bound_value((depth - 1) as nat);
    }
    if depth == 22 {
        lemma_width_power_23();
    }
}

/// The twenty-third power of `WIDTH`, step by step.
proof fn lemma_width_power_23()
    ensures
        width_power(23) == 27368747340080916343,
{
    assert(width_power(0) == 1);
    assert(width_power(1) == 7);
    assert(width_power(2) == 49);
    assert(width_power(3) == 343);
    assert(width_power(4) == 2401);
    assert(width_power(5) == 16807);
    assert(width_power(6) == 117649);
    assert(width_power(7) == 823543);
    assert(width_power(8) == 5764801);
    assert(width_power(9) == 40353607);
    assert(width_power(10) == 282475249);
    assert(width_power(11) == 1977326743);
    assert(width_power(12) == 13841287201);
    assert(width_power(13) == 96889010407);
    assert(width_power(14) == 678223072849);
    assert(width_power(15) == 4747561509943);
    assert(width_power(16) == 33232930569601);
    assert(width_power(17) == 232630513987207);
    assert(width_power(18) == 1628413597910449);
    assert(width_power(19) == 11398895185373143);
    assert(width_power(20) == 79792266297612001);
    assert(width_power(21) == 558545864083284007);
    assert(width_power(22) == 3909821048582988049);
    assert(width_power(23) == 27368747340080916343);
}

/// With at most `MAX_COUNTED_DEPTH` free cells the number of positions fits
/// the counter, with room to spare.
pub proof fn lemma_node_count_fits(grid: Grid)
    requires
        grid.valid(),
        grid.empties() <= MAX_COUNTED_DEPTH,
    ensures
        node_count(grid) <= 4561457890013486057,
{
    lemma_node_count_bound(grid);
    lemma_tree_bound_fits(grid.empties());
}

/// The value of `state` for the player about to move; every position that is
/// looked at on the way adds one to `position_counter`.
fn negamax(state: Bitboard, position_counter: &mut u64) -> (score: i8)
    requires
        *old(position_counter) + node_count(state@) <= u64::MAX,
    ensures
        score == value(state@),
        *final(position_counter) == *old(position_counter) + node_count(state@),
    decreases state@.empties(),
{
    let ghost start: u64 = *position_counter;
    proof {
        use_type_invariant(&state);
        state.lemma_view_valid();
        state@.lemma_full();
        lemma_node_count_bound(state@);
    }
    *position_counter += 1;

    let count: u8 = state.move_count();
    if count == TOTAL_SIZE {
        return 0;
    }
    for column in 0..WIDTH
        invariant
            state@.valid(),
            count == state@.stones(),
            count < TOTAL_SIZE,
            start == *old(position_counter),
            *position_counter == start + 1,
            forall|before: int| 0 <= before < column ==> !#[trigger] state@.wins_by(before),
    {
        if state.can_play(column) && state.is_winning_move(column) {
            proof {
                lemma_value_win(state@, column as int);
            }
            return (TOTAL_SIZE + 1 - count) as i8 / 2;
        }
    }
    assert(!state@.can_win());

    let mut best_score: i8 = -(TOTAL_SIZE as i8);

    for column in 0..WIDTH
        invariant
            state@.valid(),
            !state@.is_full(),
            !state@.can_win(),
            start == *old(position_counter),
            start + node_count(state@) <= u64::MAX,
            best_score == best_reply(state@, column as int),
            *position_counter == start + 1 + reply_nodes(state@, column as int),
    {
        proof {
            lemma_reply_nodes_grow(state@, column + 1, WIDTH as int);
        }
        if state.can_play(column) {
            let mut next: Bitboard = state;
            next.play(column);
            proof {
                state@.lemma_drop(column as int);
                lemma_value_range(next@);
            }
            let score: i8 = -negamax(next, position_counter);
            if score > best_score {
                best_score = score;
            }
        }
    }

    best_score
}

/// Whether `state` has so few free cells that the number of positions to
/// look at is known to fit the counter.
pub fn fits_counter(state: &Bitboard) -> (fits: bool)
    ensures
        fits == (state@.empties() <= MAX_COUNTED_DEPTH),
        fits ==> node_count(state@) <= u64::MAX,
{
    proof {
        use_type_invariant(state);
        state.lemma_view_valid();
        state@.lemma_full();
        if state@.empties() <= MAX_COUNTED_DEPTH {
            lemma_node_count_fits(state@);
        }
    }
    TOTAL_SIZE - state.move_count() <= MAX_COUNTED_DEPTH
}

/// The value of `state` for the player about to move under best play, and
/// the number of positions that were looked at to find it.
pub fn calc_position_score(state: Bitboard) -> (result: (i8, u64))
    requires
        node_count(state@) <= u64::MAX,
    ensures
        result.0 == value(state@),
        result.1 == node_count(state@),
        -(TOTAL_SIZE / 2) <= result.0 <= (TOTAL_SIZE + 1) / 2,
        result.1 >= 1,
{
    proof {
        use_type_invariant(&state);
        state.lemma_view_valid();
        lemma_value_range(state@);
        lemma_node_count_bound(state@);
    }
    let mut position_counter: u64 = 0;
    let score: i8 = negamax(state, &mut position_counter);
    (score, position_counter)
}

} // verus!
