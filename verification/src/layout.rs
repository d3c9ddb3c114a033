//! How the cells of the board are laid out in a 64-bit word.
//!
//! Each column owns seven consecutive bits: six cells, bottom row first, and
//! one guard bit above them that no stone ever occupies.
use vstd::prelude::*;
use crate::bits::{bit_set, lemma_nonzero_has_bit, run};

verus! {

/// Number of columns.
pub const WIDTH: u8 = 7;

/// Number of rows that can hold a stone.
pub const HEIGHT: u8 = 6;

/// Bits per column: the rows and the guard bit.
pub const BOARD_HEIGHT: u8 = 7;

/// Number of cells.
pub const TOTAL_SIZE: u8 = 42;

/// The bottom cell of every column.
pub const BOTTOM: u64 = 0b1000000_1000000_1000000_1000000_1000000_1000000_1;

/// Every cell of the board, and no guard bit.
pub const BOARD_MASK: u64 = 0b111111_0111111_0111111_0111111_0111111_0111111_0111111;

/// `(column, row)` names a cell.
pub open spec fn on_board(column: int, row: int) -> bool {
    0 <= column < WIDTH && 0 <= row < HEIGHT
}

/// The bit that stands for the cell `(column, row)`.
pub open spec fn cell_index(column: int, row: int) -> int {
    row + column * BOARD_HEIGHT
}

/// No bit of `bits` lies outside the cells of the board.
pub open spec fn within_board(bits: u64) -> bool {
    bits & !BOARD_MASK == 0
}

/// `position` and `mask` encode a board: every stone lies in a cell, the
/// stones of the player to move are among the stones, and a stone above the
/// bottom row rests on another stone.
pub open spec fn valid_bits(position: u64, mask: u64) -> bool {
    &&& within_board(mask)
    &&& position & !mask == 0
    &&& (mask >> 1) & !mask & BOARD_MASK == 0
}

/// The lowest row of `column` that `mask` leaves free; `HEIGHT` if none is.
pub open spec fn column_height(mask: u64, column: u64) -> u64 {
    let field: u64 = mask >> (7 * column);
    if field & 1 == 0 {
        0
    } else if field & 2 == 0 {
        1
    } else if field & 4 == 0 {
        2
    } else if field & 8 == 0 {
        3
    } else if field & 16 == 0 {
        4
    } else if field & 32 == 0 {
        5
    } else {
        6
    }
}

/// The top cell of `column` holds no stone.
pub open spec fn top_free(mask: u64, column: u64) -> bool {
    mask & (32u64 << (7 * column)) == 0
}

/// The word that a move into `column` turns `mask` into.
pub open spec fn mask_after(mask: u64, column: u64) -> u64 {
    mask | ((mask + (1u64 << (7 * column))) as u64)
}

/// A set bit of a word within the board stands for a cell.
pub proof fn lemma_set_bit_is_cell(bits: u64, index: u64)
    by (bit_vector)
    requires
        within_board(bits),
        index < 64,
        (bits >> index) & 1 == 1,
    ensures
        index < 49,
        index % 7 != 6,
{
}

/// The word whose only set bit stands for the cell `(column, row)`.
pub open spec fn cell_bit(column: int, row: int) -> u64 {
    1u64 << (cell_index(column, row) as u64)
}

/// The stones of `column` as a run of ones in their place in the word.
pub open spec fn stack_bits(mask: u64, column: u64) -> u64 {
    run((7 * column) as u64, column_height(mask, column))
}

/// A cell is occupied exactly if it lies below its column's height, a stone
/// of the player to move lies below it too, and a column has room exactly if
/// its top cell is free.
pub proof fn lemma_occupied_below_height(
    position: u64,
    mask: u64,
    column: u64,
    row: u64,
    index: u64,
)
    by (bit_vector)
    requires
        valid_bits(position, mask),
        column < 7,
        row < 6,
        index == 7 * column + row,
    ensures
        (mask >> index) & 1 == 1 <==> row < column_height(mask, column),
        (position >> index) & 1 == 1 ==> row < column_height(mask, column),
        column_height(mask, column) <= 6,
        top_free(mask, column) <==> column_height(mask, column) < 6,
{
}

/// What a move into a column that is not full does to the two words.
pub proof fn lemma_move_bits(position: u64, mask: u64, column: u64, other: u64)
    by (bit_vector)
    requires
        valid_bits(position, mask),
        column < 7,
        other < 7,
        top_free(mask, column),
    ensures
        mask + (1u64 << (7 * column)) <= 0xffff_ffff_ffff_ffff,
        valid_bits(position ^ mask, mask_after(mask, column)),
        column_height(mask_after(mask, column), column) == column_height(mask, column) + 1,
        other != column ==> column_height(mask_after(mask, column), other) == column_height(
            mask,
            other,
        ),
{
}

/// After a move the stones change hands, and a cell that was free holds no
/// stone of the player who moves next.
pub proof fn lemma_move_owner(position: u64, mask: u64, index: u64)
    by (bit_vector)
    requires
        position & !mask == 0,
        index < 64,
    ensures
        (mask >> index) & 1 == 1 ==> (((position ^ mask) >> index) & 1 == 1 <==> (position
            >> index) & 1 != 1),
        (mask >> index) & 1 != 1 ==> ((position ^ mask) >> index) & 1 != 1,
{
}

/// A valid mask is the union of its columns' stacks, which share no bit.
pub proof fn lemma_mask_is_stacks(mask: u64)
    by (bit_vector)
    requires
        within_board(mask),
        (mask >> 1) & !mask & BOARD_MASK == 0,
    ensures
        ({
            let s0 = stack_bits(mask, 0);
            let s1 = s0 | stack_bits(mask, 1);
            let s2 = s1 | stack_bits(mask, 2);
            let s3 = s2 | stack_bits(mask, 3);
            let s4 = s3 | stack_bits(mask, 4);
            let s5 = s4 | stack_bits(mask, 5);
            let s6 = s5 | stack_bits(mask, 6);
            &&& s0 & stack_bits(mask, 1) == 0
            &&& s1 & stack_bits(mask, 2) == 0
            &&& s2 & stack_bits(mask, 3) == 0
            &&& s3 & stack_bits(mask, 4) == 0
            &&& s4 & stack_bits(mask, 5) == 0
            &&& s5 & stack_bits(mask, 6) == 0
            &&& s6 == mask
        }),
{
}

/// The shift test along one axis: the ones of the result mark the cells from
/// which four ones of `bits` follow each other at distance `stride`.
pub open spec fn shift_test(bits: u64, stride: u64) -> u64 {
    let pairs: u64 = bits & (bits >> stride);
    pairs & (pairs >> (2 * stride))
}

/// What one bit of the shift test says about `bits`.
pub proof fn lemma_shift_test(
    bits: u64,
    stride: u64,
    first: u64,
    second: u64,
    third: u64,
    fourth: u64,
)
    by (bit_vector)
    requires
        1 <= stride <= 8,
        first < 64,
        second == first + stride,
        third == first + 2 * stride,
        fourth == first + 3 * stride,
    ensures
        (shift_test(bits, stride) >> first) & 1 == 1 <==> {
            &&& fourth < 64
            &&& (bits >> first) & 1 == 1
            &&& (bits >> second) & 1 == 1
            &&& (bits >> third) & 1 == 1
            &&& (bits >> fourth) & 1 == 1
        },
{
}

/// The stones of either player lie within the board.
pub proof fn lemma_stones_within(position: u64, mask: u64)
    by (bit_vector)
    requires
        valid_bits(position, mask),
    ensures
        within_board(position),
        within_board(position ^ mask),
        (position ^ mask) & !mask == 0,
        position + mask + BOTTOM <= 0xffff_ffff_ffff_ffff,
{
}

/// Two valid encodings with the same sum are the same encoding.
pub proof fn lemma_sum_injective(position: u64, mask: u64, other_position: u64, other_mask: u64)
    by (bit_vector)
    requires
        valid_bits(position, mask),
        valid_bits(other_position, other_mask),
        position + mask + BOTTOM == other_position + other_mask + BOTTOM,
    ensures
        position == other_position,
        mask == other_mask,
{
}

/// A one in the place of a cell, and how a word is tested for it.
pub proof fn lemma_cell_bit(bits: u64, low: u64, high: u64, index: u64)
    by (bit_vector)
    requires
        low < 8,
        high < 50,
        index == low + high,
    ensures
        (1u64 << low) << high == 1u64 << index,
        bits & (1u64 << index) == 0 <==> (bits >> index) & 1 != 1,
{
}

/// A one of a word within the board stands for the cell whose column and
/// row are the quotient and the remainder of its index.
pub proof fn lemma_bit_cell(bits: u64, index: int)
    requires
        within_board(bits),
        bit_set(bits, index),
    ensures
        on_board(index / 7, index % 7),
        cell_index(index / 7, index % 7) == index,
{
    lemma_set_bit_is_cell(bits, index as u64);
}

/// Where two words within the board differ, they differ in a cell.
pub proof fn lemma_difference(bits: u64, other: u64, index: u64)
    by (bit_vector)
    requires
        within_board(bits),
        within_board(other),
        index < 64,
    ensures
        within_board(bits ^ other),
        bits != other ==> bits ^ other != 0,
        ((bits ^ other) >> index) & 1 == 1 ==> ((bits >> index) & 1 == 1) != ((other >> index) & 1
            == 1),
{
}

/// What setting the one of a cell does to a word and to the words around it.
pub proof fn lemma_set_cell(bits: u64, inner: u64, column: u64, row: u64, index: u64, other: u64)
    by (bit_vector)
    requires
        column < 7,
        row < 6,
        index == 7 * column + row,
        other < 64,
    ensures
        ((bits | (1u64 << index)) >> other) & 1 == 1 <==> (bits >> other) & 1 == 1 || other
            == index,
        within_board(bits) ==> within_board(bits | (1u64 << index)),
        inner & !bits == 0 ==> inner & !(bits | (1u64 << index)) == 0,
        inner & !bits == 0 ==> (inner | (1u64 << index)) & !(bits | (1u64 << index)) == 0,
{
}

/// Where a stone hangs over a free cell, the word shows it.
pub proof fn lemma_gap(mask: u64, index: u64, above: u64)
    by (bit_vector)
    requires
        index < 64,
        above == index + 1,
        (((mask >> 1) & !mask & BOARD_MASK) >> index) & 1 == 1,
    ensures
        index < 48,
        index % 7 != 6,
        (mask >> index) & 1 != 1,
        (mask >> above) & 1 == 1,
{
}

/// A word within the board in which every stone above the bottom row rests
/// on a stone is the mask of a valid encoding.
pub proof fn lemma_settled_mask(mask: u64)
    requires
        within_board(mask),
        forall|column: int, row: int|
            on_board(column, row) && on_board(column, row + 1) && bit_set(
                mask,
                #[trigger] cell_index(column, row + 1),
            ) ==> bit_set(mask, cell_index(column, row)),
    ensures
        (mask >> 1) & !mask & BOARD_MASK == 0,
{
    let gaps: u64 = (mask >> 1) & !mask & BOARD_MASK;
    if gaps != 0 {
        let index = lemma_nonzero_has_bit(gaps);
        lemma_gap(mask, index as u64, (index + 1) as u64);
        lemma_bit_cell(mask, index + 1);
        let column = index / 7;
        let row = index % 7;
        assert(cell_index(column, row + 1) == index + 1);
        assert(on_board(column, row) && on_board(column, row + 1));
        assert(bit_set(mask, cell_index(column, row)));
    }
}

} // verus!
