//! Four in a row, on the bits and on the board.
use vstd::prelude::*;
use crate::bits::{bit_set, lemma_bit_set_nonzero, lemma_nonzero_has_bit};
use crate::grid::Grid;
use crate::layout::{
    cell_index, lemma_bit_cell, lemma_shift_test, on_board, shift_test, within_board,
    BOARD_HEIGHT, HEIGHT,
};

verus! {

/// Four ones of `bits` follow each other at distance `stride`, the first at
/// bit `start`.
pub open spec fn aligned_from(bits: u64, start: int, stride: int) -> bool {
    &&& bit_set(bits, start)
    &&& bit_set(bits, start + stride)
    &&& bit_set(bits, start + 2 * stride)
    &&& bit_set(bits, start + 3 * stride)
}

/// Four ones of `bits` follow each other from bit `start` along one of the
/// four axes: up a column (distance 1), along a row (one column's worth of
/// bits), or along a diagonal (one bit less or more than that).
pub open spec fn aligned_at(bits: u64, start: int) -> bool {
    ||| aligned_from(bits, start, 1)
    ||| aligned_from(bits, start, BOARD_HEIGHT - 1)
    ||| aligned_from(bits, start, BOARD_HEIGHT as int)
    ||| aligned_from(bits, start, BOARD_HEIGHT + 1)
}

/// Somewhere in `bits` four ones follow each other along an axis.
pub open spec fn has_alignment(bits: u64) -> bool {
    exists|start: int| #[trigger] aligned_at(bits, start)
}

/// The shift test along one axis finds exactly the alignments of that axis.
proof fn lemma_axis(bits: u64, stride: u64)
    requires
        1 <= stride <= 8,
    ensures
        shift_test(bits, stride) != 0 <==> exists|start: int| #[trigger]
            aligned_from(bits, start, stride as int),
{
    let word = shift_test(bits, stride);
    if word != 0 {
        let start = lemma_nonzero_has_bit(word);
        lemma_shift_test(
            bits,
            stride,
            start as u64,
            (start + stride) as u64,
            (start + 2 * stride) as u64,
            (start + 3 * stride) as u64,
        );
        assert(aligned_from(bits, start, stride as int));
    }
    assert forall|start: int| #[trigger] aligned_from(bits, start, stride as int) implies word
        != 0 by {
        lemma_shift_test(
            bits,
            stride,
            start as u64,
            (start + stride) as u64,
            (start + 2 * stride) as u64,
            (start + 3 * stride) as u64,
        );
        lemma_bit_set_nonzero(word, start);
    }
}

/// Whether four ones of `bits` follow each other along one of the four axes
/// of the board.
pub fn check_alignment(bits: u64) -> (aligned: bool)
    ensures
        aligned == has_alignment(bits),
{
    proof {
        lemma_axis(bits, 1);
        lemma_axis(bits, 6);
        lemma_axis(bits, 7);
        lemma_axis(bits, 8);
    }
    let mut m: u64 = bits & (bits >> BOARD_HEIGHT);
    if m & (m >> (2 * BOARD_HEIGHT)) != 0 {
        proof {
            let start = choose|start: int| aligned_from(bits, start, 7);
            assert(aligned_at(bits, start));
        }
        return true;
    }
    m = bits & (bits >> (BOARD_HEIGHT - 1));
    if m & (m >> (2 * BOARD_HEIGHT - 2)) != 0 {
        proof {
            let start = choose|start: int| aligned_from(bits, start, 6);
            assert(aligned_at(bits, start));
        }
        return true;
    }
    m = bits & (bits >> (BOARD_HEIGHT + 1));
    if m & (m >> (2 * BOARD_HEIGHT + 2)) != 0 {
        proof {
            let start = choose|start: int| aligned_from(bits, start, 8);
            assert(aligned_at(bits, start));
        }
        return true;
    }
    m = bits & (bits >> 1);
    if m & (m >> 2) != 0 {
        proof {
            let start = choose|start: int| aligned_from(bits, start, 1);
            assert(aligned_at(bits, start));
        }
        return true;
    }
    assert forall|start: int| !aligned_at(bits, start) by {}
    false
}

/// Where `bits` holds a one for each stone of one player, the alignments of
/// `bits` are that player's lines of four on the board.
pub proof fn lemma_alignment_is_line(bits: u64, grid: Grid, mine: bool)
    requires
        within_board(bits),
        grid.valid(),
        forall|column: int, row: int|
            on_board(column, row) ==> (bit_set(bits, cell_index(column, row))
                <==> #[trigger] grid.stone(column, row, mine)),
    ensures
        has_alignment(bits) <==> grid.has_line(mine),
{
    if has_alignment(bits) {
        let start = choose|start: int| aligned_at(bits, start);
        let stride = if aligned_from(bits, start, 1) {
            1int
        } else if aligned_from(bits, start, 6) {
            6int
        } else if aligned_from(bits, start, 7) {
            7int
        } else {
            8int
        };
        assert(aligned_from(bits, start, stride));
        lemma_bit_cell(bits, start);
        lemma_bit_cell(bits, start + stride);
        lemma_bit_cell(bits, start + 2 * stride);
        lemma_bit_cell(bits, start + 3 * stride);
        let column = start / 7;
        let row = start % 7;
        let across = if stride == 1 { 0int } else { 1int };
        let up = stride - 7 * across;
        assert((start + stride) / 7 == column + across && (start + stride) % 7 == row + up);
        assert((start + 2 * stride) / 7 == column + 2 * across && (start + 2 * stride) % 7 == row
            + 2 * up);
        assert((start + 3 * stride) / 7 == column + 3 * across && (start + 3 * stride) % 7 == row
            + 3 * up);
        assert(grid.stone(column, row, mine));
        assert(grid.stone(column + across, row + up, mine));
        assert(grid.stone(column + 2 * across, row + 2 * up, mine));
        assert(grid.stone(column + 3 * across, row + 3 * up, mine));
        assert(grid.line_from(column, row, across, up, mine));
        assert(grid.line_at(column, row, mine));
    }
    if grid.has_line(mine) {
        let (column, row) = choose|column: int, row: int| grid.line_at(column, row, mine);
        let across = if grid.line_from(column, row, 0, 1, mine) { 0int } else { 1int };
        let up = if grid.line_from(column, row, 0, 1, mine) {
            1int
        } else if grid.line_from(column, row, 1, 0, mine) {
            0int
        } else if grid.line_from(column, row, 1, 1, mine) {
            1int
        } else {
            -1int
        };
        assert(grid.line_from(column, row, across, up, mine));
        let start = cell_index(column, row);
        let stride = up + 7 * across;
        assert(grid.columns[column].len() <= HEIGHT);
        assert(grid.columns[column + across].len() <= HEIGHT);
        assert(grid.columns[column + 2 * across].len() <= HEIGHT);
        assert(grid.columns[column + 3 * across].len() <= HEIGHT);
        assert(grid.stone(column, row, mine));
        assert(grid.stone(column + across, row + up, mine));
        assert(grid.stone(column + 2 * across, row + 2 * up, mine));
        assert(grid.stone(column + 3 * across, row + 3 * up, mine));
        assert(cell_index(column + across, row + up) == start + stride);
        assert(cell_index(column + 2 * across, row + 2 * up) == start + 2 * stride);
        assert(cell_index(column + 3 * across, row + 3 * up) == start + 3 * stride);
        assert(aligned_from(bits, start, stride));
        assert(aligned_at(bits, start));
    }
}

} // verus!
