use connect_four::alignment::check_alignment;
use connect_four::bitboard::{Bitboard, IllegalMove};
use connect_four::layout::{BOTTOM, HEIGHT, TOTAL_SIZE, WIDTH};
use std::collections::HashMap;

const DRAWN_GAME: &str = "623767253743367555565643724734126111114224";

fn words(board: &Bitboard) -> String {
    format!("{:?}", board)
}

fn column_of(digit: char) -> u8 {
    digit as u8 - b'1'
}

/// Plays `moves` one by one and checks that no alignment is reported before
/// the last stone, and that one is reported with it.
fn fires_with_the_last_stone_only(moves: &str) {
    let mut board = Bitboard::new();
    let last = moves.chars().count() - 1;
    for (turn, digit) in moves.chars().enumerate() {
        assert!(!board.check_win(), "a line before move {}", turn);
        for column in 0..WIDTH {
            if board.can_play(column) {
                let expected = turn == last && column == column_of(digit);
                assert_eq!(board.is_winning_move(column), expected, "move {} column {}", turn, column);
            }
        }
        board.play(column_of(digit));
    }
    // The winner's stones are now those of the player who is not to move.
    assert!(!board.check_win());
    let reply = (0..WIDTH).find(|&column| board.can_play(column)).unwrap();
    board.play(reply);
    assert!(board.check_win());
}

#[test]
fn empty_board_has_no_stones() {
    let board = Bitboard::new();
    assert_eq!(board.move_count(), 0);
    assert_eq!(board.get_unique_repr(), BOTTOM);
    for column in 0..WIDTH {
        assert!(board.can_play(column));
    }
    assert!(!board.check_win());
    assert_eq!(words(&board), words(&Bitboard::default()));
}

#[test]
fn every_move_adds_one_stone() {
    let mut board = Bitboard::new();
    for (made, digit) in DRAWN_GAME.chars().enumerate() {
        assert_eq!(board.move_count() as usize, made);
        assert!(board.can_play(column_of(digit)));
        board.play(column_of(digit));
    }
    assert_eq!(board.move_count(), TOTAL_SIZE);
    for column in 0..WIDTH {
        assert!(!board.can_play(column));
    }
}

#[test]
fn move_list_passes_over_what_names_no_column() {
    assert_eq!(Bitboard::from_moves("4x9 0445").move_count(), 4);
    assert_eq!(words(&Bitboard::from_moves("4x9 0445")), words(&Bitboard::from_moves("4445")));
    assert_eq!(Bitboard::from_moves("").move_count(), 0);
    assert_eq!(Bitboard::from_moves("8é0").move_count(), 0);
}

#[test]
fn move_list_passes_over_a_full_column() {
    assert_eq!(Bitboard::from_moves("4444444").move_count(), 6);
    assert_eq!(Bitboard::from_moves("44444445").move_count(), 7);
    assert_eq!(words(&Bitboard::from_moves("44444445")), words(&Bitboard::from_moves("4444445")));
}

#[test]
fn conversion_from_text_replays_the_moves() {
    let board: Bitboard = "4455".into();
    assert_eq!(words(&board), words(&Bitboard::from_moves("4455")));
    assert_eq!(words(&board), "Bitboard { position: 270532608, mask: 811597824 }");
}

#[test]
fn column_takes_exactly_six_stones() {
    let mut board = Bitboard::new();
    for stones in 0..HEIGHT {
        assert!(board.can_play(2), "after {} stones", stones);
        board.play(2);
    }
    assert!(!board.can_play(2));
    for column in [0u8, 1, 3, 4, 5, 6, 0, 6] {
        board.play(column);
        assert!(!board.can_play(2));
    }
    assert_eq!(board.move_count(), 14);
}

#[test]
fn illegal_moves_are_refused() {
    let mut board = Bitboard::from_moves("333333");
    let before = words(&board);
    assert_eq!(board.try_play(2), Err(IllegalMove::ColumnFull));
    assert_eq!(board.try_play(7), Err(IllegalMove::NoSuchColumn));
    assert_eq!(board.try_play(200), Err(IllegalMove::NoSuchColumn));
    assert_eq!(words(&board), before);
    assert_eq!(board.try_play(3), Ok(()));
    assert_eq!(words(&board), words(&Bitboard::from_moves("3333334")));
}

#[test]
fn move_flips_the_stones_and_adds_to_the_mask() {
    let mut board = Bitboard::new();
    board.play(3);
    assert_eq!(words(&board), "Bitboard { position: 0, mask: 2097152 }");
    board.play(3);
    assert_eq!(words(&board), "Bitboard { position: 2097152, mask: 6291456 }");
    board.play(4);
    board.play(4);
    assert_eq!(words(&board), "Bitboard { position: 270532608, mask: 811597824 }");
}

#[test]
fn fingerprint_is_the_sum_of_both_words_and_the_bottom_row() {
    assert_eq!(BOTTOM, 4432676798593);
    assert_eq!(Bitboard::from_moves("4").get_unique_repr(), 4432678895745);
    assert_eq!(Bitboard::from_moves("44").get_unique_repr(), 4432685187201);
    assert_eq!(Bitboard::from_moves("4455").get_unique_repr(), 4433758929025);
}

#[test]
fn fingerprints_differ_between_positions() {
    let mut seen: HashMap<u64, String> = HashMap::new();
    let mut layer = vec![Bitboard::new()];
    let mut positions = 0usize;
    for _ in 0..=5 {
        let mut next = Vec::new();
        for board in &layer {
            let text = words(board);
            match seen.get(&board.get_unique_repr()) {
                Some(known) => assert_eq!(known, &text),
                None => {
                    seen.insert(board.get_unique_repr(), text);
                    positions += 1;
                }
            }
            for column in 0..WIDTH {
                if board.can_play(column) {
                    let mut child = *board;
                    child.play(column);
                    next.push(child);
                }
            }
        }
        layer = next;
    }
    assert_eq!(seen.len(), positions);
    let mut texts: Vec<&String> = seen.values().collect();
    texts.sort();
    texts.dedup();
    assert_eq!(texts.len(), positions);
    assert!(positions > 4000);
}

#[test]
fn alignment_up_a_column() {
    fires_with_the_last_stone_only("1212121");
}

#[test]
fn alignment_along_a_row() {
    fires_with_the_last_stone_only("1122334");
}

#[test]
fn alignment_along_the_rising_diagonal() {
    fires_with_the_last_stone_only("12243334474");
}

#[test]
fn alignment_along_the_falling_diagonal() {
    fires_with_the_last_stone_only("76645554414");
}

#[test]
fn alignment_of_plain_words() {
    assert!(check_alignment(0b1111));
    assert!(!check_alignment(0b0111));
    assert!(!check_alignment(0b11011));
    assert!(check_alignment(1 | 1 << 7 | 1 << 14 | 1 << 21));
    assert!(!check_alignment(1 | 1 << 7 | 1 << 14 | 1 << 28));
    assert!(check_alignment(1 | 1 << 8 | 1 << 16 | 1 << 24));
    assert!(!check_alignment(1 | 1 << 8 | 1 << 16));
    assert!(check_alignment(1 << 3 | 1 << 9 | 1 << 15 | 1 << 21));
    assert!(!check_alignment(1 << 3 | 1 << 9 | 1 << 15 | 1 << 22));
    assert!(!check_alignment(0));
}

#[test]
fn masks_of_single_cells() {
    assert_eq!(Bitboard::top_mask(0), 32);
    assert_eq!(Bitboard::top_mask(6), 32 << 42);
    assert_eq!(Bitboard::bottom_mask(0), 1);
    assert_eq!(Bitboard::bottom_mask(3), 1 << 21);
    assert_eq!(Bitboard::position_mask(0, 0), 1);
    assert_eq!(Bitboard::position_mask(2, 3), 1 << 17);
    assert_eq!(Bitboard::position_mask(6, 5), 1 << 47);
}

#[test]
fn tiles_name_the_players_by_who_moved_first() {
    let board = Bitboard::from_moves("44532");
    assert_eq!(board.get_tile(3, 0), 'x');
    assert_eq!(board.get_tile(3, 1), 'o');
    assert_eq!(board.get_tile(4, 0), 'x');
    assert_eq!(board.get_tile(2, 0), 'o');
    assert_eq!(board.get_tile(1, 0), 'x');
    assert_eq!(board.get_tile(0, 0), ' ');
    assert_eq!(board.get_tile(3, 2), ' ');
    let board = Bitboard::from_moves("4453");
    assert_eq!(board.get_tile(3, 0), 'x');
    assert_eq!(board.get_tile(2, 0), 'o');
}

#[test]
fn picture_of_a_board() {
    let rule = "\n---------------\n";
    let mut expected = String::new();
    for row in [
        "| | | | | | | |",
        "| | | | | | | |",
        "| | | | | | | |",
        "| | | | | | | |",
        "| | | |o| | | |",
        "| |x|o|x|x| | |",
    ] {
        expected.push_str(rule);
        expected.push_str(row);
    }
    expected.push_str(rule);
    assert_eq!(Bitboard::from_moves("44532").render(), expected);
}
