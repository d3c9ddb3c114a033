use connect_four::bitboard::Bitboard;
use connect_four::layout::WIDTH;
use connect_four::search::{calc_position_score, fits_counter, MAX_COUNTED_DEPTH};

const DRAWN_GAME: &str = "623767253743367555565643724734126111114224";

#[test]
fn full_board_is_a_draw() {
    let board = Bitboard::from_moves(DRAWN_GAME);
    assert_eq!(board.move_count(), 42);
    assert_eq!(calc_position_score(board), (0, 1));
}

#[test]
fn last_stones_of_a_drawn_game() {
    assert_eq!(calc_position_score(Bitboard::from_moves(&DRAWN_GAME[..41])), (0, 2));
    assert_eq!(calc_position_score(Bitboard::from_moves(&DRAWN_GAME[..38])), (0, 7));
    assert_eq!(calc_position_score(Bitboard::from_moves(&DRAWN_GAME[..36])), (0, 20));
    assert_eq!(calc_position_score(Bitboard::from_moves(&DRAWN_GAME[..34])), (0, 29));
}

#[test]
fn win_at_once_scores_by_the_stones_played() {
    // 40 stones: (42 + 1 - 40) / 2
    assert_eq!(calc_position_score(Bitboard::from_moves(&DRAWN_GAME[..40])), (1, 1));
    // 32 stones: (42 + 1 - 32) / 2
    assert_eq!(calc_position_score(Bitboard::from_moves(&DRAWN_GAME[..32])), (5, 1));
    let early = "25777131474464721415461763362331365655";
    assert_eq!(calc_position_score(Bitboard::from_moves(early)), (2, 1));
    assert_eq!(calc_position_score(Bitboard::from_moves(&early[..30])), (6, 1));
}

#[test]
fn values_and_counts_of_late_positions() {
    let cases: [(&str, i8, u64); 12] = [
        ("161755773363545741713466117464", -3, 530),
        ("163643743146613433425456177526", 2, 19371),
        ("72146474734424213223363717", -7, 224181),
        ("535223574221262511737556117667", 2, 1051),
        ("77761776634121762333431344", 4, 65816),
        ("227363432171324411474625634125", 2, 7671),
        ("2565716577732462517746151342245", 3, 235),
        ("77456441164656247461175221", 6, 4471),
        ("57151315243131336212664257745375", -1, 1525),
        ("45332626635575365266454734311", -3, 260),
        ("44365677775516724752421425226", 2, 82039),
        ("427551335232561327364375544147", 4, 14336),
    ];
    for (moves, score, nodes) in cases {
        assert_eq!(calc_position_score(Bitboard::from_moves(moves)), (score, nodes), "{}", moves);
    }
    assert_eq!(calc_position_score(Bitboard::from_moves(&DRAWN_GAME[..30])), (-6, 5));
}

#[test]
fn value_is_the_best_negated_value_of_the_replies() {
    for moves in ["161755773363545741713466117464", "227363432171324411474625634125", "45332626635575365266454734311"] {
        let board = Bitboard::from_moves(moves);
        for column in 0..WIDTH {
            assert!(!(board.can_play(column) && board.is_winning_move(column)));
        }
        let (score, nodes) = calc_position_score(board);
        let mut best: Option<i8> = None;
        let mut below: u64 = 0;
        for column in 0..WIDTH {
            if board.can_play(column) {
                let mut child = board;
                child.play(column);
                let (reply, counted) = calc_position_score(child);
                below += counted;
                best = Some(best.map_or(-reply, |known| known.max(-reply)));
            }
        }
        assert_eq!(Some(score), best);
        assert_eq!(nodes, 1 + below);
    }
}

#[test]
fn values_stay_within_half_the_board() {
    for moves in ["72146474734424213223363717", "77456441164656247461175221"] {
        let (score, nodes) = calc_position_score(Bitboard::from_moves(moves));
        assert!((-21..=21).contains(&score));
        assert!(nodes >= 1);
    }
}

#[test]
fn counter_is_known_to_fit_late_in_the_game() {
    assert_eq!(MAX_COUNTED_DEPTH, 22);
    assert!(!fits_counter(&Bitboard::new()));
    assert!(!fits_counter(&Bitboard::from_moves(&DRAWN_GAME[..19])));
    assert!(fits_counter(&Bitboard::from_moves(&DRAWN_GAME[..20])));
    assert!(fits_counter(&Bitboard::from_moves(DRAWN_GAME)));
}
