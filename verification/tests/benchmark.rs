use connect_four::benchmark::{find_end, parse_score, Case, CaseResult};
use connect_four::bitboard::Bitboard;

fn same_position(case: &Case, moves: &str) -> bool {
    format!("{:?}", case.state) == format!("{:?}", Bitboard::from_moves(moves))
}

#[test]
fn line_gives_moves_and_value() {
    let case = Case::new("4455 3");
    assert!(same_position(&case, "4455"));
    assert_eq!(case.score, 3);
    let case = Case::parse("161755773363545741713466117464 -3").unwrap();
    assert!(same_position(&case, "161755773363545741713466117464"));
    assert_eq!(case.score, -3);
}

#[test]
fn line_may_start_with_the_blank() {
    let case = Case::parse(" 7").unwrap();
    assert!(same_position(&case, ""));
    assert_eq!(case.score, 7);
}

#[test]
fn what_follows_the_value_is_not_read() {
    let case = Case::parse("12 -4 and more").unwrap();
    assert!(same_position(&case, "12"));
    assert_eq!(case.score, -4);
}

#[test]
fn moves_that_cannot_be_made_are_passed_over() {
    let case = Case::parse("4444444x5 0").unwrap();
    assert!(same_position(&case, "4444445"));
    assert_eq!(case.state.move_count(), 7);
    assert_eq!(case.score, 0);
}

#[test]
fn line_without_a_value_is_no_case() {
    assert!(Case::parse("").is_none());
    assert!(Case::parse("4455").is_none());
    assert!(Case::parse("4455 ").is_none());
    assert!(Case::parse("4455  3").is_none());
    assert!(Case::parse("4455 x").is_none());
    assert!(Case::parse("4455 3x").is_none());
    assert!(Case::parse("4455 3\r").is_none());
    assert!(Case::parse("4455 -").is_none());
    assert!(Case::parse("4455 +").is_none());
    assert!(Case::parse("4455 --3").is_none());
    assert!(Case::parse("4455 3-").is_none());
    assert!(Case::parse("4455 128").is_none());
    assert!(Case::parse("4455 -129").is_none());
    assert!(Case::parse("4455\t3").is_none());
}

#[test]
fn values_are_signed_decimal_numbers() {
    assert_eq!(parse_score("0"), Some(0));
    assert_eq!(parse_score("-0"), Some(0));
    assert_eq!(parse_score("+0"), Some(0));
    assert_eq!(parse_score("7"), Some(7));
    assert_eq!(parse_score("+7"), Some(7));
    assert_eq!(parse_score("-7"), Some(-7));
    assert_eq!(parse_score("18"), Some(18));
    assert_eq!(parse_score("-21"), Some(-21));
    assert_eq!(parse_score("127"), Some(127));
    assert_eq!(parse_score("-128"), Some(-128));
    assert_eq!(parse_score("0000000000000000000000127"), Some(127));
    assert_eq!(parse_score("-000128"), Some(-128));
    assert_eq!(parse_score("128"), None);
    assert_eq!(parse_score("+128"), None);
    assert_eq!(parse_score("-129"), None);
    assert_eq!(parse_score("1000"), None);
    assert_eq!(parse_score("99999999999999999999999999"), None);
    assert_eq!(parse_score(""), None);
    assert_eq!(parse_score("+"), None);
    assert_eq!(parse_score("-"), None);
    assert_eq!(parse_score("1 "), None);
    assert_eq!(parse_score(" 1"), None);
    assert_eq!(parse_score("1-"), None);
    assert_eq!(parse_score("1+1"), None);
    assert_eq!(parse_score("٣"), None);
    assert_eq!(parse_score("1_0"), None);
}

#[test]
fn values_agree_with_the_standard_parser() {
    let words = ["0", "-0", "+5", "5", "-5", "127", "128", "-128", "-129", "", "+", "-", "007", "+-1", "1e1", "0x10", " 3", "3 ", "٣"];
    for word in words {
        assert_eq!(parse_score(word), word.parse::<i8>().ok(), "{:?}", word);
    }
    for number in -300i32..=300 {
        let word = number.to_string();
        assert_eq!(parse_score(&word), word.parse::<i8>().ok(), "{:?}", word);
    }
}

#[test]
fn words_end_at_blanks() {
    assert_eq!(find_end("4455 3", 0, ' '), 4);
    assert_eq!(find_end("4455 3", 4, ' '), 4);
    assert_eq!(find_end("4455 3", 5, ' '), 6);
    assert_eq!(find_end("4455 3", 6, ' '), 6);
    assert_eq!(find_end("", 0, ' '), 0);
    assert_eq!(find_end("  ", 0, ' '), 0);
    assert_eq!(find_end("  ", 1, ' '), 1);
    assert_eq!(find_end("né à", 0, ' '), 2);
    assert_eq!(find_end("né à", 3, ' '), 4);
    assert_eq!(find_end("12 3\n45 6", 0, '\n'), 4);
    assert_eq!(find_end("12 3\n45 6", 5, '\n'), 9);
}

#[test]
fn case_is_checked_against_the_search() {
    let right = Case::new("161755773363545741713466117464 -3");
    assert_eq!(right.run(), CaseResult { correct: true, positions_searched: 530 });
    let wrong = Case::new("161755773363545741713466117464 3");
    assert_eq!(wrong.run(), CaseResult { correct: false, positions_searched: 530 });
    let drawn = Case::new("623767253743367555565643724734126111114224 0");
    assert_eq!(drawn.run(), CaseResult { correct: true, positions_searched: 1 });
    assert_eq!(CaseResult::default(), CaseResult { correct: false, positions_searched: 0 });
}

#[test]
fn default_case_is_the_empty_board_with_value_zero() {
    let case = Case::default();
    assert!(same_position(&case, ""));
    assert_eq!(case.score, 0);
}

#[test]
fn cases_are_read_line_by_line() {
    let text = "4455 3\n12 -4\n 0\n7777777 21\n1 1\n2 2\nnot read";
    let cases = Case::parse_cases(text, 5).unwrap();
    assert_eq!(cases.len(), 5);
    assert!(same_position(&cases[0], "4455"));
    assert_eq!(cases[0].score, 3);
    assert!(same_position(&cases[1], "12"));
    assert_eq!(cases[1].score, -4);
    assert!(same_position(&cases[2], ""));
    assert_eq!(cases[2].score, 0);
    assert!(same_position(&cases[3], "777777"));
    assert_eq!(cases[3].score, 21);
    assert!(same_position(&cases[4], "1"));
    assert_eq!(cases[4].score, 1);
    assert_eq!(Case::parse_cases(text, 6).unwrap().len(), 6);
    assert_eq!(Case::parse_cases(text, 0).unwrap().len(), 0);
    assert_eq!(Case::parse_cases("4 1", 5).unwrap().len(), 1);
}

#[test]
fn line_that_is_no_case_spoils_the_file() {
    let text = "4455 3\n12 -4\nnot read";
    assert!(Case::parse_cases(text, 2).is_some());
    assert!(Case::parse_cases(text, 3).is_none());
    assert!(Case::parse_cases(text, 5).is_none());
    // A text that ends in a line feed has an empty last line.
    assert!(Case::parse_cases("4455 3\n", 1).is_some());
    assert!(Case::parse_cases("4455 3\n", 2).is_none());
    assert!(Case::parse_cases("", 1).is_none());
    assert!(Case::parse_cases("4455 3\r\n12 4", 1).is_none());
}
