use connect_four::bitboard::Bitboard;
use connect_four::game::{Game, Model, Piece, Turn};

const DRAWN_GAME: &str = "623767253743367555565643724734126111114224";

fn played(moves: &str) -> Game {
    let mut game = Game::new();
    for digit in moves.chars() {
        game.make_move((digit as u8 - b'1') as usize);
    }
    game
}

fn pieces(game: &Game) -> usize {
    let mut count = 0;
    for column in 0..7 {
        for row in 0..6 {
            if game.piece_at(column, row) != Piece::Empty {
                count += 1;
            }
        }
    }
    count
}

#[test]
fn new_game_is_empty_and_red_moves_first() {
    let game = Game::new();
    assert_eq!(pieces(&game), 0);
    assert_eq!(game.turn(), Turn::Red);
    assert!(!game.is_computer_turn());
    assert_eq!(game.get_bitboards(), (0, 0));
    assert_eq!(format!("{:?}", Game::default()), format!("{:?}", game));
    assert_eq!(Piece::default(), Piece::Empty);
    assert_eq!(Turn::default(), Turn::Red);
}

#[test]
fn pieces_come_to_rest_on_the_lowest_free_row() {
    let mut game = Game::new();
    assert_eq!(game.find_space(3), Some(0));
    game.make_move(3);
    assert_eq!(game.piece_at(3, 0), Piece::Red);
    assert_eq!(game.turn(), Turn::Yellow);
    assert!(game.is_computer_turn());
    assert_eq!(game.find_space(3), Some(1));
    game.make_move(3);
    assert_eq!(game.piece_at(3, 1), Piece::Yellow);
    assert_eq!(game.turn(), Turn::Red);
    assert_eq!(game.find_space(3), Some(2));
    assert_eq!(game.find_space(0), Some(0));
    assert_eq!(pieces(&game), 2);
}

#[test]
fn full_column_takes_no_piece() {
    let mut game = played("555555");
    assert_eq!(game.find_space(4), None);
    assert_eq!(game.turn(), Turn::Red);
    let before = format!("{:?}", game);
    game.make_move(4);
    assert_eq!(format!("{:?}", game), before);
    assert_eq!(pieces(&game), 6);
}

#[test]
fn four_in_a_column_win() {
    let game = played("121212");
    assert_eq!(game.turn(), Turn::Red);
    let game = played("1212121");
    assert_eq!(game.turn(), Turn::RedWon);
}

#[test]
fn four_in_a_row_win() {
    assert_eq!(played("112233").turn(), Turn::Red);
    assert_eq!(played("1122334").turn(), Turn::RedWon);
    // The last piece may fall in the middle of the line.
    assert_eq!(played("1122443").turn(), Turn::RedWon);
    assert_eq!(played("71122334").turn(), Turn::YellowWon);
}

#[test]
fn four_on_a_diagonal_win() {
    assert_eq!(played("1224333447").turn(), Turn::Red);
    assert_eq!(played("12243334474").turn(), Turn::RedWon);
    assert_eq!(played("7664555441").turn(), Turn::Red);
    assert_eq!(played("76645554414").turn(), Turn::RedWon);
}

#[test]
fn finished_game_takes_no_more_moves() {
    let mut game = played("1212121");
    let before = format!("{:?}", game);
    for column in 0..7 {
        game.make_move(column);
    }
    assert_eq!(format!("{:?}", game), before);
    assert_eq!(game.turn(), Turn::RedWon);
    assert!(!game.is_computer_turn());
}

#[test]
fn full_frame_without_a_line_is_a_tie() {
    let game = played(&DRAWN_GAME[..41]);
    assert!(game.turn() == Turn::Red || game.turn() == Turn::Yellow);
    let game = played(DRAWN_GAME);
    assert_eq!(game.turn(), Turn::Tie);
    assert_eq!(pieces(&game), 42);
}

#[test]
fn turns_change_and_end() {
    assert_eq!(Turn::Red.change(), Turn::Yellow);
    assert_eq!(Turn::Yellow.change(), Turn::Red);
    assert_eq!(Turn::RedWon.change(), Turn::RedWon);
    assert_eq!(Turn::YellowWon.change(), Turn::YellowWon);
    assert_eq!(Turn::Tie.change(), Turn::Tie);
    assert_eq!(Turn::Red.win(), Turn::RedWon);
    assert_eq!(Turn::Yellow.win(), Turn::YellowWon);
    assert_eq!(Turn::Tie.win(), Turn::Tie);
    assert_eq!(Turn::Red.get_piece(), Piece::Red);
    assert_eq!(Turn::Yellow.get_piece(), Piece::Yellow);
    assert_eq!(Turn::RedWon.get_piece(), Piece::Empty);
    assert_eq!(Turn::Tie.get_piece(), Piece::Empty);
}

#[test]
fn words_of_a_game_are_those_of_its_moves() {
    assert_eq!(played("4").get_bitboards(), (0, 2097152));
    assert_eq!(played("44").get_bitboards(), (2097152, 6291456));
    assert_eq!(played("4455").get_bitboards(), (270532608, 811597824));
    for moves in ["", "4", "4455", "1224333447", "3333331", &DRAWN_GAME[..41]] {
        let from_game = Bitboard::from(played(moves));
        assert_eq!(format!("{:?}", from_game), format!("{:?}", Bitboard::from_moves(moves)), "{}", moves);
    }
}

#[test]
fn finished_game_has_no_stones_of_the_player_to_move() {
    let (position, mask) = played("1212121").get_bitboards();
    assert_eq!(position, 0);
    assert_eq!(mask, 0b1111 | 0b111 << 7);
}

#[test]
fn random_move_puts_one_piece_into_the_frame() {
    let mut rng = rand::thread_rng();
    for _ in 0..200 {
        let mut game = Game::new();
        game.make_random_move(&mut rng);
        assert_eq!(pieces(&game), 1);
        assert_eq!(game.turn(), Turn::Yellow);
        game.make_random_move(&mut rng);
        assert_eq!(pieces(&game), 2);
        assert_eq!(game.turn(), Turn::Red);
    }
}

#[test]
fn random_moves_reach_every_column() {
    let mut rng = rand::thread_rng();
    let mut reached = [false; 7];
    for _ in 0..2000 {
        let mut game = Game::new();
        game.make_random_move(&mut rng);
        for column in 0..7 {
            if game.piece_at(column, 0) == Piece::Red {
                reached[column] = true;
            }
        }
    }
    assert_eq!(reached, [true; 7]);
}

#[test]
fn copy_of_a_game_is_the_same_game() {
    let game = played("4455");
    let copy = game.clone();
    assert_eq!(format!("{:?}", copy), format!("{:?}", game));
}

#[test]
fn click_is_a_button_that_goes_down() {
    let mut model = Model { game: Game::new(), mouse_clicked: false, rng: rand::thread_rng() };
    model.pointer(false, 3);
    assert_eq!(pieces(&model.game), 0);
    assert!(!model.mouse_clicked);
    model.pointer(true, 3);
    assert_eq!(model.game.piece_at(3, 0), Piece::Red);
    assert!(model.mouse_clicked);
    // The button is held: no second move.
    model.pointer(true, 3);
    assert_eq!(pieces(&model.game), 1);
    assert!(model.mouse_clicked);
    model.pointer(false, 3);
    assert_eq!(pieces(&model.game), 1);
    assert!(!model.mouse_clicked);
    model.pointer(true, 6);
    assert_eq!(model.game.piece_at(6, 0), Piece::Yellow);
    assert_eq!(pieces(&model.game), 2);
}

#[test]
fn computer_moves_when_it_is_yellows_turn() {
    let mut model = Model { game: Game::new(), mouse_clicked: false, rng: rand::thread_rng() };
    assert!(!model.computer_turn());
    assert_eq!(pieces(&model.game), 0);
    model.pointer(true, 0);
    assert_eq!(model.game.turn(), Turn::Yellow);
    assert!(model.computer_turn());
    assert_eq!(pieces(&model.game), 2);
    assert_eq!(model.game.turn(), Turn::Red);
    assert!(model.mouse_clicked);
    assert!(!model.computer_turn());
    assert_eq!(pieces(&model.game), 2);
}
