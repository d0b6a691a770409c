use scrabble_core::board::Board;
use scrabble_core::config::{TileInfo, TileSet};
use scrabble_core::dico::Dico;
use scrabble_core::hand::Hand;
use scrabble_core::smove::{Direction, Move};
use scrabble_core::tilebag::TileBag;
use scrabble_core::turn::{player_turn, MoveError};

fn full_hand(letters: &[char]) -> Hand {
    let infos: Vec<TileInfo> = letters.iter().map(|&c| TileInfo::new(c, 1, 1)).collect();
    let mut bag = TileBag::new(&TileSet::from_vec(infos));
    let mut hand = Hand::new();
    hand.draw(&mut bag);
    hand
}

fn cat_dico() -> Dico {
    let mut d = Dico::new();
    d.add_word("CAT");
    d
}

#[test]
fn turn_accepts_a_valid_move() {
    let board = Board::new();
    let dico = cat_dico();
    let mut hand = full_hand(&['C', 'A', 'T', 'X']);
    let mv = Move::new(7, 7, String::from("CAT"), Direction::Horizontal);

    let tiles = player_turn(&board, &dico, &mut hand, &mv).unwrap();
    let letters: Vec<char> = tiles.iter().map(|t| t.letter()).collect();
    assert_eq!(letters, vec!['C', 'A', 'T']);
    assert_eq!(hand.get().len(), 1);
}

#[test]
fn turn_rejects_unknown_word() {
    let board = Board::new();
    let dico = cat_dico();
    let mut hand = full_hand(&['D', 'O', 'G']);
    let mv = Move::new(7, 7, String::from("DOG"), Direction::Horizontal);

    assert_eq!(player_turn(&board, &dico, &mut hand, &mv), Err(MoveError::NotInDictionary));
    assert_eq!(hand.get().len(), 3);
}

#[test]
fn turn_rejects_word_off_the_board() {
    let board = Board::new();
    let dico = cat_dico();
    let mut hand = full_hand(&['C', 'A', 'T']);
    let mv = Move::new(13, 7, String::from("CAT"), Direction::Horizontal);

    assert_eq!(player_turn(&board, &dico, &mut hand, &mv), Err(MoveError::CannotPlace));
    assert_eq!(hand.get().len(), 3);
}

#[test]
fn turn_rejects_missing_letters() {
    let board = Board::new();
    let dico = cat_dico();
    let mut hand = full_hand(&['C', 'A', 'B']);
    let mv = Move::new(7, 7, String::from("CAT"), Direction::Horizontal);

    assert_eq!(player_turn(&board, &dico, &mut hand, &mv), Err(MoveError::MissingLetters));
    assert_eq!(hand.get().len(), 3);
}

#[test]
fn turn_rejects_a_move_placing_nothing() {
    let mut board = Board::new();
    let dico = cat_dico();
    let mut hand = full_hand(&['C', 'A', 'T', 'C', 'A', 'T']);

    let mv = Move::new(7, 7, String::from("CAT"), Direction::Horizontal);
    let tiles = player_turn(&board, &dico, &mut hand, &mv).unwrap();
    board.add_move(Move::new(7, 7, String::from("CAT"), Direction::Horizontal), tiles);

    // replaying the same word over its own tiles places nothing
    let replay = Move::new(7, 7, String::from("CAT"), Direction::Horizontal);
    assert_eq!(player_turn(&board, &dico, &mut hand, &replay), Err(MoveError::NoEffect));
    assert_eq!(hand.get().len(), 3);
}
