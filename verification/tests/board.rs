use scrabble_core::board::Board;
use scrabble_core::bonuses::{LetterBonus, WordBonus};
use scrabble_core::smove::{Direction, Move};
use scrabble_core::tile::Tile;

fn word_move(x: u8, y: u8, word: &str, direction: Direction) -> Move {
    Move::new(x, y, String::from(word), direction)
}

#[test]
fn new_board_is_empty() {
    let board = Board::new();
    for y in 0..15 {
        for x in 0..15 {
            assert_eq!(board.get_letter(x, y), None);
            assert!(board.get_tile(x, y).is_none());
        }
    }
}

#[test]
fn standard_bonus_layout_samples() {
    let board = Board::new();
    // corners and edge midpoints carry triple word
    assert_eq!(board.get_bonuses(0, 0), (LetterBonus::Plain, WordBonus::Triple));
    assert_eq!(board.get_bonuses(7, 0), (LetterBonus::Plain, WordBonus::Triple));
    assert_eq!(board.get_bonuses(14, 14), (LetterBonus::Plain, WordBonus::Triple));
    // the centre carries double word
    assert_eq!(board.get_bonuses(7, 7), (LetterBonus::Plain, WordBonus::Double));
    // (3, 0) is flat index 3: double letter
    assert_eq!(board.get_bonuses(3, 0), (LetterBonus::Double, WordBonus::Plain));
    // (5, 1) is flat index 20: triple letter
    assert_eq!(board.get_bonuses(5, 1), (LetterBonus::Triple, WordBonus::Plain));
    // an ordinary cell
    assert_eq!(board.get_bonuses(2, 1), (LetterBonus::Plain, WordBonus::Plain));
}

#[test]
fn can_place_rejects_past_last_column() {
    let board = Board::new();
    // 13 + 3 > 15: the word would extend past column 14
    assert!(!board.can_place(&word_move(13, 7, "CAT", Direction::Horizontal)));
    // 12 + 3 == 15: the word ends exactly on column 14
    assert!(board.can_place(&word_move(12, 7, "CAT", Direction::Horizontal)));
}

#[test]
fn can_place_rejects_past_last_row() {
    let board = Board::new();
    assert!(!board.can_place(&word_move(7, 13, "CAT", Direction::Vertical)));
    assert!(board.can_place(&word_move(7, 12, "CAT", Direction::Vertical)));
}

#[test]
fn overlap_mismatch_rejects_and_match_accepts() {
    let mut board = Board::new();
    let first = word_move(7, 7, "CAT", Direction::Horizontal);
    let tiles = vec![Tile::new('C', 3, false), Tile::new('A', 1, false), Tile::new('T', 1, false)];
    assert!(board.can_place(&first));
    board.add_move(first, tiles);

    // crossing the 'A' at (8, 7) with a mismatching letter is rejected
    let clash = word_move(8, 6, "TO", Direction::Vertical);
    assert!(!board.can_place(&clash));

    // crossing it with a matching letter is accepted, and the occupied
    // cell contributes nothing to the needed letters
    let along = word_move(8, 6, "TAN", Direction::Vertical);
    assert!(board.can_place(&along));
    assert_eq!(board.needed_letters(&along), vec!['T', 'N']);
}

#[test]
fn commit_preserves_existing_tiles() {
    let mut board = Board::new();
    let first = word_move(7, 7, "CAT", Direction::Horizontal);
    let tiles = vec![Tile::new('C', 3, false), Tile::new('A', 1, false), Tile::new('T', 1, false)];
    board.add_move(first, tiles);

    let second = word_move(8, 6, "TAN", Direction::Vertical);
    let needed = board.needed_letters(&second);
    assert_eq!(needed, vec!['T', 'N']);
    board.add_move(second, vec![Tile::new('T', 1, false), Tile::new('N', 1, false)]);

    // every cell occupied before the second move holds its original tile
    assert_eq!(board.get_tile(7, 7), Some(Tile::new('C', 3, false)));
    assert_eq!(board.get_tile(8, 7), Some(Tile::new('A', 1, false)));
    assert_eq!(board.get_tile(9, 7), Some(Tile::new('T', 1, false)));
    // and the new cells hold the new tiles
    assert_eq!(board.get_letter(8, 6), Some('T'));
    assert_eq!(board.get_letter(8, 8), Some('N'));
}

#[test]
fn score_baseline_no_bonus() {
    let board = Board::new();
    // cells (2,1), (3,1), (4,1) carry no bonus
    let mv = word_move(2, 1, "CAT", Direction::Horizontal);
    let tiles = vec![Tile::new('C', 3, false), Tile::new('A', 1, false), Tile::new('T', 1, false)];
    assert_eq!(board.score(&mv, &tiles), 5);
}

#[test]
fn score_center_double_word() {
    // the concrete scenario: anchor (8,8) 1-indexed is (7,7) 0-indexed,
    // the centre cell, which carries a double-word bonus
    let board = Board::new();
    let mv = word_move(7, 7, "CAT", Direction::Horizontal);
    let tiles = vec![Tile::new('C', 3, false), Tile::new('A', 1, false), Tile::new('T', 1, false)];
    assert!(board.can_place(&mv));
    assert_eq!(board.needed_letters(&mv), vec!['C', 'A', 'T']);
    assert_eq!(board.score(&mv, &tiles), 10);
}

#[test]
fn score_counts_cross_words() {
    let mut board = Board::new();
    let first = word_move(7, 7, "CAT", Direction::Horizontal);
    board.add_move(
        first,
        vec![Tile::new('C', 3, false), Tile::new('A', 1, false), Tile::new('T', 1, false)],
    );

    // "ON" horizontally at (8, 8): the 'O' lands on a double-letter cell
    // under the 'A', the 'N' under the 'T'.
    // primary word: O on double letter = 2, N = 1; no word bonus.
    // cross word at O: 2 (bonus-adjusted O) + 1 (A above) = 3.
    // cross word at N: 1 + 1 (T above) = 2.
    // total: (2 + 1) * 1 + 3 + 2 = 8.
    let mv = word_move(8, 8, "ON", Direction::Horizontal);
    assert!(board.can_place(&mv));
    let tiles = vec![Tile::new('O', 1, false), Tile::new('N', 1, false)];
    assert_eq!(board.score(&mv, &tiles), 8);
}

#[test]
fn score_skips_bonus_of_occupied_cell() {
    let mut board = Board::new();
    // "CAT" through the centre, consuming its double-word bonus
    board.add_move(
        word_move(7, 7, "CAT", Direction::Horizontal),
        vec![Tile::new('C', 3, false), Tile::new('A', 1, false), Tile::new('T', 1, false)],
    );
    // "CO" vertically reuses the placed 'C': the centre's word bonus must
    // not apply again.  C = 3 (fixed value), O = 1, cell (7,8) is plain.
    let mv = word_move(7, 7, "CO", Direction::Vertical);
    assert!(board.can_place(&mv));
    assert_eq!(board.needed_letters(&mv), vec!['O']);
    let tiles = vec![Tile::new('O', 1, false)];
    assert_eq!(board.score(&mv, &tiles), 4);
}

#[test]
fn wildcard_binds_on_commit_and_stays_bound() {
    let mut board = Board::new();
    let mv = word_move(2, 1, "AXE", Direction::Horizontal);
    // the middle tile is an unbound wildcard with the placeholder letter
    let tiles = vec![Tile::new('A', 1, false), Tile::new('*', 0, true), Tile::new('E', 1, false)];
    board.add_move(mv, tiles);

    // the wildcard shows the path's character, never the placeholder
    assert_eq!(board.get_letter(3, 1), Some('X'));
    let placed = board.get_tile(3, 1).unwrap();
    assert_eq!(placed.letter(), 'X');
    assert!(placed.wildcard());
    assert_eq!(placed.points(), 0);
    // re-reading yields the same bound letter
    assert_eq!(board.get_letter(3, 1), Some('X'));
    assert_eq!(board.get_letter(3, 1), Some('X'));
}

#[test]
fn empty_word_is_a_no_op() {
    let board = Board::new();
    let mv = word_move(7, 7, "", Direction::Horizontal);
    assert!(board.can_place(&mv));
    assert!(board.needed_letters(&mv).is_empty());
    assert_eq!(board.score(&mv, &vec![]), 0);
}

#[test]
fn full_row_word_fits_exactly() {
    let board = Board::new();
    let fifteen = "ABCDEFGHIJKLMNO";
    assert!(board.can_place(&word_move(0, 3, fifteen, Direction::Horizontal)));
    assert!(!board.can_place(&word_move(1, 3, fifteen, Direction::Horizontal)));
    assert!(board.can_place(&word_move(3, 0, fifteen, Direction::Vertical)));
    assert!(!board.can_place(&word_move(3, 1, fifteen, Direction::Vertical)));
}

#[test]
fn wildcard_scores_zero() {
    let board = Board::new();
    // wildcard on a plain path: only the other letters count
    let mv = word_move(2, 1, "AXE", Direction::Horizontal);
    let tiles = vec![Tile::new('A', 1, false), Tile::new('*', 0, true), Tile::new('E', 1, false)];
    assert_eq!(board.score(&mv, &tiles), 2);
}
