use scrabble_core::smove::{Direction, Move};
use scrabble_core::spot::Spot;
use scrabble_core::tile::Tile;

#[test]
fn tile_accessors() {
    let t = Tile::new('Q', 10, false);
    assert_eq!(t.letter(), 'Q');
    assert_eq!(t.points(), 10);
    assert!(!t.wildcard());
}

#[test]
fn set_wildcard_only_binds_wildcards() {
    let mut blank = Tile::new('*', 0, true);
    blank.set_wildcard('Z');
    assert_eq!(blank.letter(), 'Z');
    assert!(blank.wildcard());

    let mut plain = Tile::new('A', 1, false);
    plain.set_wildcard('Z');
    assert_eq!(plain.letter(), 'A');
}

#[test]
fn spot_reports_its_bonuses() {
    let s = Spot::new();
    assert!(s.tile.is_none());
    assert_eq!(s.get_bonuses_value(), (1, 1));
}

#[test]
fn move_accessors() {
    let mv = Move::new(3, 4, String::from("WORD"), Direction::Vertical);
    assert_eq!(mv.x(), 3);
    assert_eq!(mv.y(), 4);
    assert_eq!(mv.word(), "WORD");
    assert!(matches!(mv.direction(), Direction::Vertical));
}
