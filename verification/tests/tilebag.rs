use scrabble_core::config::{TileInfo, TileSet};
use scrabble_core::tilebag::TileBag;

#[test]
fn bag_holds_the_whole_distribution() {
    let ts = TileSet::from_vec(vec![TileInfo::new('A', 3, 1), TileInfo::new('B', 2, 3)]);
    let mut bag = TileBag::new(&ts);
    assert!(!bag.is_empty());

    let mut letters: Vec<char> = Vec::new();
    while let Some(t) = bag.pick() {
        letters.push(t.letter());
    }
    letters.sort();
    assert_eq!(letters, vec!['A', 'A', 'A', 'B', 'B']);
    assert!(bag.is_empty());
}

#[test]
fn empty_set_gives_empty_bag() {
    let ts = TileSet::from_vec(vec![]);
    let mut bag = TileBag::new(&ts);
    assert!(bag.is_empty());
    assert!(bag.pick().is_none());
}

#[test]
fn pick_hands_tiles_out_one_by_one() {
    let ts = TileSet::from_vec(vec![TileInfo::new('Z', 1, 10)]);
    let mut bag = TileBag::new(&ts);
    let t = bag.pick().unwrap();
    assert_eq!(t.letter(), 'Z');
    assert_eq!(t.points(), 10);
    assert!(bag.pick().is_none());
}
