use scrabble_core::config::{TileInfo, TileSet};
use scrabble_core::hand::Hand;
use scrabble_core::tilebag::TileBag;

fn sorted_letters(hand: &Hand) -> Vec<char> {
    let mut letters: Vec<char> = hand.get().iter().map(|t| t.letter()).collect();
    letters.sort();
    letters
}

/// A bag holding only copies of the given letters (1 point each).
fn bag_of(letters: &[(char, u32)]) -> TileBag {
    let infos: Vec<TileInfo> =
        letters.iter().map(|&(c, n)| TileInfo::new(c, n, if c == '*' { 0 } else { 1 })).collect();
    TileBag::new(&TileSet::from_vec(infos))
}

#[test]
fn new_hand_is_empty() {
    let hand = Hand::new();
    assert_eq!(hand.get().len(), 0);
}

#[test]
fn draw_fills_up_to_seven() {
    let mut bag = bag_of(&[('A', 9)]);
    let mut hand = Hand::new();
    hand.draw(&mut bag);
    assert_eq!(hand.get().len(), 7);
    assert!(!bag.is_empty());
    // a second draw on a full hand changes nothing
    hand.draw(&mut bag);
    assert_eq!(hand.get().len(), 7);
}

#[test]
fn draw_stops_when_bag_runs_out() {
    let mut bag = bag_of(&[('B', 3)]);
    let mut hand = Hand::new();
    hand.draw(&mut bag);
    assert_eq!(sorted_letters(&hand), vec!['B', 'B', 'B']);
    assert!(bag.is_empty());
}

#[test]
fn contains_matches_letters_and_wildcards() {
    let mut bag = bag_of(&[('A', 2), ('*', 1)]);
    let mut hand = Hand::new();
    hand.draw(&mut bag);
    assert!(hand.contains(&vec!['A']));
    assert!(hand.contains(&vec!['A', 'A']));
    // the third 'A' is covered by the wildcard
    assert!(hand.contains(&vec!['A', 'A', 'A']));
    assert!(!hand.contains(&vec!['A', 'A', 'A', 'A']));
    // a letter not in hand falls back to the wildcard, once
    assert!(hand.contains(&vec!['Z']));
    assert!(!hand.contains(&vec!['Z', 'Z']));
    // contains never mutates the hand
    assert_eq!(hand.get().len(), 3);
}

#[test]
fn remove_is_atomic() {
    let mut bag = bag_of(&[('A', 2), ('B', 1)]);
    let mut hand = Hand::new();
    hand.draw(&mut bag);
    let before = sorted_letters(&hand);

    // the hand cannot supply the letters: nothing is returned, nothing
    // changes
    assert!(!hand.contains(&vec!['A', 'C']));
    assert!(hand.remove(&vec!['A', 'C']).is_none());
    assert_eq!(sorted_letters(&hand), before);
}

#[test]
fn remove_takes_exact_matches_first() {
    let mut bag = bag_of(&[('A', 1), ('*', 1)]);
    let mut hand = Hand::new();
    hand.draw(&mut bag);

    let taken = hand.remove(&vec!['A']).unwrap();
    assert_eq!(taken.len(), 1);
    // the exact match is preferred over the wildcard
    assert!(!taken[0].wildcard());
    assert_eq!(taken[0].letter(), 'A');
    // the wildcard stays behind
    let left = hand.get();
    assert_eq!(left.len(), 1);
    assert!(left[0].wildcard());
}

#[test]
fn remove_falls_back_to_wildcard() {
    let mut bag = bag_of(&[('A', 1), ('*', 1)]);
    let mut hand = Hand::new();
    hand.draw(&mut bag);

    let taken = hand.remove(&vec!['Q']).unwrap();
    assert_eq!(taken.len(), 1);
    assert!(taken[0].wildcard());
    assert_eq!(hand.get().len(), 1);
}

#[test]
fn remove_of_nothing_returns_none() {
    let mut bag = bag_of(&[('A', 2)]);
    let mut hand = Hand::new();
    hand.draw(&mut bag);
    assert!(hand.remove(&vec![]).is_none());
    assert_eq!(hand.get().len(), 2);
}
