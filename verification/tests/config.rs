use scrabble_core::config::{TileInfo, TileSet, TileSetError, WILDCARD};

#[test]
fn tile_info_wildcard_flag() {
    let plain = TileInfo::new('A', 9, 1);
    assert_eq!(plain.c(), 'A');
    assert_eq!(plain.occurences(), 9);
    assert_eq!(plain.score(), 1);
    assert!(!plain.tile().wildcard());

    let blank = TileInfo::new(WILDCARD, 2, 0);
    assert!(blank.tile().wildcard());
    assert_eq!(blank.score(), 0);
}

#[test]
fn get_points_finds_first_match() {
    let ts = TileSet::from_vec(vec![
        TileInfo::new('A', 9, 1),
        TileInfo::new('Q', 1, 10),
        TileInfo::new('*', 2, 0),
    ]);
    assert_eq!(ts.get_points('A'), 1);
    assert_eq!(ts.get_points('Q'), 10);
    assert_eq!(ts.get_points('*'), 0);
    // an unknown letter scores 0
    assert_eq!(ts.get_points('Z'), 0);
    assert_eq!(ts.infos().len(), 3);
}

#[test]
fn from_line_parses_fields() {
    let ti = TileInfo::from_line("A 9 1").unwrap();
    assert_eq!(ti.c(), 'A');
    assert_eq!(ti.occurences(), 9);
    assert_eq!(ti.score(), 1);
    assert!(!ti.tile().wildcard());

    let blank = TileInfo::from_line("  *  2   0 ").unwrap();
    assert_eq!(blank.c(), '*');
    assert!(blank.tile().wildcard());
    assert_eq!(blank.occurences(), 2);
}

#[test]
fn from_line_rejects_malformed_input() {
    assert_eq!(TileInfo::from_line("A 9"), Err(TileSetError::WrongFieldCount));
    assert_eq!(TileInfo::from_line("A 9 1 7"), Err(TileSetError::WrongFieldCount));
    assert_eq!(TileInfo::from_line(""), Err(TileSetError::WrongFieldCount));
    assert_eq!(TileInfo::from_line("AB 9 1"), Err(TileSetError::BadLetter));
    assert_eq!(TileInfo::from_line("A x 1"), Err(TileSetError::BadOccurrences));
    assert_eq!(TileInfo::from_line("A 99999999999 1"), Err(TileSetError::BadOccurrences));
    assert_eq!(TileInfo::from_line("A 9 x"), Err(TileSetError::BadScore));
    assert_eq!(TileInfo::from_line("A 9 300"), Err(TileSetError::BadScore));
}

#[test]
fn from_lines_builds_a_set() {
    let lines = vec![String::from("A 9 1"), String::from("Q 1 10"), String::from("* 2 0")];
    let ts = TileSet::from_lines(&lines).unwrap();
    assert_eq!(ts.infos().len(), 3);
    assert_eq!(ts.get_points('Q'), 10);

    let bad = vec![String::from("A 9 1"), String::from("oops")];
    assert_eq!(TileSet::from_lines(&bad).err(), Some(TileSetError::WrongFieldCount));
}
