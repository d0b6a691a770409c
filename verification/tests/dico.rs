use scrabble_core::dico::Dico;
use scrabble_core::gaddag::gaddag;

#[test]
fn dico_membership() {
    let mut d = Dico::new();
    d.add_word("POUF");
    assert!(d.exists_word("POUF"));
    assert!(!d.exists_word("POU"));
    assert!(!d.exists_word("P"));
    assert!(!d.exists_word("POUFS"));
    assert!(!d.exists_word(""));
}

#[test]
fn dico_prefix_becomes_word_when_inserted() {
    let mut d = Dico::new();
    d.add_word("POUF");
    d.add_word("POU");
    assert!(d.exists_word("POU"));
    assert!(d.exists_word("POUF"));
    assert!(!d.exists_word("PO"));
}

#[test]
fn dico_insert_idempotent() {
    let mut d = Dico::new();
    d.add_word("CAT");
    d.add_word("CAT");
    assert!(d.exists_word("CAT"));
    assert!(!d.exists_word("CA"));
    assert!(!d.exists_word("CATS"));
}

#[test]
fn dico_shared_prefixes() {
    let mut d = Dico::new();
    d.add_word("CAR");
    d.add_word("CAT");
    d.add_word("DOG");
    assert!(d.exists_word("CAR"));
    assert!(d.exists_word("CAT"));
    assert!(d.exists_word("DOG"));
    assert!(!d.exists_word("CA"));
    assert!(!d.exists_word("DO"));
    assert!(!d.exists_word("CARS"));
}

#[test]
fn dico_empty_word() {
    let mut d = Dico::new();
    assert!(!d.exists_word(""));
    d.add_word("");
    assert!(d.exists_word(""));
}

#[test]
fn dico_load_inserts_each_line() {
    let mut d = Dico::new();
    d.add_word("SUN");
    d.load(&vec![String::from("CAR"), String::from("CAT")]);
    assert!(d.exists_word("SUN"));
    assert!(d.exists_word("CAR"));
    assert!(d.exists_word("CAT"));
    assert!(!d.exists_word("CA"));
}

#[test]
fn dico_gaddag_expanded_entries() {
    let mut d = Dico::new();
    for variant in gaddag(String::from("POUF")) {
        d.add_word(variant.as_str());
    }
    assert!(d.exists_word("P+OUF"));
    assert!(d.exists_word("FUOP+"));
    // the raw word was not inserted un-expanded
    assert!(!d.exists_word("POUF"));
}
