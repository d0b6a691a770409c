use scrabble_core::gaddag::gaddag;

#[test]
fn gaddag_test() {
    let pouf = String::from("POUF");

    let answer = gaddag(pouf);
    assert_eq!(answer, vec!["P+OUF", "OP+UF", "UOP+F", "FUOP+"]);
}

#[test]
fn gaddag_variant_count_matches_length() {
    assert_eq!(gaddag(String::from("A")).len(), 1);
    assert_eq!(gaddag(String::from("WORD")).len(), 4);
    assert_eq!(gaddag(String::from("")).len(), 0);
}

#[test]
fn gaddag_single_letter() {
    assert_eq!(gaddag(String::from("A")), vec!["A+"]);
}

#[test]
fn gaddag_variants_reconstruct() {
    let variants = gaddag(String::from("GAME"));
    for v in &variants {
        let sep = v.find('+').unwrap();
        let prefix: String = v[..sep].chars().rev().collect();
        let suffix = &v[sep + 1..];
        assert_eq!(format!("{}{}", prefix, suffix), "GAME");
    }
}
