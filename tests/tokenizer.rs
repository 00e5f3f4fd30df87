use runpack::{parse_token, tokenize, Cell};

fn cells(src: &str) -> Vec<Cell> {
    tokenize(src)
}

#[test]
fn literals_round_trip() {
    let first = cells("1 -7 2.5 true false 1e3 +4 nan dup @def");
    let text: Vec<String> = first
        .iter()
        .map(|c| match c {
            Cell::Integer(i) => i.to_string(),
            Cell::Float(f) => f.clone(),
            Cell::Boolean(b) => b.to_string(),
            Cell::Word(w) => w.clone(),
            other => panic!("not a literal: {:?}", other),
        })
        .collect();
    let again = cells(&text.join(" "));
    assert_eq!(first, again);
    assert_eq!(first[0], Cell::Integer(1));
    assert_eq!(first[1], Cell::Integer(-7));
    assert_eq!(first[2], Cell::Float("2.5".to_string()));
    assert_eq!(first[3], Cell::Boolean(true));
    assert_eq!(first[5], Cell::Float("1e3".to_string()));
    assert_eq!(first[6], Cell::Integer(4));
    assert_eq!(first[7], Cell::Float("nan".to_string()));
    assert_eq!(first[8], Cell::Word("dup".to_string()));
    assert_eq!(first.len(), 10);
}

#[test]
fn strings_and_escapes() {
    let c = cells(r"'it\'s' 'a\\b' ''");
    assert_eq!(c, vec![
        Cell::String("it's".to_string()),
        Cell::String("a\\b".to_string()),
        Cell::String(String::new()),
    ]);
}

#[test]
fn comments_and_commas_are_skipped() {
    let c = cells("1,2 \"a comment, with 3\" word");
    assert_eq!(c, vec![Cell::Integer(1), Cell::Integer(2), Cell::Word("word".to_string())]);
}

#[test]
fn classification_order() {
    assert_eq!(parse_token(b"42".to_vec()), Some(Cell::Integer(42)));
    assert_eq!(parse_token(b"9223372036854775808".to_vec()), Some(Cell::Float("9223372036854775808".to_string())));
    assert_eq!(parse_token(b"-9223372036854775808".to_vec()), Some(Cell::Integer(i64::MIN)));
    assert_eq!(parse_token(b".5".to_vec()), Some(Cell::Float(".5".to_string())));
    assert_eq!(parse_token(b"5.".to_vec()), Some(Cell::Float("5.".to_string())));
    assert_eq!(parse_token(b"Infinity".to_vec()), Some(Cell::Float("Infinity".to_string())));
    assert_eq!(parse_token(b"1e".to_vec()), Some(Cell::Word("1e".to_string())));
    assert_eq!(parse_token(b".".to_vec()), Some(Cell::Word(".".to_string())));
    assert_eq!(parse_token(b"-".to_vec()), Some(Cell::Word("-".to_string())));
    assert_eq!(parse_token(b"true".to_vec()), Some(Cell::Boolean(true)));
    assert_eq!(parse_token(b"True".to_vec()), Some(Cell::Word("True".to_string())));
    assert_eq!(parse_token(vec![0xff, 0x41]), None);
}

#[test]
fn empty_input_has_no_cells() {
    assert!(cells("").is_empty());
    assert!(cells("  \"only a comment\" , ").is_empty());
}
