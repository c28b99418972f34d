use river_swww::applier::split_spaces;

#[test]
fn split_empty_string_gives_one_empty_piece() {
    assert_eq!(split_spaces(""), vec![String::new()]);
}

#[test]
fn split_single_word() {
    assert_eq!(split_spaces("abc"), vec!["abc".to_string()]);
}

#[test]
fn split_two_words() {
    assert_eq!(split_spaces("--transition-type any"), vec![
        "--transition-type".to_string(),
        "any".to_string(),
    ]);
}

#[test]
fn split_consecutive_spaces_keep_empty_pieces() {
    assert_eq!(split_spaces("a  b"), vec!["a".to_string(), String::new(), "b".to_string()]);
}

#[test]
fn split_leading_and_trailing_spaces() {
    assert_eq!(split_spaces(" a "), vec![String::new(), "a".to_string(), String::new()]);
}
