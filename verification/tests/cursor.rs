use measurements::parser::ParserInput;

#[test]
fn test_char_offset() {
    assert_eq!(ParserInput::new("½2", 0).char_index(2), 1);
    assert_eq!(ParserInput::new("½2", 0).char_index(3), 2);
}

#[test]
fn test_range() {
    assert_eq!(ParserInput::new("½2", 0).range(), 0..2);
    assert_eq!(ParserInput::new("12", 0).range(), 0..2);
    assert_eq!(ParserInput::new("½½", 0).range(), 0..2);
    assert_eq!(ParserInput::new("1½1", 0).range(), 0..3);
    assert_eq!(ParserInput::new("1½1", 1).range(), 1..4);
    assert_eq!(ParserInput::new("1½1", 2).range(), 2..5);
}

#[test]
fn char_index_is_relative_to_the_document() {
    assert_eq!(ParserInput::new("½2", 10).char_index(0), 10);
    assert_eq!(ParserInput::new("½2", 10).char_index(1), 11);
    assert_eq!(ParserInput::new("½2", 10).char_index(2), 11);
    assert_eq!(ParserInput::new("½2", 10).char_index(3), 12);
    assert_eq!(ParserInput::new("½2", 10).char_index(99), 12);
}

#[test]
fn cursor_from_a_document_starts_at_zero() {
    let cursor = ParserInput::from("1 ½ cup");
    assert_eq!(cursor, ParserInput::new("1 ½ cup", 0));
    assert_eq!(cursor.input(), "1 ½ cup");
    assert_eq!(cursor.range(), 0..7);
    assert_eq!(cursor.char_len(), 7);
}

#[test]
fn cursor_skips_and_takes_characters() {
    let cursor = ParserInput::new("1 ½ cup", 3);
    let rest = cursor.skip_chars(3);
    assert_eq!(rest.input(), " cup");
    assert_eq!(rest.range(), 6..10);
    let first = cursor.take_chars(3);
    assert_eq!(first.input(), "1 ½");
    assert_eq!(first.range(), 3..6);
    assert_eq!(cursor.skip_chars(7).input(), "");
    assert_eq!(cursor.skip_chars(7).range(), 10..10);
    assert_eq!(cursor.take_chars(0).range(), 3..3);
}
