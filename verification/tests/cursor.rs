use funs::lexer::cursor::Cursor;
use funs::source::Source;

#[test]
fn test_lexer_cursor_peek() {
    let source = Source::from("test_id".to_string());
    let cursor = Cursor::from(&source);
    assert_eq!(cursor.peek(), Some('t'));
}

#[test]
fn test_lexer_cursor_consume() {
    let source = Source::from("test_id".to_string());
    let mut cursor = Cursor::from(&source);
    cursor.consume();
    assert_eq!(cursor.location().column_start(), 1);
    assert_eq!(cursor.location().column_end(), 1);
}

#[test]
fn test_lexer_cursor_advance() {
    let source = Source::from("test_id".to_string());
    let mut cursor = Cursor::from(&source);
    cursor.advance_offset();
    assert_eq!(cursor.location().column_start(), 0);
    assert_eq!(cursor.location().column_end(), 1);
}

#[test]
fn test_lexer_cursor_align() {
    let source = Source::from("test_id".to_string());
    let mut cursor = Cursor::from(&source);
    cursor.advance_offset();
    cursor.align();
    assert_eq!(cursor.location().column_start(), 1);
    assert_eq!(cursor.location().column_end(), 1);
}

#[test]
fn cursor_starts_at_the_start() {
    let source = Source::new("a.fs".to_string(), "ab".to_string());
    let cursor = Cursor::from(&source);
    assert_eq!(cursor.index(), 0);
    assert_eq!(cursor.offset(), 0);
    assert_eq!(cursor.location().line(), 0);
    assert_eq!(cursor.location().file_path, "a.fs");
    assert_eq!(cursor.source().file_path(), "a.fs");
    assert_eq!(cursor.source().content(), &vec!['a', 'b']);
    assert!(!cursor.is_eof());
}

#[test]
fn cursor_stops_at_the_end() {
    let source = Source::from("a".to_string());
    let mut cursor = Cursor::from(&source);
    cursor.advance_offset();
    assert!(cursor.is_eof());
    assert_eq!(cursor.peek(), None);
    cursor.advance_offset();
    cursor.consume();
    cursor.new_line();
    assert_eq!((cursor.index(), cursor.offset()), (0, 1));
    assert_eq!(cursor.location().line(), 0);
    assert_eq!(cursor.location().column_end(), 1);
    let empty = Cursor::from(&Source::from(String::new()));
    assert!(empty.is_eof());
    assert_eq!(empty.peek(), None);
}

#[test]
fn cursor_consume_moves_both_ends() {
    let source = Source::from("test".to_string());
    let mut cursor = Cursor::from(&source);
    cursor.consume();
    cursor.consume();
    assert_eq!((cursor.index(), cursor.offset()), (2, 2));
    assert_eq!(cursor.location().column_start(), 2);
    assert_eq!(cursor.location().column_end(), 2);
    assert_eq!(cursor.peek(), Some('s'));
}

#[test]
fn cursor_lexeme_is_the_pending_text() {
    let source = Source::from("let x".to_string());
    let mut cursor = Cursor::from(&source);
    cursor.advance_offset();
    cursor.advance_offset();
    cursor.advance_offset();
    assert_eq!(cursor.lexeme(), "let");
    cursor.align();
    assert_eq!(cursor.lexeme(), "");
    assert_eq!((cursor.index(), cursor.offset()), (3, 3));
}

#[test]
fn cursor_new_line_resets_the_columns() {
    let source = Source::from("test\ntest2".to_string());
    let mut cursor = Cursor::from(&source);
    for _ in 0..4 {
        cursor.consume();
    }
    cursor.new_line();
    assert_eq!(cursor.location().line(), 1);
    assert_eq!(cursor.location().column_start(), 0);
    assert_eq!(cursor.location().column_end(), 0);
    assert_eq!((cursor.index(), cursor.offset()), (4, 5));
    assert_eq!(cursor.lexeme(), "\n");
    assert_eq!(cursor.peek(), Some('t'));
}

#[test]
fn cursor_removes_the_character_ahead() {
    let source = Source::from("a\r\nb".to_string());
    let mut cursor = Cursor::from(&source);
    cursor.consume();
    cursor.remove_carriage_return();
    assert_eq!(cursor.source().content(), &vec!['a', '\n', 'b']);
    assert_eq!((cursor.index(), cursor.offset()), (1, 1));
    assert_eq!(cursor.location().column_start(), 1);
    assert_eq!(cursor.peek(), Some('\n'));
    assert_eq!(source.content(), &vec!['a', '\r', '\n', 'b']);
}

#[test]
fn cursor_counts_characters_not_bytes() {
    let source = Source::from("\u{e9}\u{e8}x".to_string());
    let mut cursor = Cursor::from(&source);
    assert_eq!(cursor.peek(), Some('\u{e9}'));
    cursor.advance_offset();
    cursor.advance_offset();
    assert_eq!(cursor.lexeme(), "\u{e9}\u{e8}");
    assert_eq!(cursor.location().column_end(), 2);
    assert_eq!(cursor.peek(), Some('x'));
}

#[test]
fn source_content_can_be_edited() {
    let mut source = Source::from("ab".to_string());
    source.content_mut().push('c');
    assert_eq!(source.content(), &vec!['a', 'b', 'c']);
    assert_eq!(source.file_path(), "");
    let copy = source.clone();
    assert_eq!(copy.content(), source.content());
}
