//! Unit tests for the text sequence: lookup, line-end queries and atomic
//! range replacement.

use overwrite_mode::TextBuffer;

fn seq_of(s: &str) -> Vec<char> {
    s.chars().collect()
}

#[test]
fn construction_and_lookup() {
    let b = TextBuffer::from_chars(seq_of("a\nb"));
    assert_eq!(b.len(), 3);
    assert_eq!(b.char_at(0), 'a');
    assert_eq!(b.char_at(1), '\n');
    assert_eq!(b.char_at(2), 'b');
    assert_eq!(b.chars(), &seq_of("a\nb"));
    assert_eq!(b.clone_chars(), seq_of("a\nb"));
    let e = TextBuffer::new();
    assert_eq!(e.len(), 0);
}

#[test]
fn line_end_positions() {
    let b = TextBuffer::from_chars(seq_of("a\nb"));
    assert!(!b.is_line_end(0));
    assert!(b.is_line_end(1));
    assert!(!b.is_line_end(2));
    assert!(b.is_line_end(3));
}

#[test]
fn splice_replaces_inserts_and_deletes() {
    let mut b = TextBuffer::from_chars(seq_of("abcde"));
    b.splice(1, 3, &seq_of("XY"));
    assert_eq!(b.chars(), &seq_of("aXYde"));
    b.splice(2, 2, &seq_of("++"));
    assert_eq!(b.chars(), &seq_of("aX++Yde"));
    b.splice(0, 4, &seq_of(""));
    assert_eq!(b.chars(), &seq_of("Yde"));
    b.splice(3, 3, &seq_of("!"));
    assert_eq!(b.chars(), &seq_of("Yde!"));
}
