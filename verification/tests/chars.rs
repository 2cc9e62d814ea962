use oraide::chars::{
    is_dec_digit_continue, is_dec_digit_start, is_digit_or_numeric_symbol, is_identifier_continue,
    is_identifier_start, is_symbol,
};
use oraide::{ByteCount, ByteIndex, FileId, FileSpan};

#[test]
fn symbol_characters() {
    for c in ['~', '!', '@', ':', '|', '&', '#', '^'] {
        assert!(is_symbol(c));
    }
    for c in ['-', '.', 'a', ' ', '%', '$'] {
        assert!(!is_symbol(c));
    }
}

#[test]
fn numeric_characters() {
    for c in ['-', '.', '0', '5', '9'] {
        assert!(is_digit_or_numeric_symbol(c));
        assert!(is_dec_digit_continue(c));
    }
    assert!(!is_digit_or_numeric_symbol('a'));
    assert!(!is_digit_or_numeric_symbol('+'));
    assert!(!is_digit_or_numeric_symbol('\u{661}'));
    assert!(is_dec_digit_start('-'));
    assert!(is_dec_digit_start('7'));
    assert!(!is_dec_digit_start('.'));
    assert!(!is_dec_digit_start('x'));
}

#[test]
fn identifier_characters() {
    for c in ['a', 'z', 'A', 'Z', '_'] {
        assert!(is_identifier_start(c));
        assert!(is_identifier_continue(c));
    }
    assert!(!is_identifier_start('1'));
    assert!(!is_identifier_start('-'));
    assert!(!is_identifier_start('\u{e9}'));
    for c in ['1', '-', '.'] {
        assert!(is_identifier_continue(c));
    }
    assert!(!is_identifier_continue(' '));
    assert!(!is_identifier_continue(':'));
}

#[test]
fn byte_counts_of_characters() {
    assert_eq!(ByteCount::from_char_len_utf8('A'), ByteCount(1));
    assert_eq!(ByteCount::from_char_len_utf8('\u{df}'), ByteCount(2));
    assert_eq!(ByteCount::from_char_len_utf8('\u{211d}'), ByteCount(3));
    assert_eq!(ByteCount::from_char_len_utf8('\u{1f4a3}'), ByteCount(4));
    assert_eq!(ByteIndex(3).advanced_by(ByteCount(4)), ByteIndex(7));
    assert_eq!(ByteIndex(9).to_usize(), 9);
}

#[test]
fn file_span_text() {
    let s = FileSpan::new(FileId(1), ByteIndex(1), ByteIndex(3));
    assert_eq!(s.source(), FileId(1));
    assert_eq!(s.start(), ByteIndex(1));
    assert_eq!(s.end_exclusive(), ByteIndex(3));
    assert_eq!(s.text("abcd"), Some("bc"));
    assert_eq!(s.text("ab"), None);
    let backwards = FileSpan::new(FileId(1), ByteIndex(3), ByteIndex(1));
    assert_eq!(backwards.text("abcd"), None);
}
