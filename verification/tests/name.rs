use hadris_fat::name::{eq_ignore_case, fold, utf16_chars, utf16_to_utf8};

#[test]
fn folds_case() {
    assert!(eq_ignore_case("Readme.TXT", "README.txt"));
    assert!(eq_ignore_case("\u{E9}t\u{E9}", "\u{C9}T\u{C9}"));
    assert!(!eq_ignore_case("abc", "abcd"));
    assert_eq!(fold('\u{DF}'), '\u{DF}');
}

#[test]
fn fold_uppercases_single_characters() {
    assert_eq!(fold('a'), 'A');
    assert_eq!(fold('Z'), 'Z');
    assert_eq!(fold('1'), '1');
    assert_eq!(fold('\u{E9}'), '\u{C9}');
    assert_eq!(fold('\u{3C3}'), '\u{3A3}');
    assert!(!eq_ignore_case("abc", "abd"));
}

#[test]
fn decodes_utf16() {
    let units: Vec<u16> = "a\u{1F600}\u{E9}".encode_utf16().collect();
    let mut out = [0u8; 16];
    let len = utf16_to_utf8(&units, &mut out).unwrap();
    assert_eq!(&out[..len], "a\u{1F600}\u{E9}".as_bytes());
    assert_eq!(utf16_to_utf8(&units, &mut out[..3]), None);
    let lone = [0xD800u16, b'x' as u16];
    let len = utf16_to_utf8(&lone, &mut out).unwrap();
    assert_eq!(&out[..len], "\u{FFFD}x".as_bytes());
}

#[test]
fn unpaired_surrogates_become_replacement_characters() {
    assert_eq!(utf16_chars(&[0xDC00, 0x41]), vec!['\u{FFFD}', 'A']);
    assert_eq!(utf16_chars(&[0xD83D, 0xDE00]), vec!['\u{1F600}']);
    assert_eq!(utf16_chars(&[0xD83D]), vec!['\u{FFFD}']);
    assert_eq!(utf16_chars(&[]), Vec::<char>::new());
}

#[test]
fn utf8_output_keeps_what_fits() {
    let units: Vec<u16> = "ab\u{E9}".encode_utf16().collect();
    let mut out = [0xAAu8; 3];
    assert_eq!(utf16_to_utf8(&units, &mut out), None);
    assert_eq!(out, [b'a', b'b', 0xAA]);
}
