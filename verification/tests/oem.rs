use hadris_fat::oem::{Cp437OemCpConverter, LossyAsciiOemCpConverter, OemCpConverter};

#[test]
fn ascii_round_trips_through_lossy() {
    let c = LossyAsciiOemCpConverter;
    assert_eq!(c.encode('A'), Some(b'A'));
    assert_eq!(c.decode(b'A'), 'A');
}

#[test]
fn lossy_drops_non_ascii() {
    let c = LossyAsciiOemCpConverter;
    assert_eq!(c.encode('é'), None);
    assert_eq!(c.decode(0x82), char::REPLACEMENT_CHARACTER);
}

#[test]
fn cp437_round_trips_latin_supplement() {
    let c = Cp437OemCpConverter;
    for ch in ['ü', 'é', 'ä', 'Ñ', 'ß', '½', 'π'] {
        let byte = c
            .encode(ch)
            .unwrap_or_else(|| panic!("CP437 should encode {ch:?}"));
        assert_eq!(c.decode(byte), ch);
    }
}

#[test]
fn cp437_passes_ascii_unchanged() {
    let c = Cp437OemCpConverter;
    assert_eq!(c.encode('A'), Some(b'A'));
    assert_eq!(c.decode(b'A'), 'A');
}

#[test]
fn cp437_rejects_unmapped_codepoints() {
    let c = Cp437OemCpConverter;
    assert_eq!(c.encode('\u{1F600}'), None);
}

#[test]
fn control_characters_are_not_encoded() {
    assert_eq!(LossyAsciiOemCpConverter.encode('\t'), None);
    assert_eq!(Cp437OemCpConverter.encode('\u{7F}'), None);
    assert_eq!(Cp437OemCpConverter.encode('\u{E9}'), Some(0x82));
    assert_eq!(Cp437OemCpConverter.decode(0xFF), '\u{A0}');
    assert_eq!(Cp437OemCpConverter.decode(0x80), '\u{C7}');
}
