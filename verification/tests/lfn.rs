use hadris_fat::lfn::{
    checksum, pack, unpack, Assembler, Encoded, LAST_ENTRY, MAX_ENTRIES, MAX_UNITS,
    UNITS_PER_ENTRY,
};

fn feed(assembler: &mut Assembler, encoded: &Encoded, sum: u8) {
    for index in 0..encoded.entries() {
        let (sequence, units) = encoded.entry(index);
        let (name1, name2, name3) = pack(&units);
        assembler.push(sequence, sum, &name1, &name2, &name3);
    }
}

fn assemble(name: &str) -> Option<Vec<u16>> {
    let encoded = Encoded::new(name)?;
    let mut assembler = Assembler::new();
    feed(&mut assembler, &encoded, 0x5A);
    assembler.finish(0x5A).map(<[u16]>::to_vec)
}

#[test]
fn checksum_matches_reference() {
    assert_eq!(checksum(b"FOO     BAR"), 0x53);
}

#[test]
fn pack_and_unpack_round_trip() {
    let units: [u16; 13] = core::array::from_fn(|i| 0x41 + i as u16);
    let (name1, name2, name3) = pack(&units);
    assert_eq!(unpack(&name1, &name2, &name3), (units, 13));
    let mut short = units;
    short[4] = 0;
    short[5..].fill(0xFFFF);
    let (name1, name2, name3) = pack(&short);
    assert_eq!(unpack(&name1, &name2, &name3).1, 4);
}

#[test]
fn encoded_orders_entries_last_first() {
    let encoded = Encoded::new("abcdefghijklmnop").unwrap();
    assert_eq!(encoded.entries(), 2);
    let (first, units) = encoded.entry(0);
    assert_eq!(first, 2 | LAST_ENTRY);
    assert_eq!(&units[..4], &[b'n' as u16, b'o' as u16, b'p' as u16, 0]);
    assert!(units[4..].iter().all(|&unit| unit == 0xFFFF));
    assert_eq!(encoded.entry(1).0, 1);
}

#[test]
fn encoded_rejects_empty_and_overlong() {
    assert!(Encoded::new("").is_none());
    let max: String = core::iter::repeat_n('x', MAX_UNITS).collect();
    assert_eq!(Encoded::new(&max).unwrap().entries(), MAX_ENTRIES);
    let over: String = core::iter::repeat_n('x', MAX_UNITS + 1).collect();
    assert!(Encoded::new(&over).is_none());
    let exact = Encoded::new("abcdefghijklm").unwrap();
    assert_eq!(exact.entries(), 1);
    assert_eq!(exact.entry(0).1[12], b'm' as u16);
}

#[test]
fn assembler_round_trips_names() {
    for name in ["a", "abcdefghijklm", "long file name.txt", "\u{1F600} smile"] {
        let expected: Vec<u16> = name.encode_utf16().collect();
        assert_eq!(assemble(name), Some(expected), "{name}");
    }
}

#[test]
fn assembler_rejects_overlong_runs() {
    let mut units = [0xFFFFu16; UNITS_PER_ENTRY];
    units[0] = b'a' as u16;
    units[1] = 0;
    let (name1, name2, name3) = pack(&units);
    let mut assembler = Assembler::new();
    for number in (1..=21u8).rev() {
        let sequence = if number == 21 {
            number | LAST_ENTRY
        } else {
            number
        };
        assembler.push(sequence, 7, &name1, &name2, &name3);
    }
    assert!(assembler.finish(7).is_none());

    let (name1, name2, name3) = pack(&[b'b' as u16; UNITS_PER_ENTRY]);
    for number in (1..=MAX_ENTRIES as u8).rev() {
        let sequence = if number == MAX_ENTRIES as u8 {
            number | LAST_ENTRY
        } else {
            number
        };
        assembler.push(sequence, 7, &name1, &name2, &name3);
    }
    assert!(assembler.finish(7).is_none());

    let max: String = core::iter::repeat_n('x', MAX_UNITS).collect();
    assert_eq!(assemble(&max).map(|units| units.len()), Some(MAX_UNITS));
}

#[test]
fn assembler_rejects_broken_sequences() {
    let encoded = Encoded::new("abcdefghijklmnop").unwrap();
    let mut assembler = Assembler::new();
    feed(&mut assembler, &encoded, 1);
    assert!(assembler.finish(2).is_none());

    let (sequence, units) = encoded.entry(1);
    let (name1, name2, name3) = pack(&units);
    assembler.push(sequence, 1, &name1, &name2, &name3);
    assert!(assembler.finish(1).is_none());

    assembler.push(LAST_ENTRY, 1, &name1, &name2, &name3);
    assert!(assembler.finish(1).is_none());

    let (sequence, units) = encoded.entry(0);
    let (name1, name2, name3) = pack(&units);
    assembler.push(sequence, 1, &name1, &name2, &name3);
    assert!(assembler.finish(1).is_none());
}

#[test]
fn assembler_ignores_entries_outside_a_run() {
    let (name1, name2, name3) = pack(&[b'z' as u16; UNITS_PER_ENTRY]);
    let mut assembler = Assembler::default();
    assembler.push(1, 9, &name1, &name2, &name3);
    assert!(assembler.finish(9).is_none());
    assembler.push(1 | LAST_ENTRY, 9, &name1, &name2, &name3);
    assembler.reset();
    assert!(assembler.finish(9).is_none());
}
