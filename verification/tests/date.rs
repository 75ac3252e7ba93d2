use hadris_fat::date::{decode, encode, pack, StoredTime, MAX, MIN};

#[test]
fn pack_clamps_years() {
    assert_eq!(pack(1979, 1, 1, 0, 0, 0), (MIN.0, 0));
    assert_eq!(pack(2200, 1, 1, 0, 0, 0).0 >> 9, 127);
    assert_eq!(
        pack(2024, 2, 29, 13, 45, 31),
        ((44 << 9) | (2 << 5) | 29, (13 << 11) | (45 << 5) | 15)
    );
}

#[test]
fn extremes_are_the_first_and_last_instants() {
    assert_eq!(pack(1980, 1, 1, 0, 0, 0), (MIN.0, MIN.1));
    assert_eq!(pack(2107, 12, 31, 23, 59, 59), (MAX.0, MAX.1));
    assert_eq!(MAX.2, 199);
}

#[test]
fn pack_masks_out_of_range_fields() {
    assert_eq!(pack(1980, 17, 33, 0, 0, 0).0, (1 << 5) | 1);
    assert_eq!(pack(1980, 1, 1, 33, 65, 70).1, (1 << 11) | (1 << 5) | 3);
}

#[test]
fn round_trips_with_two_second_resolution() {
    let (date, clock, tenths) = encode(2024, 2, 29, 13, 45, 31, 560_000_000);
    assert_eq!(tenths, 156);
    assert_eq!(
        decode(date, clock, tenths),
        Some(StoredTime {
            year: 2024,
            month: 2,
            day: 29,
            hour: 13,
            minute: 45,
            second: 30,
            extra_seconds: 1,
            nanos: 560_000_000,
        })
    );
    let plain = decode(date, clock, 0).unwrap();
    assert_eq!((plain.second, plain.extra_seconds, plain.nanos), (30, 0, 0));
}

#[test]
fn decode_rejects_invalid_fields() {
    assert_eq!(decode(0, 0, 0), None);
    assert_eq!(decode((1 << 5) | 1, 24 << 11, 0), None);
    assert_eq!(decode((2 << 5) | 30, 0, 0), None);
    assert_eq!(decode((1 << 5) | 1, 60 << 5, 0), None);
    assert_eq!(decode((1 << 5) | 1, 30, 0), None);
    assert_eq!(decode((43 << 9) | (2 << 5) | 29, 0, 0), None);
    assert!(decode((20 << 9) | (2 << 5) | 29, 0, 0).is_some());
    assert_eq!(decode((120 << 9) | (2 << 5) | 29, 0, 0), None);
    let first = decode(MIN.0, MIN.1, 250).unwrap();
    assert_eq!(
        (first.year, first.month, first.day, first.hour, first.extra_seconds, first.nanos),
        (1980, 1, 1, 0, 0, 0)
    );
}

#[test]
fn encode_clamps_to_fat_range() {
    assert_eq!(encode(1970, 1, 1, 0, 0, 0, 0), MIN);
    assert_eq!(encode(2200, 6, 1, 0, 0, 0, 0), MAX);
    let last = decode(MAX.0, MAX.1, MAX.2).unwrap();
    assert_eq!(
        (last.year, last.month, last.day, last.hour, last.minute, last.second),
        (2107, 12, 31, 23, 59, 58)
    );
    assert_eq!((last.extra_seconds, last.nanos), (1, 990_000_000));
}

#[test]
fn encode_uses_recorded_local_time() {
    let (_, clock, _) = encode(2024, 1, 1, 12, 0, 0, 0);
    assert_eq!(clock >> 11, 12);
}
