use hadris_fat::oem::{Cp437OemCpConverter, LossyAsciiOemCpConverter};
use hadris_fat::short_name::{
    case_bits, display, from_disk, generate, hash, is_valid_long_name, process_char, to_disk,
    DISPLAY_MAX, LOWER_BASE, LOWER_EXT,
};

fn ascii(name: &str, suffix: u8) -> Option<[u8; 11]> {
    generate(name, suffix, &LossyAsciiOemCpConverter)
}

#[test]
fn generates_basis_names() {
    assert_eq!(ascii("readme.txt", 0), Some(*b"README  TXT"));
    assert_eq!(ascii("a long name.html", 0), Some(*b"ALONGNAMHTM"));
    assert_eq!(ascii("a+b=c", 0), Some(*b"A_B_C      "));
    assert_eq!(ascii(".bashrc", 0), Some(*b"BASHRC     "));
    assert_eq!(ascii("..dots", 0), Some(*b"DOTS       "));
    assert_eq!(ascii("...", 0), None);
}

#[test]
fn numeric_tails() {
    assert_eq!(ascii("long file name.txt", 1), Some(*b"LONGFI~1TXT"));
    assert_eq!(ascii("ab.txt", 4), Some(*b"AB~4    TXT"));
    let hashed = ascii("long file name.txt", 5).unwrap();
    assert_eq!(&hashed[..3], b"LO~");
    assert!(hashed[3..7].iter().all(u8::is_ascii_hexdigit));
    assert_eq!(&hashed[8..], b"TXT");
}

#[test]
fn hashed_tail_spells_the_hash() {
    let name = "long file name.txt";
    let h = hash(name, 5);
    let hashed = ascii(name, 5).unwrap();
    let expected = format!("{:04X}", h);
    assert_eq!(&hashed[3..7], expected.as_bytes());
    assert_eq!(hashed[7], b' ');
    let mut manual: u16 = 5;
    for &b in name.as_bytes() {
        manual = manual.wrapping_mul(37).wrapping_add(b as u16);
    }
    assert_eq!(h, manual);
}

#[test]
fn non_ascii_goes_through_code_page() {
    assert_eq!(
        generate("caf\u{e9}", 0, &Cp437OemCpConverter),
        Some(*b"CAF\x82       ")
    );
    assert_eq!(ascii("caf\u{e9}", 0), Some(*b"CAF_       "));
}

#[test]
fn process_char_maps_each_class() {
    assert_eq!(process_char('a', &LossyAsciiOemCpConverter), b'A');
    assert_eq!(process_char('7', &LossyAsciiOemCpConverter), b'7');
    assert_eq!(process_char('~', &LossyAsciiOemCpConverter), b'~');
    assert_eq!(process_char(' ', &LossyAsciiOemCpConverter), 0);
    assert_eq!(process_char('.', &LossyAsciiOemCpConverter), 0);
    assert_eq!(process_char('+', &LossyAsciiOemCpConverter), b'_');
    assert_eq!(process_char('\u{FC}', &Cp437OemCpConverter), 0x81);
    assert_eq!(process_char('\u{4E2D}', &Cp437OemCpConverter), b'_');
    assert_eq!(process_char('\u{160}', &LossyAsciiOemCpConverter), b'_');
    assert_eq!(process_char('\u{124}', &LossyAsciiOemCpConverter), b'_');
    assert_eq!(process_char('\u{4E01}', &Cp437OemCpConverter), b'_');
}

#[test]
fn case_bits_for_short_names() {
    assert_eq!(case_bits("README.TXT"), Some(0));
    assert_eq!(case_bits("readme.txt"), Some(LOWER_BASE | LOWER_EXT));
    assert_eq!(case_bits("README.txt"), Some(LOWER_EXT));
    assert_eq!(case_bits("ReadMe.txt"), None);
    assert_eq!(case_bits("toolongname.txt"), None);
    assert_eq!(case_bits("a.b.c"), None);
    assert_eq!(case_bits("a b"), None);
}

#[test]
fn case_bits_edge_cases() {
    assert_eq!(case_bits(""), None);
    assert_eq!(case_bits(".profile"), None);
    assert_eq!(case_bits("makefile"), Some(LOWER_BASE));
    assert_eq!(case_bits("A1-2.C"), Some(0));
    assert_eq!(case_bits("x.long"), None);
}

#[test]
fn kanji_lead_byte() {
    let mut name = *b"\xE5ABC       ";
    to_disk(&mut name);
    assert_eq!(name[0], 0x05);
    from_disk(&mut name);
    assert_eq!(name[0], 0xE5);
}

fn shown(stored: &[u8; 11], nt_case: u8) -> String {
    let mut out = [0u8; DISPLAY_MAX];
    let len = display(stored, nt_case, &LossyAsciiOemCpConverter, &mut out);
    String::from_utf8(out[..len].to_vec()).unwrap()
}

#[test]
fn display_forms() {
    assert_eq!(shown(b"README  TXT", 0), "README.TXT");
    assert_eq!(shown(b"README  TXT", LOWER_BASE), "readme.TXT");
    assert_eq!(shown(b"MAKEFILE   ", LOWER_BASE | LOWER_EXT), "makefile");
    assert_eq!(shown(b"\x05BC     TXT", 0), "\u{FFFD}BC.TXT");
    assert_eq!(
        shown(b"\xE5\xE5\xE5\xE5\xE5\xE5\xE5\xE5\xE5\xE5\xE5", 0)
            .chars()
            .count(),
        12
    );
    let mut out = [0u8; DISPLAY_MAX];
    let len = display(b"\x05BC     TXT", 0, &Cp437OemCpConverter, &mut out);
    assert_eq!(&out[..len], "\u{3C3}BC.TXT".as_bytes());
}

#[test]
fn display_of_a_blank_name_is_empty() {
    assert_eq!(shown(b"           ", 0), "");
    assert_eq!(shown(b"A       B  ", LOWER_EXT), "A.b");
}

#[test]
fn long_name_validation() {
    assert!(is_valid_long_name("hello world.txt"));
    assert!(!is_valid_long_name(""));
    assert!(!is_valid_long_name(".."));
    assert!(!is_valid_long_name("a:b"));
    assert!(!is_valid_long_name("tab\there"));
    assert!(is_valid_long_name(&"x".repeat(255)));
    assert!(!is_valid_long_name(&"x".repeat(256)));
}

#[test]
fn long_names_count_utf16_units() {
    assert!(!is_valid_long_name("."));
    assert!(is_valid_long_name("..."));
    assert!(is_valid_long_name(&"\u{1F600}".repeat(127)));
    assert!(!is_valid_long_name(&"\u{1F600}".repeat(128)));
    assert!(!is_valid_long_name("a|b"));
}

#[test]
fn short_names_show_back() {
    for name in ["readme.txt", "README.TXT", "a", "abc.D", "x_1-2.c", "Q.md"] {
        let bits = case_bits(name).unwrap();
        let stored = ascii(name, 0).unwrap();
        assert_eq!(shown(&stored, bits), name);
        let cp437 = generate(name, 0, &Cp437OemCpConverter).unwrap();
        assert_eq!(cp437, stored);
        let mut out = [0u8; DISPLAY_MAX];
        let len = display(&cp437, bits, &Cp437OemCpConverter, &mut out);
        assert_eq!(&out[..len], name.as_bytes());
    }
}

#[test]
fn generated_names_hold_short_name_bytes() {
    for (name, suffix) in [
        ("long file name.txt", 1),
        ("hello world", 4),
        ("ünïcödé name.dat", 7),
        ("   .x", 0),
        (".", 2),
    ] {
        let out = ascii(name, suffix).unwrap();
        assert_ne!(out[0], b' ');
        for part in [&out[..8], &out[8..]] {
            let len = part.iter().rposition(|&b| b != b' ').map_or(0, |p| p + 1);
            assert!(part[len..].iter().all(|&b| b == b' '));
            assert!(part[..len]
                .iter()
                .all(|&b| b > 0x20 && b != b'.' && !b.is_ascii_lowercase()));
        }
        let base_len = out[..8].iter().rposition(|&b| b != b' ').unwrap() + 1;
        if (1..=4).contains(&suffix) {
            assert_eq!(&out[base_len - 2..base_len], &[b'~', b'0' + suffix]);
        } else if suffix >= 5 {
            assert_eq!(out[base_len - 5], b'~');
            assert!(out[base_len - 4..base_len]
                .iter()
                .all(|b| b.is_ascii_digit() || (b'A'..=b'F').contains(b)));
        }
    }
}
