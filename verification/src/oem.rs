//! OEM code page conversion for short (8.3) filenames.
//!
//! FAT short names are stored as 11 raw bytes interpreted in an OEM code page
//! (originally CP437 on DOS). The default [`LossyAsciiOemCpConverter`]
//! passes ASCII through and turns every other character into `_`.
//! [`Cp437OemCpConverter`] keeps the Western-European Latin set commonly
//! seen on physical-media images.

use vstd::prelude::*;

verus! {

/// Whether `ch` is printable ASCII: ASCII and not a control character.
pub open spec fn printable_ascii(ch: char) -> bool {
    0x20 <= ch as u32 <= 0x7E
}

/// Whether `ch` is printable ASCII: ASCII and not a control character.
pub fn is_printable_ascii(ch: char) -> (b: bool)
    ensures
        b == printable_ascii(ch),
{
    let code = ch as u32;
    0x20 <= code && code <= 0x7E
}

/// The character `byte` stands for when it is below `0x80`: the ASCII
/// character of that code.
pub open spec fn ascii_char(byte: u8) -> char {
    byte as char
}

/// Pluggable OEM code page used to encode and decode the bytes of short
/// (8.3) names.
pub trait OemCpConverter {
    /// The byte that `ch` encodes to, if the code page has one.
    spec fn spec_encode(&self, ch: char) -> Option<u8>;

    /// The character that `byte` decodes to.
    spec fn spec_decode(&self, byte: u8) -> char;

    /// Encodes a Unicode scalar to a single OEM byte, or `None` if the
    /// character is not representable. Callers substitute `_` for any
    /// character this returns `None` for.
    fn encode(&self, ch: char) -> (r: Option<u8>)
        ensures
            r == self.spec_encode(ch),
    ;

    /// Decodes an OEM byte to its Unicode scalar; U+FFFD for bytes without
    /// one, since callers display the result directly.
    fn decode(&self, byte: u8) -> (c: char)
        ensures
            c == self.spec_decode(byte),
    ;
}

/// Identity-on-ASCII converter; everything else becomes `None` or U+FFFD.
/// The cheapest converter: no tables, no lookups.
#[derive(Debug, Default, Clone, Copy)]
pub struct LossyAsciiOemCpConverter;

impl OemCpConverter for LossyAsciiOemCpConverter {
    open spec fn spec_encode(&self, ch: char) -> Option<u8> {
        if printable_ascii(ch) {
            Some((ch as u32) as u8)
        } else {
            None
        }
    }

    open spec fn spec_decode(&self, byte: u8) -> char {
        if byte < 0x80 {
            ascii_char(byte)
        } else {
            '\u{FFFD}'
        }
    }

    fn encode(&self, ch: char) -> (r: Option<u8>) {
        if is_printable_ascii(ch) {
            Some((ch as u32) as u8)
        } else {
            None
        }
    }

    fn decode(&self, byte: u8) -> (c: char) {
        if byte < 0x80 {
            byte as char
        } else {
            '\u{FFFD}'
        }
    }
}

/// The converter used when none is given.
pub const DEFAULT_OEM_CONVERTER: LossyAsciiOemCpConverter = LossyAsciiOemCpConverter;

/// The characters of CP437 bytes `0x80` through `0xFF`.
pub const CP437_HIGH: [char; 128] = [
    '\u{C7}', '\u{FC}', '\u{E9}', '\u{E2}', '\u{E4}', '\u{E0}', '\u{E5}', '\u{E7}',
    '\u{EA}', '\u{EB}', '\u{E8}', '\u{EF}', '\u{EE}', '\u{EC}', '\u{C4}', '\u{C5}',
    '\u{C9}', '\u{E6}', '\u{C6}', '\u{F4}', '\u{F6}', '\u{F2}', '\u{FB}', '\u{F9}',
    '\u{FF}', '\u{D6}', '\u{DC}', '\u{A2}', '\u{A3}', '\u{A5}', '\u{20A7}', '\u{192}',
    '\u{E1}', '\u{ED}', '\u{F3}', '\u{FA}', '\u{F1}', '\u{D1}', '\u{AA}', '\u{BA}',
    '\u{BF}', '\u{2310}', '\u{AC}', '\u{BD}', '\u{BC}', '\u{A1}', '\u{AB}', '\u{BB}',
    '\u{2591}', '\u{2592}', '\u{2593}', '\u{2502}', '\u{2524}', '\u{2561}', '\u{2562}', '\u{2556}',
    '\u{2555}', '\u{2563}', '\u{2551}', '\u{2557}', '\u{255D}', '\u{255C}', '\u{255B}', '\u{2510}',
    '\u{2514}', '\u{2534}', '\u{252C}', '\u{251C}', '\u{2500}', '\u{253C}', '\u{255E}', '\u{255F}',
    '\u{255A}', '\u{2554}', '\u{2569}', '\u{2566}', '\u{2560}', '\u{2550}', '\u{256C}', '\u{2567}',
    '\u{2568}', '\u{2564}', '\u{2565}', '\u{2559}', '\u{2558}', '\u{2552}', '\u{2553}', '\u{256B}',
    '\u{256A}', '\u{2518}', '\u{250C}', '\u{2588}', '\u{2584}', '\u{258C}', '\u{2590}', '\u{2580}',
    '\u{3B1}', '\u{DF}', '\u{393}', '\u{3C0}', '\u{3A3}', '\u{3C3}', '\u{B5}', '\u{3C4}',
    '\u{3A6}', '\u{398}', '\u{3A9}', '\u{3B4}', '\u{221E}', '\u{3C6}', '\u{3B5}', '\u{2229}',
    '\u{2261}', '\u{B1}', '\u{2265}', '\u{2264}', '\u{2320}', '\u{2321}', '\u{F7}', '\u{2248}',
    '\u{B0}', '\u{2219}', '\u{B7}', '\u{221A}', '\u{207F}', '\u{B2}', '\u{25A0}', '\u{A0}',
];

/// The first index from `i` at which `table` holds `c`.
pub open spec fn index_from(table: Seq<char>, c: char, i: nat) -> Option<nat>
    decreases table.len() - i,
{
    if i >= table.len() {
        None
    } else if table[i as int] == c {
        Some(i)
    } else {
        index_from(table, c, i + 1)
    }
}

/// What [`index_from`] finds holds `c`.
pub proof fn lemma_index_from(table: Seq<char>, c: char, i: nat)
    ensures
        index_from(table, c, i) matches Some(k) ==> i <= k < table.len() && table[k as int] == c,
    decreases table.len() - i,
{
    if i < table.len() && table[i as int] != c {
        lemma_index_from(table, c, i + 1);
    }
}

/// IBM CP437 converter, the DOS and original FAT default code page: the
/// Latin-1 supplement, line-drawing characters, Greek and mathematical
/// symbols. Bytes below `0x80` are ASCII; bytes `0x80` through `0xFF` map
/// through a 128-entry table.
#[derive(Debug, Default, Clone, Copy)]
pub struct Cp437OemCpConverter;

impl OemCpConverter for Cp437OemCpConverter {
    open spec fn spec_encode(&self, ch: char) -> Option<u8> {
        if printable_ascii(ch) {
            Some((ch as u32) as u8)
        } else {
            match index_from(CP437_HIGH@, ch, 0) {
                Some(i) => Some((0x80 + i) as u8),
                None => None,
            }
        }
    }

    open spec fn spec_decode(&self, byte: u8) -> char {
        if byte < 0x80 {
            ascii_char(byte)
        } else {
            CP437_HIGH@[byte - 0x80]
        }
    }

    fn encode(&self, ch: char) -> (r: Option<u8>) {
        if is_printable_ascii(ch) {
            return Some((ch as u32) as u8);
        }
        let mut i: usize = 0;
        while i < 128
            invariant
                i <= 128,
                index_from(CP437_HIGH@, ch, 0) == index_from(CP437_HIGH@, ch, i as nat),
            decreases 128 - i,
        {
            if CP437_HIGH[i] == ch {
                return Some((0x80 + i) as u8);
            }
            i += 1;
        }
        None
    }

    fn decode(&self, byte: u8) -> (c: char) {
        if byte < 0x80 {
            byte as char
        } else {
            CP437_HIGH[(byte - 0x80) as usize]
        }
    }
}

/// A byte below `0x80` decodes to the ASCII character of that code.
pub proof fn lemma_ascii_char(byte: u8)
    requires
        byte < 0x80,
    ensures
        ascii_char(byte) as u32 == byte as u32,
{
}

/// Lossy conversion passes printable ASCII through and keeps every byte it
/// encodes: decoding it gives the character back.
pub proof fn lemma_lossy_round_trip(c: LossyAsciiOemCpConverter, ch: char)
    ensures
        printable_ascii(ch) ==> c.spec_encode(ch) == Some((ch as u32) as u8),
        !printable_ascii(ch) ==> c.spec_encode(ch) is None,
        c.spec_encode(ch) matches Some(byte) ==> c.spec_decode(byte) == ch,
{
    if printable_ascii(ch) {
        let code = ch as u32;
        assert((code as u8) as u32 == code) by (bit_vector)
            requires
                code <= 0x7E,
        ;
        vstd::utf8::char_u32_cast(ch, code);
    }
}

/// CP437 encodes printable ASCII as itself and keeps every byte it
/// encodes: decoding it gives the character back.
pub proof fn lemma_cp437_round_trip(c: Cp437OemCpConverter, ch: char)
    ensures
        printable_ascii(ch) ==> c.spec_encode(ch) == Some((ch as u32) as u8),
        c.spec_encode(ch) matches Some(byte) ==> c.spec_decode(byte) == ch,
{
    if printable_ascii(ch) {
        let code = ch as u32;
        assert((code as u8) as u32 == code) by (bit_vector)
            requires
                code <= 0x7E,
        ;
        vstd::utf8::char_u32_cast(ch, code);
    } else {
        lemma_index_from(CP437_HIGH@, ch, 0);
    }
}

} // verus!
