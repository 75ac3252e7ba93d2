//! The three FAT variants and how each stores a FAT entry.

use vstd::prelude::*;
use crate::bytes::{get16, get32, lemma_get_put16, lemma_get_put32, put16, put32};

verus! {

/// The highest cluster count of a FAT12 volume.
pub const FAT12_MAX_CLUSTERS: u32 = 4084;
/// The highest cluster count of a FAT16 volume.
pub const FAT16_MAX_CLUSTERS: u32 = 65524;
/// The highest cluster count of a FAT32 volume.
pub const FAT32_MAX_CLUSTERS: u32 = 0x0FFF_FFF5;
/// The first cluster of the data region.
pub const FIRST_DATA_CLUSTER: u32 = 2;

/// A FAT variant, named by the width of its entries.
#[derive(Debug, Clone, Copy, PartialEq, Eq, Structural)]
pub enum FatKind {
    /// 12-bit entries.
    Fat12,
    /// 16-bit entries.
    Fat16,
    /// 28-bit entries in 32-bit slots.
    Fat32,
}

impl FatKind {
    /// The bits of an entry that hold its value.
    pub open spec fn spec_mask(self) -> u32 {
        match self {
            FatKind::Fat12 => 0xFFF,
            FatKind::Fat16 => 0xFFFF,
            FatKind::Fat32 => 0x0FFF_FFFF,
        }
    }

    /// The bits of an entry that hold its value.
    #[verifier::when_used_as_spec(spec_mask)]
    pub fn mask(self) -> (m: u32)
        ensures
            m == self.spec_mask(),
    {
        match self {
            FatKind::Fat12 => 0xFFF,
            FatKind::Fat16 => 0xFFFF,
            FatKind::Fat32 => 0x0FFF_FFFF,
        }
    }

    /// The value that marks a bad cluster.
    pub open spec fn spec_bad_cluster(self) -> u32 {
        match self {
            FatKind::Fat12 => 0xFF7,
            FatKind::Fat16 => 0xFFF7,
            FatKind::Fat32 => 0x0FFF_FFF7,
        }
    }

    /// Whether the entry value `value` marks a bad cluster.
    pub fn is_bad(self, value: u32) -> (b: bool)
        ensures
            b == (value == self.spec_bad_cluster()),
    {
        match self {
            FatKind::Fat12 => value == 0xFF7,
            FatKind::Fat16 => value == 0xFFF7,
            FatKind::Fat32 => value == 0x0FFF_FFF7,
        }
    }

    /// The value that ends a chain.
    pub open spec fn spec_end_of_chain(self) -> u32 {
        match self {
            FatKind::Fat12 => 0xFF8,
            FatKind::Fat16 => 0xFFF8,
            FatKind::Fat32 => 0x0FFF_FFF8,
        }
    }

    /// The value that ends a chain.
    #[verifier::when_used_as_spec(spec_end_of_chain)]
    pub fn end_of_chain(self) -> (v: u32)
        ensures
            v == self.spec_end_of_chain(),
    {
        match self {
            FatKind::Fat12 => 0xFF8,
            FatKind::Fat16 => 0xFFF8,
            FatKind::Fat32 => 0x0FFF_FFF8,
        }
    }

    /// Bits an entry takes in the FAT.
    pub open spec fn spec_entry_bits(self) -> u64 {
        match self {
            FatKind::Fat12 => 12,
            FatKind::Fat16 => 16,
            FatKind::Fat32 => 32,
        }
    }

    /// Bits an entry takes in the FAT.
    #[verifier::when_used_as_spec(spec_entry_bits)]
    pub fn entry_bits(self) -> (b: u64)
        ensures
            b == self.spec_entry_bits(),
    {
        match self {
            FatKind::Fat12 => 12,
            FatKind::Fat16 => 16,
            FatKind::Fat32 => 32,
        }
    }

    /// Byte offset of `cluster`'s entry in a FAT.
    pub open spec fn spec_entry_offset(self, cluster: u64) -> int {
        match self {
            FatKind::Fat12 => cluster + cluster / 2,
            FatKind::Fat16 => cluster * 2,
            FatKind::Fat32 => cluster * 4,
        }
    }

    /// Byte offset of `cluster`'s entry in a FAT.
    pub fn entry_offset(self, cluster: u64) -> (at: u64)
        requires
            cluster <= u32::MAX,
        ensures
            at == self.spec_entry_offset(cluster),
    {
        match self {
            FatKind::Fat12 => cluster + cluster / 2,
            FatKind::Fat16 => cluster * 2,
            FatKind::Fat32 => cluster * 4,
        }
    }

    /// Bytes read or written to access one entry.
    pub open spec fn spec_entry_len(self) -> usize {
        match self {
            FatKind::Fat32 => 4,
            _ => 2,
        }
    }

    /// Bytes read or written to access one entry.
    #[verifier::when_used_as_spec(spec_entry_len)]
    pub fn entry_len(self) -> (n: usize)
        ensures
            n == self.spec_entry_len(),
    {
        match self {
            FatKind::Fat32 => 4,
            _ => 2,
        }
    }

    /// The entry of `cluster` as stored in the FAT bytes `s`; on FAT32 the
    /// four reserved high bits included.
    pub open spec fn spec_decode(self, cluster: u64, s: Seq<u8>) -> u32 {
        let at = self.spec_entry_offset(cluster);
        match self {
            FatKind::Fat12 => if cluster % 2 == 0 {
                (get16(s, at) & 0xFFF) as u32
            } else {
                (get16(s, at) >> 4u16) as u32
            },
            FatKind::Fat16 => get16(s, at) as u32,
            FatKind::Fat32 => get32(s, at),
        }
    }

    /// The FAT bytes `s` with `cluster`'s entry set to `value`. Bits of a
    /// neighbouring FAT12 entry and the reserved high bits of a FAT32 entry
    /// are kept.
    pub open spec fn spec_encode(self, cluster: u64, value: u32, s: Seq<u8>) -> Seq<u8> {
        let at = self.spec_entry_offset(cluster);
        match self {
            FatKind::Fat12 => {
                let w = get16(s, at);
                let v = (value & 0xFFF) as u16;
                if cluster % 2 == 0 {
                    put16(s, at, (w & 0xF000) | v)
                } else {
                    put16(s, at, (w & 0xF) | ((v << 4u16) as u16))
                }
            },
            FatKind::Fat16 => put16(s, at, value as u16),
            FatKind::Fat32 => put32(s, at, (get32(s, at) & 0xF000_0000) | (value & 0x0FFF_FFFF)),
        }
    }

    /// Reads the entry of `cluster` from `bytes`, which hold the FAT from
    /// byte 0.
    pub fn decode(self, cluster: u64, bytes: &[u8]) -> (v: u32)
        requires
            cluster <= u32::MAX,
            self.spec_entry_offset(cluster) + self.spec_entry_len() <= bytes@.len(),
        ensures
            v == self.spec_decode(cluster, bytes@),
    {
        let at = self.entry_offset(cluster) as usize;
        match self {
            FatKind::Fat12 => {
                let w = (bytes[at] as u16 | ((bytes[at + 1] as u16) << 8u16)) as u16;
                if cluster % 2 == 0 {
                    (w & 0xFFF) as u32
                } else {
                    (w >> 4u16) as u32
                }
            },
            FatKind::Fat16 => (bytes[at] as u16 | ((bytes[at + 1] as u16) << 8u16)) as u32,
            FatKind::Fat32 => bytes[at] as u32 | ((bytes[at + 1] as u32) << 8u32) | ((bytes[at
                + 2] as u32) << 16u32) | ((bytes[at + 3] as u32) << 24u32),
        }
    }

    /// Writes `value` as the entry of `cluster` into `bytes`, which hold the
    /// FAT from byte 0.
    pub fn encode(self, cluster: u64, value: u32, bytes: &mut [u8])
        requires
            cluster <= u32::MAX,
            self.spec_entry_offset(cluster) + self.spec_entry_len() <= old(bytes)@.len(),
        ensures
            final(bytes)@ == self.spec_encode(cluster, value, old(bytes)@),
    {
        let at = self.entry_offset(cluster) as usize;
        let ghost s = bytes@;
        match self {
            FatKind::Fat12 => {
                let w = (bytes[at] as u16 | ((bytes[at + 1] as u16) << 8u16)) as u16;
                let v = (value & 0xFFF) as u16;
                let n: u16 = if cluster % 2 == 0 {
                    (w & 0xF000) | v
                } else {
                    (w & 0xF) | ((v << 4u16) as u16)
                };
                bytes[at] = (n & 0xFF) as u8;
                bytes[at + 1] = (n >> 8u16) as u8;
            },
            FatKind::Fat16 => {
                let n = value as u16;
                bytes[at] = (n & 0xFF) as u8;
                bytes[at + 1] = (n >> 8u16) as u8;
            },
            FatKind::Fat32 => {
                let w = bytes[at] as u32 | ((bytes[at + 1] as u32) << 8u32) | ((bytes[at + 2] as u32)
                    << 16u32) | ((bytes[at + 3] as u32) << 24u32);
                let n = (w & 0xF000_0000) | (value & 0x0FFF_FFFF);
                bytes[at] = (n & 0xFF) as u8;
                bytes[at + 1] = ((n >> 8u32) & 0xFF) as u8;
                bytes[at + 2] = ((n >> 16u32) & 0xFF) as u8;
                bytes[at + 3] = (n >> 24u32) as u8;
            },
        }
    }
}


/// Writing an entry and reading it back gives the value written, within the
/// bits an entry holds; FAT12 and FAT16 entries hold nothing else.
pub proof fn lemma_decode_encode(kind: FatKind, cluster: u64, value: u32, s: Seq<u8>)
    requires
        cluster <= u32::MAX,
        kind.spec_entry_offset(cluster) + kind.spec_entry_len() <= s.len(),
    ensures
        kind.spec_decode(cluster, kind.spec_encode(cluster, value, s)) & kind.spec_mask() == value
            & kind.spec_mask(),
        kind != FatKind::Fat32 ==> kind.spec_decode(cluster, kind.spec_encode(cluster, value, s))
            == value & kind.spec_mask(),
        kind.spec_encode(cluster, value, s).len() == s.len(),
{
    let at = kind.spec_entry_offset(cluster);
    match kind {
        FatKind::Fat12 => {
            let w = get16(s, at);
            let v = (value & 0xFFF) as u16;
            let n: u16 = if cluster % 2 == 0 {
                (w & 0xF000) | v
            } else {
                (w & 0xF) | ((v << 4u16) as u16)
            };
            lemma_get_put16(s, at, n);
            if cluster % 2 == 0 {
                assert(((w & 0xF000) | ((value & 0xFFF) as u16)) & 0xFFF == (value & 0xFFF) as u16)
                    by (bit_vector);
                assert((((w & 0xF000) | ((value & 0xFFF) as u16)) & 0xFFF) as u32 == value & 0xFFF)
                    by (bit_vector);
                assert((value & 0xFFF) & 0xFFF == value & 0xFFF) by (bit_vector);
            } else {
                assert((((w & 0xF) | ((((value & 0xFFF) as u16) << 4u16) as u16)) >> 4u16) as u32
                    == value & 0xFFF) by (bit_vector);
                assert((value & 0xFFF) & 0xFFF == value & 0xFFF) by (bit_vector);
            }
        },
        FatKind::Fat16 => {
            lemma_get_put16(s, at, value as u16);
            assert((value as u16) as u32 == value & 0xFFFF) by (bit_vector);
            assert((value & 0xFFFF) & 0xFFFF == value & 0xFFFF) by (bit_vector);
        },
        FatKind::Fat32 => {
            let n = (get32(s, at) & 0xF000_0000) | (value & 0x0FFF_FFFF);
            lemma_get_put32(s, at, n);
            let g = get32(s, at);
            assert(((g & 0xF000_0000) | (value & 0x0FFF_FFFF)) & 0x0FFF_FFFF == value & 0x0FFF_FFFF)
                by (bit_vector);
        },
    }
}

/// Writing the entry of one cluster leaves the entry of every other cluster
/// as it was, though two FAT12 entries share a byte.
pub proof fn lemma_encode_keeps_other_entries(
    kind: FatKind,
    cluster: u64,
    other: u64,
    value: u32,
    s: Seq<u8>,
)
    requires
        cluster <= u32::MAX,
        other <= u32::MAX,
        cluster != other,
        kind.spec_entry_offset(cluster) + kind.spec_entry_len() <= s.len(),
        kind.spec_entry_offset(other) + kind.spec_entry_len() <= s.len(),
    ensures
        kind.spec_decode(other, kind.spec_encode(cluster, value, s)) == kind.spec_decode(other, s),
{
    let at = kind.spec_entry_offset(cluster);
    let at2 = kind.spec_entry_offset(other);
    let t = kind.spec_encode(cluster, value, s);
    match kind {
        FatKind::Fat12 => {
            let w = get16(s, at);
            let v = (value & 0xFFF) as u16;
            let n: u16 = if cluster % 2 == 0 {
                (w & 0xF000) | v
            } else {
                (w & 0xF) | ((v << 4u16) as u16)
            };
            assert(t == put16(s, at, n));
            if at2 + 1 < at || at + 1 < at2 {
                assert(t[at2] == s[at2] && t[at2 + 1] == s[at2 + 1]);
            } else if cluster % 2 == 0 {
                // `other` is the odd cluster after `cluster`: they share byte `at + 1`.
                assert(other == cluster + 1);
                assert(at2 == at + 1);
                let b1 = s[at + 1];
                let b0 = s[at];
                assert(t[at2 + 1] == s[at2 + 1]);
                assert(t[at2] == (n >> 8u16) as u8);
                assert(w == (b0 as u16 | ((b1 as u16) << 8u16)) as u16);
                let b2 = s[at + 2];
                assert(((((((((b0 as u16 | ((b1 as u16) << 8u16)) as u16) & 0xF000) | ((value
                    & 0xFFF) as u16)) >> 8u16)
                    as u8) as u16 | ((b2 as u16) << 8u16)) as u16) >> 4u16 == ((b1 as u16 | ((
                b2 as u16) << 8u16)) as u16) >> 4u16) by (bit_vector);
            } else {
                // `other` is the even cluster before `cluster`: they share byte `at`.
                assert(other + 1 == cluster);
                assert(at2 + 1 == at);
                let b0 = s[at];
                let b1 = s[at + 1];
                let bp = s[at2];
                assert(t[at2] == s[at2]);
                assert(t[at2 + 1] == (n & 0xFF) as u8);
                assert(w == (b0 as u16 | ((b1 as u16) << 8u16)) as u16);
                assert(((bp as u16 | ((((((((b0 as u16 | ((b1 as u16) << 8u16)) as u16) & 0xF) | ((((value
                    & 0xFFF) as u16) << 4u16) as u16)) & 0xFF) as u8) as u16) << 8u16)) as u16) & 0xFFF == ((bp as u16
                    | ((b0 as u16) << 8u16)) as u16) & 0xFFF) by (bit_vector);
            }
        },
        FatKind::Fat16 => {
            assert(at2 + 1 < at || at + 1 < at2);
            assert(t[at2] == s[at2] && t[at2 + 1] == s[at2 + 1]);
        },
        FatKind::Fat32 => {
            assert(at2 + 3 < at || at + 3 < at2);
            assert(t[at2] == s[at2] && t[at2 + 1] == s[at2 + 1] && t[at2 + 2] == s[at2 + 2] && t[at2
                + 3] == s[at2 + 3]);
        },
    }
}

/// The arithmetic of the bit operations that read and write FAT
/// entries, for bytes `a` to `d`, 16-bit words `h` and `g`, 32-bit words
/// `w`, `x` and `v`, and a media byte `m`.
proof fn lemma_le_arith(a: u8, b: u8, c: u8, d: u8, h: u16, w: u32, g: u16, x: u32, v: u32, m: u8)
    by (bit_vector)
    ensures
        (a as u16 | ((b as u16) << 8u16)) as u16 == a + 256 * b,
        (a as u32 | ((b as u32) << 8u32) | ((c as u32) << 16u32) | ((d as u32) << 24u32)) as u32
            == a + 256 * b + 65536 * c + 16777216 * d,
        (h & 0xFF) as u8 + 256 * ((h >> 8u16) as u8) == h,
        (w & 0xFF) as u8 + 256 * (((w >> 8u32) & 0xFF) as u8) + 65536 * (((w >> 16u32) & 0xFF) as u8)
            + 16777216 * ((w >> 24u32) as u8) == w,
        (h & 0xFFF) + 4096 * (h >> 12u16) == h,
        (h & 0xF) + 16 * (h >> 4u16) == h,
        (w as u16) + 65536 * (w >> 16u32) == w,
        h & 0xFFF < 4096 && h >> 12u16 < 16 && h & 0xF < 16,
        h & 0xF000 == 4096 * (h >> 12u16),
        g < 4096 ==> (h & 0xF000) | g == (h & 0xF000) + g,
        g < 4096 ==> (h & 0xF) | ((g << 4u16) as u16) == (h & 0xF) + 16 * g,
        ((v & 0xFFF) as u16) + 4096 * (v >> 12u32) == v,
        x & 0xF000_0000 == 0x1000_0000 * (x >> 28u32),
        (x & 0xF000_0000) | (v & 0x0FFF_FFFF) == (x & 0xF000_0000) + (v & 0x0FFF_FFFF),
        (v & 0x0FFF_FFFF) + 0x1000_0000 * (v >> 28u32) == v,
        (x & 0x0FFF_FFFF) + 0x1000_0000 * (x >> 28u32) == x,
        v & 0x0FFF_FFFF < 0x1000_0000 && x & 0x0FFF_FFFF < 0x1000_0000 && v & 0xFFF < 4096,
        (0xFFFu32 & !0xFFu32) | (m as u32) == 0xF00 + m,
        (0xFFFFu32 & !0xFFu32) | (m as u32) == 0xFF00 + m,
        (0x0FFF_FFFFu32 & !0xFFu32) | (m as u32) == 0x0FFF_FF00 + m,
{
}

/// FAT16 entries are stored little-endian, two bytes at twice the
/// cluster: an entry reads as its low byte plus 256 times its high byte,
/// and writing `value` stores its low byte, then its next byte, and
/// changes nothing else.
pub proof fn lemma_fat16_entry_bytes(cluster: u64, value: u32, s: Seq<u8>)
    requires
        2 * cluster + 2 <= s.len(),
    ensures
        FatKind::Fat16.spec_decode(cluster, s) == s[2 * cluster] + 256 * s[2 * cluster + 1],
        ({
            let t = FatKind::Fat16.spec_encode(cluster, value, s);
            &&& t.len() == s.len()
            &&& t[2 * cluster] == value % 256
            &&& t[2 * cluster + 1] == (value / 256) % 256
            &&& forall|j: int|
                0 <= j < s.len() && j != 2 * cluster && j != 2 * cluster + 1 ==> #[trigger] t[j]
                    == s[j]
        }),
{
    let at = 2 * cluster as int;
    let h = value as u16;
    lemma_le_arith(s[at], s[at + 1], 0, 0, h, value, 0, 0, value, 0);
    let t = FatKind::Fat16.spec_encode(cluster, value, s);
    assert(t == put16(s, at, h));
    let lo = (h & 0xFF) as u8;
    let hi = (h >> 8u16) as u8;
    let q = value >> 16u32;
    assert(value == lo + 256 * (hi + 256 * q));
    vstd::arithmetic::div_mod::lemma_fundamental_div_mod_converse(value as int, 256, hi + 256 * q, lo as int);
    vstd::arithmetic::div_mod::lemma_fundamental_div_mod_converse(hi + 256 * q, 256, q as int, hi as int);
}

/// FAT32 entries are stored little-endian, four bytes at four times the
/// cluster: an entry reads as its bytes weighted by 1, 256, 65536 and
/// 16777216; writing `value` stores its low 28 bits the same way under
/// the top 4 bits the entry had, and changes nothing else.
pub proof fn lemma_fat32_entry_bytes(cluster: u64, value: u32, s: Seq<u8>)
    requires
        4 * cluster + 4 <= s.len(),
    ensures
        FatKind::Fat32.spec_decode(cluster, s) == s[4 * cluster] + 256 * s[4 * cluster + 1] + 65536
            * s[4 * cluster + 2] + 16777216 * s[4 * cluster + 3],
        ({
            let t = FatKind::Fat32.spec_encode(cluster, value, s);
            &&& t.len() == s.len()
            &&& t[4 * cluster] + 256 * t[4 * cluster + 1] + 65536 * t[4 * cluster + 2] + 16777216
                * t[4 * cluster + 3] == (s[4 * cluster + 3] / 16) * 0x1000_0000 + value % 0x1000_0000
            &&& forall|j: int|
                0 <= j < s.len() && !(4 * cluster <= j < 4 * cluster + 4) ==> #[trigger] t[j] == s[j]
        }),
{
    let at = 4 * cluster as int;
    let x = get32(s, at);
    let n = (x & 0xF000_0000) | (value & 0x0FFF_FFFF);
    let d = s[at + 3];
    lemma_le_arith(s[at], s[at + 1], s[at + 2], d, 0, n, 0, x, value, 0);
    let t = FatKind::Fat32.spec_encode(cluster, value, s);
    assert(t == put32(s, at, n));
    let low = s[at] + 256 * s[at + 1] + 65536 * s[at + 2] + 16777216 * (d % 16);
    assert(x == low + 0x1000_0000 * (d / 16));
    vstd::arithmetic::div_mod::lemma_fundamental_div_mod_converse(x as int, 0x1000_0000, (d / 16) as int, low);
    vstd::arithmetic::div_mod::lemma_fundamental_div_mod_converse(
        value as int,
        0x1000_0000,
        (value >> 28u32) as int,
        (value & 0x0FFF_FFFF) as int,
    );
    vstd::arithmetic::div_mod::lemma_fundamental_div_mod_converse(
        x as int,
        0x1000_0000,
        (x >> 28u32) as int,
        (x & 0x0FFF_FFFF) as int,
    );
}

/// FAT12 entries take 12 bits at one and a half times the cluster, in the
/// little-endian pair of bytes there: an even cluster's entry is the low
/// 12 bits of the pair, an odd cluster's the high 12. Writing `value`
/// stores its low 12 bits there, keeps the 4 bits of the neighbouring
/// entry, and changes nothing else.
pub proof fn lemma_fat12_entry_bytes(cluster: u64, value: u32, s: Seq<u8>)
    requires
        cluster + cluster / 2 + 2 <= s.len(),
    ensures
        ({
            let at = cluster + cluster / 2;
            let pair = s[at] + 256 * s[at + 1];
            let t = FatKind::Fat12.spec_encode(cluster, value, s);
            &&& FatKind::Fat12.spec_decode(cluster, s) == (if cluster % 2 == 0 {
                pair % 4096
            } else {
                pair / 16
            })
            &&& t.len() == s.len()
            &&& t[at] + 256 * t[at + 1] == (if cluster % 2 == 0 {
                (pair / 4096) * 4096 + value % 4096
            } else {
                pair % 16 + 16 * (value % 4096)
            })
            &&& forall|j: int| 0 <= j < s.len() && j != at && j != at + 1 ==> #[trigger] t[j] == s[j]
        }),
{
    let at = (cluster + cluster / 2) as int;
    let w = get16(s, at);
    let g = (value & 0xFFF) as u16;
    let n: u16 = if cluster % 2 == 0 {
        (w & 0xF000) | g
    } else {
        (w & 0xF) | ((g << 4u16) as u16)
    };
    lemma_le_arith(s[at], s[at + 1], 0, 0, w, value, g, 0, value, 0);
    lemma_le_arith(0, 0, 0, 0, n, 0, g, 0, value, 0);
    let t = FatKind::Fat12.spec_encode(cluster, value, s);
    assert(t == put16(s, at, n));
    vstd::arithmetic::div_mod::lemma_fundamental_div_mod_converse(value as int, 4096, (value >> 12u32) as int, g as int);
    vstd::arithmetic::div_mod::lemma_fundamental_div_mod_converse(w as int, 4096, (w >> 12u16) as int, (w & 0xFFF) as int);
    vstd::arithmetic::div_mod::lemma_fundamental_div_mod_converse(w as int, 16, (w >> 4u16) as int, (w & 0xF) as int);
}

/// The media entry of each variant: the media byte under the entry's
/// other bits, all set.
pub proof fn lemma_media_entry_value(m: u8)
    ensures
        (FatKind::Fat12.spec_mask() & !0xFFu32) | m as u32 == 0xF00 + m,
        (FatKind::Fat16.spec_mask() & !0xFFu32) | m as u32 == 0xFF00 + m,
        (FatKind::Fat32.spec_mask() & !0xFFu32) | m as u32 == 0x0FFF_FF00 + m,
{
    lemma_le_arith(0, 0, 0, 0, 0, 0, 0, 0, 0, m);
}

} // verus!
