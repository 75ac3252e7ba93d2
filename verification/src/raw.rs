//! The 32-byte directory entry layouts and the attribute bits they carry.

use vstd::prelude::*;
use crate::bytes::{get16, get32};
use crate::exfat::{le16, le32};

verus! {

/// `DIR_Attr`: the entry is read-only.
pub const ATTR_READ_ONLY: u8 = 0x01;
/// `DIR_Attr`: the entry is hidden.
pub const ATTR_HIDDEN: u8 = 0x02;
/// `DIR_Attr`: the entry belongs to the system.
pub const ATTR_SYSTEM: u8 = 0x04;
/// `DIR_Attr`: the entry is the volume label.
pub const ATTR_VOLUME_ID: u8 = 0x08;
/// `DIR_Attr`: the entry is a directory.
pub const ATTR_DIRECTORY: u8 = 0x10;
/// `DIR_Attr`: the entry has changed since it was archived.
pub const ATTR_ARCHIVE: u8 = 0x20;
/// The attribute byte of a long-name fragment.
pub const ATTR_LONG_NAME: u8 = 0x0F;
/// The bits compared with [`ATTR_LONG_NAME`] to recognise a fragment.
pub const ATTR_LONG_NAME_MASK: u8 = 0x3F;
/// First name byte of a deleted entry.
pub const ENTRY_FREE: u8 = 0xE5;
/// First name byte of the entry that ends a directory.
pub const ENTRY_END: u8 = 0x00;

/// The `N` bytes of `src` from `at`.
pub fn sub_array<const N: usize>(src: &[u8], at: usize) -> (r: [u8; N])
    requires
        at + N <= src@.len(),
    ensures
        r@ == src@.subrange(at as int, at + N),
{
    let len = src.len();
    let mut r = [0u8; N];
    let mut i: usize = 0;
    while i < N
        invariant
            0 <= i <= N,
            at + N <= src@.len(),
            len == src@.len(),
            r@.len() == N,
            forall|j: int| 0 <= j < i ==> r@[j] == src@[at + j],
        decreases N - i,
    {
        r[i] = src[at + i];
        i += 1;
    }
    assert(r@ =~= src@.subrange(at as int, at + N));
    r
}

/// Copies `part` into `out` from `at`.
pub fn put_array<const N: usize>(out: &mut [u8], at: usize, part: &[u8; N])
    requires
        at + N <= old(out)@.len(),
    ensures
        final(out)@.len() == old(out)@.len(),
        final(out)@.subrange(at as int, at + N) == part@,
        forall|j: int| 0 <= j < old(out)@.len() && !(at <= j < at + N) ==> final(out)@[j] == old(
            out,
        )@[j],
{
    let len = out.len();
    let mut i: usize = 0;
    while i < N
        invariant
            0 <= i <= N,
            at + N <= old(out)@.len(),
            len == old(out)@.len(),
            out@.len() == old(out)@.len(),
            forall|j: int| at <= j < at + i ==> out@[j] == part@[j - at],
            forall|j: int| 0 <= j < old(out)@.len() && !(at <= j < at + i) ==> out@[j] == old(
                out,
            )@[j],
        decreases N - i,
    {
        out[at + i] = part[i];
        i += 1;
    }
    assert(out@.subrange(at as int, at + N) =~= part@);
}

/// Raw 32-byte FAT short-name file or directory entry.
#[derive(Clone, Copy)]
pub struct RawFileEntry {
    /// `DIR_Name`: the 8.3 name padded with spaces; a leading `0x05`
    /// stands for `0xE5`.
    pub name: [u8; 11],
    /// `DIR_Attr`.
    pub attributes: u8,
    /// `DIR_NTRes`: the case bits of the 8.3 name.
    pub reserved: u8,
    /// `DIR_CrtTimeTenth`.
    pub creation_time_tenth: u8,
    /// `DIR_CrtTime`.
    pub creation_time: [u8; 2],
    /// `DIR_CrtDate`.
    pub creation_date: [u8; 2],
    /// `DIR_LstAccDate`.
    pub last_access_date: [u8; 2],
    /// `DIR_FstClusHI`.
    pub first_cluster_high: u16,
    /// `DIR_WrtTime`.
    pub last_write_time: [u8; 2],
    /// `DIR_WrtDate`.
    pub last_write_date: [u8; 2],
    /// `DIR_FstClusLO`.
    pub first_cluster_low: u16,
    /// `DIR_FileSize`.
    pub size: u32,
}

impl RawFileEntry {
    /// Reads the entry from its 32 bytes.
    pub fn from_bytes(raw: &[u8; 32]) -> (e: Self)
        ensures
            e.name@ == raw@.subrange(0, 11),
            e.attributes == raw@[11],
            e.reserved == raw@[12],
            e.creation_time_tenth == raw@[13],
            e.creation_time@ == raw@.subrange(14, 16),
            e.creation_date@ == raw@.subrange(16, 18),
            e.last_access_date@ == raw@.subrange(18, 20),
            e.first_cluster_high == get16(raw@, 20),
            e.last_write_time@ == raw@.subrange(22, 24),
            e.last_write_date@ == raw@.subrange(24, 26),
            e.first_cluster_low == get16(raw@, 26),
            e.size == get32(raw@, 28),
    {
        let s: &[u8] = raw;
        RawFileEntry {
            name: sub_array(s, 0),
            attributes: raw[11],
            reserved: raw[12],
            creation_time_tenth: raw[13],
            creation_time: sub_array(s, 14),
            creation_date: sub_array(s, 16),
            last_access_date: sub_array(s, 18),
            first_cluster_high: le16(s, 20),
            last_write_time: sub_array(s, 22),
            last_write_date: sub_array(s, 24),
            first_cluster_low: le16(s, 26),
            size: le32(s, 28),
        }
    }
}

/// A long file name entry: 13 UTF-16 code units of a name of up to 255,
/// tied to the short entry after its run by a checksum.
#[derive(Clone, Copy)]
pub struct RawLfnEntry {
    /// `LDIR_Ord`: the 1-based number of the fragment, with `0x40` on the
    /// last one.
    pub sequence_number: u8,
    /// `LDIR_Name1`: code units 1 to 5.
    pub name1: [u8; 10],
    /// `LDIR_Attr`: [`ATTR_LONG_NAME`].
    pub attributes: u8,
    /// `LDIR_Type`: 0.
    pub ty: u8,
    /// `LDIR_Chksum`: the checksum of the short name.
    pub checksum: u8,
    /// `LDIR_Name2`: code units 6 to 11.
    pub name2: [u8; 12],
    /// `LDIR_FstClusLO`: 0.
    pub first_cluster_low: [u8; 2],
    /// `LDIR_Name3`: code units 12 and 13.
    pub name3: [u8; 4],
}

/// The 32 bytes of a long-name entry with these fields.
pub open spec fn lfn_bytes(e: RawLfnEntry) -> Seq<u8> {
    seq![e.sequence_number] + e.name1@ + seq![e.attributes, e.ty, e.checksum] + e.name2@
        + e.first_cluster_low@ + e.name3@
}

impl RawLfnEntry {
    /// Reads the entry from its 32 bytes.
    pub fn from_bytes(raw: &[u8; 32]) -> (e: Self)
        ensures
            lfn_bytes(e) == raw@,
    {
        let s: &[u8] = raw;
        let e = RawLfnEntry {
            sequence_number: raw[0],
            name1: sub_array(s, 1),
            attributes: raw[11],
            ty: raw[12],
            checksum: raw[13],
            name2: sub_array(s, 14),
            first_cluster_low: sub_array(s, 26),
            name3: sub_array(s, 28),
        };
        assert(lfn_bytes(e) =~= raw@);
        e
    }

    /// The entry's 32 bytes.
    pub fn to_bytes(&self) -> (raw: [u8; 32])
        ensures
            raw@ == lfn_bytes(*self),
    {
        let mut raw = [0u8; 32];
        raw[0] = self.sequence_number;
        put_array(&mut raw, 1, &self.name1);
        raw[11] = self.attributes;
        raw[12] = self.ty;
        raw[13] = self.checksum;
        put_array(&mut raw, 14, &self.name2);
        put_array(&mut raw, 26, &self.first_cluster_low);
        put_array(&mut raw, 28, &self.name3);
        assert(raw@ =~= lfn_bytes(*self));
        raw
    }
}

/// Attribute bits stored in a FAT directory entry.
#[derive(Debug, Clone, Copy, PartialEq, Eq, Structural)]
pub struct DirEntryAttrFlags {
    /// The bits, of which only the low six have names.
    pub bits: u8,
}

impl DirEntryAttrFlags {
    /// The flags of `bits`, keeping only the six named ones.
    pub fn from_bits_truncate(bits: u8) -> (f: Self)
        ensures
            f.bits == bits & 0x3F,
    {
        DirEntryAttrFlags { bits: bits & 0x3F }
    }

    /// The raw bits.
    pub fn bits(self) -> (b: u8)
        ensures
            b == self.bits,
    {
        self.bits
    }

    /// Whether every bit of `other` is set.
    pub fn contains(self, other: Self) -> (b: bool)
        ensures
            b == (self.bits & other.bits == other.bits),
    {
        self.bits & other.bits == other.bits
    }

    /// True for a root-directory volume label entry (`VOLUME_ID` set, not a
    /// directory, not an LFN component).
    pub fn is_volume_label_entry(self) -> (b: bool)
        ensures
            b == (self.bits & ATTR_VOLUME_ID != 0 && self.bits & ATTR_DIRECTORY == 0 && self.bits
                != ATTR_LONG_NAME),
    {
        self.bits & ATTR_VOLUME_ID != 0 && self.bits & ATTR_DIRECTORY == 0 && self.bits
            != ATTR_LONG_NAME
    }
}

/// Windows NT 8.3 name case flags stored in the `DIR_NTRes` byte.
#[derive(Debug, Clone, Copy, PartialEq, Eq, Structural)]
pub struct NtCaseFlags {
    /// The bits.
    pub bits: u8,
}

} // verus!
