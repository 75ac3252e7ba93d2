//! 32-byte directory entries: classification and short-entry fields.

use vstd::prelude::*;
use crate::bytes::{bytes16, bytes32, get16, get32, lemma_split16, lemma_split32, write16, write32};
use crate::exfat::{le16, le32};
use crate::kind::FatKind;
use crate::lfn::{name_bytes, pack, packed};
use crate::raw::{
    put_array, sub_array, ATTR_DIRECTORY, ATTR_LONG_NAME, ATTR_LONG_NAME_MASK, ATTR_VOLUME_ID,
    ENTRY_END, ENTRY_FREE,
};

verus! {

/// Size of one directory entry.
pub const ENTRY_SIZE: u64 = 32;
/// The most entries one directory may hold.
pub const MAX_ENTRIES: u32 = 65_536;

/// One long-name fragment, decoded from a long-name entry.
#[derive(Debug, Clone, Copy, PartialEq, Eq)]
pub struct LongEntry {
    /// `LDIR_Ord`.
    pub sequence: u8,
    /// `LDIR_Chksum`.
    pub checksum: u8,
    /// `LDIR_Name1`.
    pub name1: [u8; 10],
    /// `LDIR_Name2`.
    pub name2: [u8; 12],
    /// `LDIR_Name3`.
    pub name3: [u8; 4],
}

/// The fields of a short entry.
#[derive(Debug, Clone, Copy, PartialEq, Eq)]
pub struct ShortEntry {
    /// The 11 name bytes as stored, so a leading `0xE5` reads `0x05`.
    pub name: [u8; 11],
    /// `DIR_Attr`.
    pub attr: u8,
    /// `DIR_NTRes`: the case bits of the name.
    pub nt_case: u8,
    /// `DIR_CrtTimeTenth`.
    pub created_tenths: u8,
    /// `DIR_CrtTime`.
    pub created_time: u16,
    /// `DIR_CrtDate`.
    pub created_date: u16,
    /// `DIR_LstAccDate`.
    pub accessed_date: u16,
    /// `DIR_FstClusHI`.
    pub cluster_high: u16,
    /// `DIR_WrtTime`.
    pub modified_time: u16,
    /// `DIR_WrtDate`.
    pub modified_date: u16,
    /// `DIR_FstClusLO`.
    pub cluster_low: u16,
    /// `DIR_FileSize`.
    pub size: u32,
}

/// What a directory slot holds.
#[derive(Debug, Clone, Copy, PartialEq, Eq)]
pub enum Slot {
    /// No entry here or after.
    End,
    /// A deleted entry.
    Free,
    /// A long-name fragment.
    Long(LongEntry),
    /// A short entry: a file, a directory, `.`/`..` or the volume label.
    Short(ShortEntry),
}

/// Whether `raw` is a long-name fragment once it is neither the end nor
/// free.
pub open spec fn is_long(raw: Seq<u8>) -> bool {
    raw[11] & ATTR_LONG_NAME_MASK == ATTR_LONG_NAME
}

/// Whether `e` holds the fields of the short entry in `raw`.
pub open spec fn short_fields(raw: Seq<u8>, e: ShortEntry) -> bool {
    &&& e.name@ == raw.subrange(0, 11)
    &&& e.attr == raw[11]
    &&& e.nt_case == raw[12]
    &&& e.created_tenths == raw[13]
    &&& e.created_time == get16(raw, 14)
    &&& e.created_date == get16(raw, 16)
    &&& e.accessed_date == get16(raw, 18)
    &&& e.cluster_high == get16(raw, 20)
    &&& e.modified_time == get16(raw, 22)
    &&& e.modified_date == get16(raw, 24)
    &&& e.cluster_low == get16(raw, 26)
    &&& e.size == get32(raw, 28)
}

/// Whether `l` holds the fields of the long-name entry in `raw`.
pub open spec fn long_fields(raw: Seq<u8>, l: LongEntry) -> bool {
    &&& l.sequence == raw[0]
    &&& l.checksum == raw[13]
    &&& l.name1@ == raw.subrange(1, 11)
    &&& l.name2@ == raw.subrange(14, 26)
    &&& l.name3@ == raw.subrange(28, 32)
}

/// Whether `slot` is what the 32 bytes `raw` hold.
pub open spec fn parses_as(raw: Seq<u8>, slot: Slot) -> bool {
    match slot {
        Slot::End => raw[0] == ENTRY_END,
        Slot::Free => raw[0] == ENTRY_FREE,
        Slot::Long(l) => raw[0] != ENTRY_END && raw[0] != ENTRY_FREE && is_long(raw) && long_fields(
            raw,
            l,
        ),
        Slot::Short(e) => raw[0] != ENTRY_END && raw[0] != ENTRY_FREE && !is_long(raw)
            && short_fields(raw, e),
    }
}

impl Slot {
    /// Classifies a slot and decodes its fields.
    pub fn parse(raw: &[u8; 32]) -> (s: Self)
        ensures
            parses_as(raw@, s),
    {
        if raw[0] == ENTRY_END {
            return Slot::End;
        }
        if raw[0] == ENTRY_FREE {
            return Slot::Free;
        }
        let b: &[u8] = raw;
        if raw[11] & ATTR_LONG_NAME_MASK == ATTR_LONG_NAME {
            return Slot::Long(
                LongEntry {
                    sequence: raw[0],
                    checksum: raw[13],
                    name1: sub_array(b, 1),
                    name2: sub_array(b, 14),
                    name3: sub_array(b, 28),
                },
            );
        }
        Slot::Short(
            ShortEntry {
                name: sub_array(b, 0),
                attr: raw[11],
                nt_case: raw[12],
                created_tenths: raw[13],
                created_time: le16(b, 14),
                created_date: le16(b, 16),
                accessed_date: le16(b, 18),
                cluster_high: le16(b, 20),
                modified_time: le16(b, 22),
                modified_date: le16(b, 24),
                cluster_low: le16(b, 26),
                size: le32(b, 28),
            },
        )
    }
}

/// A slot is one thing only: the bytes determine what they parse as.
pub proof fn lemma_parses_as_unique(raw: Seq<u8>, a: Slot, b: Slot)
    requires
        raw.len() == 32,
        parses_as(raw, a),
        parses_as(raw, b),
    ensures
        a == b,
{
    match (a, b) {
        (Slot::Long(x), Slot::Long(y)) => {
            assert(x.name1@ =~= y.name1@);
            assert(x.name2@ =~= y.name2@);
            assert(x.name3@ =~= y.name3@);
            assert(x.name1 == y.name1);
            assert(x.name2 == y.name2);
            assert(x.name3 == y.name3);
        },
        (Slot::Short(x), Slot::Short(y)) => {
            assert(x.name@ =~= y.name@);
            assert(x.name == y.name);
        },
        _ => {},
    }
}

/// The 32 bytes of the long-name entry with `sequence`, `checksum` and the
/// name bytes `name`.
pub open spec fn long_bytes(sequence: u8, checksum: u8, name: Seq<u8>) -> Seq<u8> {
    seq![sequence] + name.subrange(0, 10) + seq![ATTR_LONG_NAME, 0u8, checksum] + name.subrange(10, 22)
        + seq![0u8, 0u8] + name.subrange(22, 26)
}

/// Encodes one long-name fragment as a directory slot.
pub fn encode_long(sequence: u8, checksum: u8, units: &[u16; 13]) -> (raw: [u8; 32])
    ensures
        raw@ == long_bytes(sequence, checksum, packed(units@)),
{
    let (name1, name2, name3) = pack(units);
    let mut raw = [0u8; 32];
    raw[0] = sequence;
    put_array(&mut raw, 1, &name1);
    raw[11] = ATTR_LONG_NAME;
    raw[12] = 0;
    raw[13] = checksum;
    put_array(&mut raw, 14, &name2);
    raw[26] = 0;
    raw[27] = 0;
    put_array(&mut raw, 28, &name3);
    proof {
        assert(name1@ == packed(units@).subrange(0, 10)) by {
            assert(name_bytes(name1, name2, name3).subrange(0, 10) =~= name1@);
        }
        assert(name2@ == packed(units@).subrange(10, 22)) by {
            assert(name_bytes(name1, name2, name3).subrange(10, 22) =~= name2@);
        }
        assert(name3@ == packed(units@).subrange(22, 26)) by {
            assert(name_bytes(name1, name2, name3).subrange(22, 26) =~= name3@);
        }
    }
    assert(raw@ =~= long_bytes(sequence, checksum, packed(units@)));
    raw
}

/// A long-name entry reads back as the fragment it was made from, unless
/// its sequence byte marks the end of the directory or a free slot.
pub proof fn lemma_long_round_trip(sequence: u8, checksum: u8, name: Seq<u8>, s: Slot)
    requires
        name.len() == 26,
        sequence != ENTRY_END,
        sequence != ENTRY_FREE,
        parses_as(long_bytes(sequence, checksum, name), s),
    ensures
        s matches Slot::Long(l) && l.sequence == sequence && l.checksum == checksum && name_bytes(
            l.name1,
            l.name2,
            l.name3,
        ) == name,
{
    let raw = long_bytes(sequence, checksum, name);
    assert(raw[11] == ATTR_LONG_NAME);
    assert(ATTR_LONG_NAME & ATTR_LONG_NAME_MASK == ATTR_LONG_NAME) by (bit_vector);
    if let Slot::Long(l) = s {
        assert(l.name1@ =~= name.subrange(0, 10));
        assert(l.name2@ =~= name.subrange(10, 22));
        assert(l.name3@ =~= name.subrange(22, 26));
        assert(name_bytes(l.name1, l.name2, l.name3) =~= name);
    }
}

/// The 32 bytes of the short entry `e`.
pub open spec fn short_bytes(e: ShortEntry) -> Seq<u8> {
    e.name@ + seq![e.attr, e.nt_case, e.created_tenths] + bytes16(e.created_time) + bytes16(
        e.created_date,
    ) + bytes16(e.accessed_date) + bytes16(e.cluster_high) + bytes16(e.modified_time) + bytes16(
        e.modified_date,
    ) + bytes16(e.cluster_low) + bytes32(e.size)
}

/// The first cluster `e` names, as `kind` reads it.
pub open spec fn spec_first_cluster(e: ShortEntry, kind: FatKind) -> u32 {
    match kind {
        FatKind::Fat32 => ((((e.cluster_high as u32) << 16u32) | e.cluster_low as u32)
            & 0x0FFF_FFFF) as u32,
        _ => e.cluster_low as u32,
    }
}

impl ShortEntry {
    /// An entry with the given stored name and attributes, no times, no
    /// clusters and size 0.
    pub fn new(name: [u8; 11], attr: u8) -> (e: Self)
        ensures
            e.name == name && e.attr == attr,
            e.nt_case == 0 && e.created_tenths == 0 && e.created_time == 0 && e.created_date == 0
                && e.accessed_date == 0 && e.cluster_high == 0 && e.modified_time == 0
                && e.modified_date == 0 && e.cluster_low == 0 && e.size == 0,
    {
        ShortEntry {
            name,
            attr,
            nt_case: 0,
            created_tenths: 0,
            created_time: 0,
            created_date: 0,
            accessed_date: 0,
            cluster_high: 0,
            modified_time: 0,
            modified_date: 0,
            cluster_low: 0,
            size: 0,
        }
    }

    /// Encodes the entry as a directory slot.
    pub fn encode(&self) -> (raw: [u8; 32])
        ensures
            raw@ == short_bytes(*self),
    {
        let mut raw = [0u8; 32];
        put_array(&mut raw, 0, &self.name);
        raw[11] = self.attr;
        raw[12] = self.nt_case;
        raw[13] = self.created_tenths;
        write16(&mut raw, 14, self.created_time);
        write16(&mut raw, 16, self.created_date);
        write16(&mut raw, 18, self.accessed_date);
        write16(&mut raw, 20, self.cluster_high);
        write16(&mut raw, 22, self.modified_time);
        write16(&mut raw, 24, self.modified_date);
        write16(&mut raw, 26, self.cluster_low);
        write32(&mut raw, 28, self.size);
        assert(raw@ =~= short_bytes(*self));
        raw
    }

    /// Sets the first cluster. FAT12/16 keep whatever the high word held.
    pub fn set_first_cluster(&mut self, kind: FatKind, cluster: u32)
        ensures
            final(self).cluster_low == cluster as u16,
            final(self).cluster_high == (if kind == FatKind::Fat32 {
                (cluster >> 16u32) as u16
            } else {
                old(self).cluster_high
            }),
            final(self).name == old(self).name,
            final(self).attr == old(self).attr,
            final(self).nt_case == old(self).nt_case,
            final(self).created_tenths == old(self).created_tenths,
            final(self).created_time == old(self).created_time,
            final(self).created_date == old(self).created_date,
            final(self).accessed_date == old(self).accessed_date,
            final(self).modified_time == old(self).modified_time,
            final(self).modified_date == old(self).modified_date,
            final(self).size == old(self).size,
    {
        self.cluster_low = cluster as u16;
        if let FatKind::Fat32 = kind {
            self.cluster_high = (cluster >> 16u32) as u16;
        }
    }

    /// Whether this is a directory.
    pub fn is_dir(&self) -> (b: bool)
        ensures
            b == (self.attr & ATTR_DIRECTORY != 0),
    {
        self.attr & ATTR_DIRECTORY != 0
    }

    /// Whether this is the volume label rather than a file or directory.
    pub fn is_label(&self) -> (b: bool)
        ensures
            b == (self.attr & ATTR_VOLUME_ID != 0),
    {
        self.attr & ATTR_VOLUME_ID != 0
    }

    /// Whether this is the `.` or `..` entry of a subdirectory.
    pub fn is_dot(&self) -> (b: bool)
        ensures
            b == (self.name[0] == 0x2E),
    {
        self.name[0] == 0x2E
    }

    /// Whether this is the `..` entry: two dots, then spaces.
    pub fn is_dot_dot(&self) -> (b: bool)
        ensures
            b == (self.name@ == seq![0x2Eu8, 0x2E, 0x20, 0x20, 0x20, 0x20, 0x20, 0x20, 0x20, 0x20, 0x20]),
    {
        let r = self.name[0] == 0x2E && self.name[1] == 0x2E && self.name[2] == 0x20 && self.name[3]
            == 0x20 && self.name[4] == 0x20 && self.name[5] == 0x20 && self.name[6] == 0x20
            && self.name[7] == 0x20 && self.name[8] == 0x20 && self.name[9] == 0x20 && self.name[10]
            == 0x20;
        assert(r ==> self.name@ =~= seq![0x2Eu8, 0x2E, 0x20, 0x20, 0x20, 0x20, 0x20, 0x20, 0x20, 0x20, 0x20]);
        r
    }

    /// Whether a listing shows this entry: neither the label nor a dot
    /// entry.
    pub fn is_visible(&self) -> (b: bool)
        ensures
            b == (self.attr & ATTR_VOLUME_ID == 0 && self.name[0] != 0x2E),
    {
        !self.is_label() && !self.is_dot()
    }

    /// The first cluster. FAT12/16 have no high word; some tools keep other
    /// data there, so it is ignored.
    pub fn first_cluster(&self, kind: FatKind) -> (c: u32)
        ensures
            c == spec_first_cluster(*self, kind),
    {
        match kind {
            FatKind::Fat32 => (((self.cluster_high as u32) << 16u32) | self.cluster_low as u32)
                & kind.mask(),
            FatKind::Fat12 | FatKind::Fat16 => self.cluster_low as u32,
        }
    }
}

/// A short entry reads back as itself, unless its first name byte marks
/// the end of the directory or a free slot or its attributes mark a
/// long-name fragment.
pub proof fn lemma_short_round_trip(e: ShortEntry, s: Slot)
    requires
        e.name[0] != ENTRY_END,
        e.name[0] != ENTRY_FREE,
        e.attr & ATTR_LONG_NAME_MASK != ATTR_LONG_NAME,
        parses_as(short_bytes(e), s),
    ensures
        s == Slot::Short(e),
{
    let raw = short_bytes(e);
    assert(raw.len() == 32);
    lemma_split16(e.created_time);
    lemma_split16(e.created_date);
    lemma_split16(e.accessed_date);
    lemma_split16(e.cluster_high);
    lemma_split16(e.modified_time);
    lemma_split16(e.modified_date);
    lemma_split16(e.cluster_low);
    lemma_split32(e.size);
    assert(raw.subrange(0, 11) =~= e.name@);
    assert(raw[0] == e.name[0]);
    assert(short_fields(raw, e));
    lemma_parses_as_unique(raw, s, Slot::Short(e));
}

/// Setting the first cluster and reading it back gives the cluster, within
/// the bits the variant keeps: 28 on FAT32, 16 on FAT12 and FAT16.
pub proof fn lemma_first_cluster_round_trip(e: ShortEntry, kind: FatKind, cluster: u32, f: ShortEntry)
    requires
        f.cluster_low == cluster as u16,
        f.cluster_high == (if kind == FatKind::Fat32 {
            (cluster >> 16u32) as u16
        } else {
            e.cluster_high
        }),
    ensures
        kind == FatKind::Fat32 ==> spec_first_cluster(f, kind) == cluster & 0x0FFF_FFFF,
        kind != FatKind::Fat32 ==> spec_first_cluster(f, kind) == cluster & 0xFFFF,
{
    assert(((((((cluster >> 16u32) as u16) as u32) << 16u32) | ((cluster as u16) as u32))
        & 0x0FFF_FFFF) == cluster & 0x0FFF_FFFF && ((cluster as u16) as u32) == cluster & 0xFFFF)
        by (bit_vector);
}

} // verus!
