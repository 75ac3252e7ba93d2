//! exFAT File entry sets: the checksum, what makes a set valid, reading
//! its fields and building one.

use vstd::prelude::*;
use crate::bytes::{get16, get32, get64, lemma_split16, write16, write32, write64};
use crate::error::ErrorKind;
use crate::exfat::{le16, le32, le64};

verus! {

/// Bytes in a directory entry.
pub const ENTRY_SIZE: usize = 32;
/// The most entries a File entry set has: the File and Stream Extension
/// entries and the 17 File Name entries of a 255-unit name.
pub const MAX_SET: usize = 19;
/// `EntryType` bit: the entry is in use.
pub const IN_USE: u8 = 0x80;
/// `EntryType` of a File entry.
pub const ENTRY_FILE: u8 = 0x85;
/// `EntryType` of a Stream Extension entry.
pub const ENTRY_STREAM: u8 = 0xC0;
/// `EntryType` of a File Name entry.
pub const ENTRY_NAME: u8 = 0xC1;
/// `EntryType` bit: a secondary entry.
pub const CATEGORY_SECONDARY: u8 = 0x40;
/// `EntryType` bit: a benign entry, which an implementation may ignore.
pub const IMPORTANCE_BENIGN: u8 = 0x20;
/// `GeneralSecondaryFlags` bit: the entry describes an allocation.
pub const ALLOCATION_POSSIBLE: u8 = 0x01;
/// `GeneralSecondaryFlags` bit: the allocation is contiguous, without a
/// FAT chain.
pub const NO_FAT_CHAIN: u8 = 0x02;
/// `FileAttributes` bit of a directory.
pub const ATTR_DIRECTORY: u16 = 0x0010;
/// Code units of the name each File Name entry holds.
pub const NAME_UNITS_PER_ENTRY: usize = 15;

/// One step of the entry set checksum: rotate right by one, add the byte.
pub open spec fn checksum_step(sum: u16, byte: u8) -> u16 {
    ((sum / 2 + (sum % 2) * 0x8000 + byte) % 0x1_0000) as u16
}

/// `sum` carried over the first `n` bytes of `entry`; bytes 2 and 3, the
/// checksum field, skipped in the set's first entry.
pub open spec fn entry_sum(sum: u16, entry: Seq<u8>, first: bool, n: int) -> u16
    decreases n,
{
    if n <= 0 {
        sum
    } else {
        let s = entry_sum(sum, entry, first, n - 1);
        if first && (n - 1 == 2 || n - 1 == 3) {
            s
        } else {
            checksum_step(s, entry[n - 1])
        }
    }
}

/// `hash` carried over the code unit `unit`: its low byte, then its high
/// byte, each rotated in as the checksums do.
pub open spec fn spec_hash_unit(hash: u16, unit: u16) -> u16 {
    checksum_step(checksum_step(hash, (unit % 256) as u8), (unit / 256) as u8)
}

/// The `NameHash` of the up-cased name `upcased`.
pub open spec fn spec_name_hash(upcased: Seq<u16>) -> u16
    decreases upcased.len(),
{
    if upcased.len() == 0 {
        0
    } else {
        spec_hash_unit(spec_name_hash(upcased.drop_last()), upcased.last())
    }
}

/// Carries the name hash `hash` over the up-cased code unit `unit`.
pub fn hash_unit(hash: u16, unit: u16) -> (h: u16)
    ensures
        h == spec_hash_unit(hash, unit),
{
    let low = (unit & 0xFF) as u8;
    let high = (unit >> 8u16) as u8;
    assert(low == unit % 256 && high == unit / 256) by (bit_vector)
        requires
            low == (unit & 0xFF) as u8,
            high == (unit >> 8u16) as u8,
    ;
    step(step(hash, low), high)
}

/// The `NameHash` of a name whose code units, up-cased through the
/// volume's table, are `upcased`.
pub fn name_hash(upcased: &[u16]) -> (h: u16)
    ensures
        h == spec_name_hash(upcased@),
{
    let mut h: u16 = 0;
    let mut i: usize = 0;
    while i < upcased.len()
        invariant
            i <= upcased@.len(),
            h == spec_name_hash(upcased@.take(i as int)),
        decreases upcased@.len() - i,
    {
        assert(upcased@.take(i + 1).drop_last() =~= upcased@.take(i as int));
        h = hash_unit(h, upcased[i]);
        i += 1;
    }
    assert(upcased@.take(i as int) =~= upcased@);
    h
}

/// The `SetChecksum` of `entries`.
pub open spec fn spec_set_checksum(entries: Seq<[u8; 32]>) -> u16
    decreases entries.len(),
{
    if entries.len() == 0 {
        0
    } else {
        entry_sum(spec_set_checksum(entries.drop_last()), entries.last()@, entries.len() == 1, 32)
    }
}

fn step(sum: u16, byte: u8) -> (r: u16)
    ensures
        r == checksum_step(sum, byte),
{
    let rotated = (sum >> 1u16) | ((sum & 1) << 15u16);
    assert(rotated == sum / 2 + (sum % 2) * 0x8000) by (bit_vector)
        requires
            rotated == (sum >> 1u16) | ((sum & 1) << 15u16),
    ;
    rotated.wrapping_add(byte as u16)
}

/// The `SetChecksum` of `entries`: every byte rotated in, but the checksum
/// field of the first entry.
pub fn set_checksum(entries: &[[u8; 32]]) -> (sum: u16)
    ensures
        sum == spec_set_checksum(entries@),
{
    let mut sum: u16 = 0;
    let mut e: usize = 0;
    while e < entries.len()
        invariant
            e <= entries@.len(),
            sum == spec_set_checksum(entries@.take(e as int)),
        decreases entries@.len() - e,
    {
        let entry = entries[e];
        let ghost start = sum;
        let mut b: usize = 0;
        while b < 32
            invariant
                b <= 32,
                sum == entry_sum(start, entry@, e == 0, b as int),
            decreases 32 - b,
        {
            if !(e == 0 && (b == 2 || b == 3)) {
                sum = step(sum, entry[b]);
            }
            b += 1;
        }
        proof {
            assert(entries@.take(e + 1).drop_last() =~= entries@.take(e as int));
            assert(entries@.take(e + 1).last() == entry);
        }
        e += 1;
    }
    assert(entries@.take(e as int) =~= entries@);
    sum
}

/// File Name entries a name of `len` code units takes.
pub open spec fn name_entries(len: int) -> int {
    (len + 14) / 15
}

/// Whether `entries` start with a File entry set: a File entry counting
/// 2 to 18 secondaries, a Stream Extension with a name length, the File
/// Name entries that length needs, in-use secondary entries after them,
/// and a matching checksum.
pub open spec fn spec_parse_set(entries: Seq<[u8; 32]>) -> bool {
    let primary = entries[0];
    let count = 1 + primary[1];
    let stream = entries[1];
    let len = stream[3] as int;
    let names = name_entries(len);
    &&& entries.len() >= 1
    &&& primary[0] == ENTRY_FILE
    &&& 2 <= primary[1] < MAX_SET
    &&& count <= entries.len()
    &&& stream[0] == ENTRY_STREAM
    &&& len != 0
    &&& 2 + names <= count
    &&& forall|i: int| 2 <= i < 2 + names ==> (#[trigger] entries[i])[0] == ENTRY_NAME
    &&& forall|i: int|
        2 + names <= i < count ==> (#[trigger] entries[i])[0] & CATEGORY_SECONDARY != 0
            && entries[i][0] & IN_USE != 0
    &&& spec_set_checksum(entries.take(count)) == get16(primary@, 2)
}

/// Whether the entries form a File entry set with a Stream Extension, the
/// File Name entries its name length needs, and a valid checksum.
pub fn parse_set(entries: &[[u8; 32]]) -> (ok: bool)
    ensures
        ok == spec_parse_set(entries@),
{
    if entries.len() < 1 {
        return false;
    }
    let primary = entries[0];
    if primary[0] != ENTRY_FILE || !(2 <= primary[1] && (primary[1] as usize) < MAX_SET) {
        return false;
    }
    let count = 1 + primary[1] as usize;
    if count > entries.len() {
        return false;
    }
    let stream = entries[1];
    let len = stream[3] as usize;
    if stream[0] != ENTRY_STREAM || len == 0 {
        return false;
    }
    let names = (len + 14) / 15;
    if 2 + names > count {
        return false;
    }
    let mut i: usize = 2;
    while i < 2 + names
        invariant
            2 <= i <= 2 + names <= count <= entries@.len(),
            count == 1 + entries@[0][1],
            names == name_entries(entries@[1][3] as int),
            forall|j: int| 2 <= j < i ==> (#[trigger] entries@[j])[0] == ENTRY_NAME,
        decreases 2 + names - i,
    {
        if entries[i][0] != ENTRY_NAME {
            assert(entries@[i as int][0] != ENTRY_NAME);
            return false;
        }
        i += 1;
    }
    let mut i = 2 + names;
    while i < count
        invariant
            2 + names <= i <= count <= entries@.len(),
            count == 1 + entries@[0][1],
            names == name_entries(entries@[1][3] as int),
            forall|j: int|
                2 + names <= j < i ==> (#[trigger] entries@[j])[0] & CATEGORY_SECONDARY != 0
                    && entries@[j][0] & IN_USE != 0,
        decreases count - i,
    {
        let kind = entries[i][0];
        if kind & CATEGORY_SECONDARY == 0 || kind & IN_USE == 0 {
            assert(!(entries@[i as int][0] & CATEGORY_SECONDARY != 0 && entries@[i as int][0] & IN_USE != 0));
            return false;
        }
        i += 1;
    }
    let set = slice_prefix(entries, count);
    set_checksum(set) == le16(&primary, 2)
}

/// The first `n` entries of `entries`.
fn slice_prefix(entries: &[[u8; 32]], n: usize) -> (s: &[[u8; 32]])
    requires
        n <= entries@.len(),
    ensures
        s@ == entries@.take(n as int),
{
    let s = vstd::slice::slice_subrange(entries, 0, n);
    assert(s@ =~= entries@.take(n as int));
    s
}

/// Where a file's or directory's clusters are.
#[derive(Debug, Clone, Copy, PartialEq, Eq, Structural)]
pub struct Alloc {
    /// The first cluster; 0 when nothing is allocated.
    pub first: u32,
    /// Whether the clusters are contiguous, without a FAT chain.
    pub contiguous: bool,
}

/// The allocations and lengths that the benign secondary entries among
/// `extras` hold, in order.
pub open spec fn allocs_of(extras: Seq<[u8; 32]>) -> Seq<(Alloc, u64)>
    decreases extras.len(),
{
    if extras.len() == 0 {
        Seq::empty()
    } else {
        let rest = allocs_of(extras.drop_last());
        let e = extras.last();
        if e[0] & IMPORTANCE_BENIGN != 0 && e[1] & ALLOCATION_POSSIBLE != 0 {
            rest.push(
                (Alloc { first: get32(e@, 20), contiguous: e[1] & NO_FAT_CHAIN != 0 }, get64(e@, 24)),
            )
        } else {
            rest
        }
    }
}

/// A File entry set read from a directory.
#[derive(Clone, Copy)]
pub struct EntrySet {
    /// Byte offset of the File entry.
    pub offset: u64,
    /// How many entries the set has.
    pub count: usize,
    /// The entries.
    pub raw: [[u8; 32]; MAX_SET],
    /// Byte offset of each entry.
    pub at: [u64; MAX_SET],
}

impl EntrySet {
    /// The code unit `at` of the name, from its File Name entries.
    pub open spec fn unit_at(&self, at: int) -> u16 {
        get16(self.raw@[2 + at / 15]@, 2 + (at % 15) * 2)
    }

    /// Where the entries after the name start.
    pub open spec fn extras_start(&self) -> int {
        2 + name_entries(self.raw@[1][3] as int)
    }

    /// An empty set for a read to fill.
    pub fn new() -> (s: Self)
        ensures
            s.offset == 0,
            s.count == 0,
            forall|i: int, j: int| 0 <= i < MAX_SET && 0 <= j < 32 ==> s.raw@[i][j] == 0,
            forall|i: int| 0 <= i < MAX_SET ==> s.at@[i] == 0,
    {
        EntrySet { offset: 0, count: 0, raw: [[0u8; 32]; MAX_SET], at: [0u64; MAX_SET] }
    }

    /// `FileAttributes` of the File entry.
    pub fn attributes(&self) -> (a: u16)
        ensures
            a == get16(self.raw@[0]@, 4),
    {
        le16(&self.raw[0], 4)
    }

    /// Whether the set is a directory's.
    pub fn is_dir(&self) -> (b: bool)
        ensures
            b == (get16(self.raw@[0]@, 4) & ATTR_DIRECTORY != 0),
    {
        self.attributes() & ATTR_DIRECTORY != 0
    }

    /// `GeneralSecondaryFlags` of the Stream Extension entry.
    pub fn flags(&self) -> (f: u8)
        ensures
            f == self.raw@[1][1],
    {
        self.raw[1][1]
    }

    /// `FirstCluster` of the Stream Extension entry.
    pub fn first(&self) -> (c: u32)
        ensures
            c == get32(self.raw@[1]@, 20),
    {
        le32(&self.raw[1], 20)
    }

    /// `DataLength` of the Stream Extension entry.
    pub fn data_len(&self) -> (n: u64)
        ensures
            n == get64(self.raw@[1]@, 24),
    {
        le64(&self.raw[1], 24)
    }

    /// `ValidDataLength` of the Stream Extension entry.
    pub fn valid_len(&self) -> (n: u64)
        ensures
            n == get64(self.raw@[1]@, 8),
    {
        le64(&self.raw[1], 8)
    }

    /// Where the set's clusters are.
    pub fn allocation(&self) -> (a: Alloc)
        ensures
            a == (Alloc {
                first: get32(self.raw@[1]@, 20),
                contiguous: self.raw@[1][1] & NO_FAT_CHAIN != 0,
            }),
    {
        Alloc { first: self.first(), contiguous: self.flags() & NO_FAT_CHAIN != 0 }
    }

    /// The name's length in code units, from the Stream Extension entry.
    pub fn name_len(&self) -> (n: usize)
        ensures
            n == self.raw@[1][3],
    {
        self.raw[1][3] as usize
    }

    /// The name's code units, read from its File Name entries.
    pub fn name_units(&self) -> (v: Vec<u16>)
        ensures
            v@ == Seq::new(self.raw@[1][3] as nat, |at: int| self.unit_at(at)),
    {
        let len = self.name_len();
        let mut v: Vec<u16> = Vec::new();
        let mut at: usize = 0;
        while at < len
            invariant
                len == self.raw@[1][3],
                at <= len,
                v@ == Seq::new(at as nat, |k: int| self.unit_at(k)),
            decreases len - at,
        {
            let entry = &self.raw[2 + at / NAME_UNITS_PER_ENTRY];
            let unit = le16(entry, 2 + at % NAME_UNITS_PER_ENTRY * 2);
            v.push(unit);
            at += 1;
            assert(v@ =~= Seq::new(at as nat, |k: int| self.unit_at(k)));
        }
        v
    }

    /// Benign secondary entries after the name.
    pub fn extras(&self) -> (e: &[[u8; 32]])
        requires
            self.extras_start() <= self.count <= MAX_SET,
        ensures
            e@ == self.raw@.subrange(self.extras_start(), self.count as int),
    {
        let start = 2 + (self.name_len() + 14) / NAME_UNITS_PER_ENTRY;
        let e = vstd::slice::slice_subrange(self.raw.as_slice(), start, self.count);
        assert(e@ =~= self.raw@.subrange(self.extras_start(), self.count as int));
        e
    }

    /// The allocations and lengths that benign secondary entries, such as
    /// Vendor Allocation entries, hold.
    pub fn extra_allocs(&self) -> (v: Vec<(Alloc, u64)>)
        requires
            self.extras_start() <= self.count <= MAX_SET,
        ensures
            v@ == allocs_of(self.raw@.subrange(self.extras_start(), self.count as int)),
    {
        let extras = self.extras();
        let mut v: Vec<(Alloc, u64)> = Vec::new();
        let mut i: usize = 0;
        while i < extras.len()
            invariant
                i <= extras@.len(),
                v@ == allocs_of(extras@.take(i as int)),
            decreases extras@.len() - i,
        {
            let entry = extras[i];
            proof {
                assert(extras@.take(i + 1).drop_last() =~= extras@.take(i as int));
            }
            if entry[0] & IMPORTANCE_BENIGN != 0 && entry[1] & ALLOCATION_POSSIBLE != 0 {
                let alloc = Alloc { first: le32(&entry, 20), contiguous: entry[1] & NO_FAT_CHAIN != 0 };
                v.push((alloc, le64(&entry, 24)));
            }
            i += 1;
        }
        assert(extras@.take(i as int) =~= extras@);
        v
    }
}

/// `FileAttributes` with the read-only, hidden, system and archive bits as
/// `attributes` has them and the other bits kept.
pub open spec fn applied_attributes(value: u16, attributes: crate::names::Attributes) -> u16 {
    let v1: u16 = if attributes.read_only {
        value | 0x01
    } else {
        value & !0x01u16
    };
    let v2: u16 = if attributes.hidden {
        v1 | 0x02
    } else {
        v1 & !0x02u16
    };
    let v3: u16 = if attributes.system {
        v2 | 0x04
    } else {
        v2 & !0x04u16
    };
    if attributes.archive {
        v3 | 0x20
    } else {
        v3 & !0x20u16
    }
}

/// Sets the read-only, hidden, system and archive bits of the File entry
/// `primary` as `attributes` has them.
pub fn set_attributes(primary: &mut [u8; 32], attributes: crate::names::Attributes)
    ensures
        get16(final(primary)@, 4) == applied_attributes(get16(old(primary)@, 4), attributes),
        forall|j: int| 0 <= j < 32 && j != 4 && j != 5 ==> #[trigger] final(primary)@[j] == old(primary)@[j],
{
    let mut value = le16(primary, 4);
    value = if attributes.read_only {
        value | 0x01
    } else {
        value & !0x01u16
    };
    value = if attributes.hidden {
        value | 0x02
    } else {
        value & !0x02u16
    };
    value = if attributes.system {
        value | 0x04
    } else {
        value & !0x04u16
    };
    value = if attributes.archive {
        value | 0x20
    } else {
        value & !0x20u16
    };
    write16(primary, 4, value);
}

/// `GeneralSecondaryFlags` after [`set_stream`]: an allocation, contiguous
/// or chained as `alloc` is.
pub open spec fn stream_flags(flags: u8, alloc: Alloc) -> u8 {
    if alloc.contiguous {
        flags | ALLOCATION_POSSIBLE | NO_FAT_CHAIN
    } else {
        (flags | ALLOCATION_POSSIBLE) & !NO_FAT_CHAIN
    }
}

/// Records `alloc`, the length `len` and the valid length `valid` in a
/// Stream Extension entry.
pub fn set_stream(stream: &mut [u8; 32], alloc: Alloc, len: u64, valid: u64)
    ensures
        final(stream)@[1] == stream_flags(old(stream)@[1], alloc),
        get64(final(stream)@, 8) == valid,
        get32(final(stream)@, 20) == alloc.first,
        get64(final(stream)@, 24) == len,
        forall|j: int|
            0 <= j < 32 && j != 1 && !(8 <= j < 16) && !(20 <= j < 32) ==> #[trigger] final(stream)@[j] == old(stream)@[j],
{
    let mut flags = stream[1] | ALLOCATION_POSSIBLE;
    if alloc.contiguous {
        flags = flags | NO_FAT_CHAIN;
    } else {
        flags = flags & !NO_FAT_CHAIN;
    }
    stream[1] = flags;
    write64(stream, 8, valid);
    let ghost valid_set = stream@;
    write32(stream, 20, alloc.first);
    write64(stream, 24, len);
    assert(forall|j: int| 8 <= j < 16 ==> stream@[j] == valid_set[j]);
    assert(get64(stream@, 8) == get64(valid_set, 8));
    let ghost done = stream@;
    assert(get32(done, 20) == alloc.first);
}

/// The entries of a set being written, and how to finish an interrupted
/// write of it.
#[derive(Debug, Clone, Copy)]
pub struct SetPending {
    /// Byte offset of each entry.
    pub at: [u64; MAX_SET],
    /// How many entries there are.
    pub count: u8,
    /// How the write is finished.
    pub kind: SetWrite,
}

/// How the next writing operation finishes an interrupted write of an
/// entry set.
#[derive(Debug, Clone, Copy, PartialEq, Eq, Structural)]
pub enum SetWrite {
    /// A new set: removed unless all of it landed.
    Insert,
    /// Changes to a set: its name hash and checksum are made to match the
    /// entries that landed.
    Update,
    /// A removal: completed.
    Clear,
}

impl SetPending {
    /// The entries at the offsets `at`, written as `kind` says.
    pub fn new(at: &[u64], kind: SetWrite) -> (p: Self)
        requires
            at@.len() <= MAX_SET,
        ensures
            p.count == at@.len(),
            p.kind == kind,
            p.at@.take(at@.len() as int) == at@,
            forall|i: int| at@.len() <= i < MAX_SET ==> p.at@[i] == 0,
    {
        let mut all = [0u64; MAX_SET];
        let mut i: usize = 0;
        while i < at.len()
            invariant
                at@.len() <= MAX_SET,
                i <= at@.len(),
                all@.len() == MAX_SET,
                forall|j: int| 0 <= j < i ==> all@[j] == at@[j],
                forall|j: int| i <= j < MAX_SET ==> all@[j] == 0,
            decreases at@.len() - i,
        {
            all[i] = at[i];
            i += 1;
        }
        let p = SetPending { at: all, count: at.len() as u8, kind };
        assert(p.at@.take(at@.len() as int) =~= at@);
        p
    }
}

/// File Name entry `k` of `name`: the entry type, then up to 15 code
/// units, zeros after the name's end.
pub open spec fn name_entry(name: Seq<u16>, k: int) -> Seq<u8> {
    Seq::new(
        32,
        |j: int|
            if j == 0 {
                ENTRY_NAME
            } else if 2 <= j && 15 * k + (j - 2) / 2 < name.len() {
                let unit = name[15 * k + (j - 2) / 2];
                if (j - 2) % 2 == 0 {
                    (unit & 0xFF) as u8
                } else {
                    (unit >> 8u16) as u8
                }
            } else {
                0u8
            },
    )
}

/// Entry `i` of the set [`build_set`] builds, before its checksum is
/// written: the File entry counting `count - 1` secondaries, the Stream
/// Extension with the name's length and hash, the File Name entries, then
/// `extras`.
pub open spec fn built_entry(
    primary: Seq<u8>,
    stream: Seq<u8>,
    name: Seq<u16>,
    hash: u16,
    extras: Seq<[u8; 32]>,
    count: int,
    i: int,
) -> Seq<u8> {
    if i == 0 {
        primary.update(0, ENTRY_FILE).update(1, (count - 1) as u8)
    } else if i == 1 {
        crate::bytes::put16(stream.update(0, ENTRY_STREAM).update(3, name.len() as u8), 4, hash)
    } else if i < 2 + name_entries(name.len() as int) {
        name_entry(name, i - 2)
    } else {
        extras[i - 2 - name_entries(name.len() as int)]@
    }
}

/// Whether `set` holds, in its first `count` entries, the set
/// [`build_set`] builds: the entries of [`built_entry`] with the checksum
/// of the whole set in the File entry.
pub open spec fn holds_built(
    set: Seq<[u8; 32]>,
    primary: Seq<u8>,
    stream: Seq<u8>,
    name: Seq<u16>,
    hash: u16,
    extras: Seq<[u8; 32]>,
    count: int,
) -> bool {
    &&& count <= set.len()
    &&& forall|i: int|
        1 <= i < count ==> (#[trigger] set[i])@ == built_entry(primary, stream, name, hash, extras, count, i)
    &&& set[0]@ == crate::bytes::put16(
        built_entry(primary, stream, name, hash, extras, count, 0),
        2,
        spec_set_checksum(set.take(count)),
    )
}

/// Builds a File entry set for `name` from a primary and stream template
/// and extra secondary entries into the front of `set`, and returns how
/// many entries it has; the name too long for the set when they do not
/// fit. `hash` is the name's `NameHash`.
pub fn build_set(
    primary: &[u8; 32],
    stream: &[u8; 32],
    name: &[u16],
    hash: u16,
    extras: &[[u8; 32]],
    set: &mut [[u8; 32]; MAX_SET],
) -> (r: Result<usize, ErrorKind>)
    requires
        name@.len() <= 255,
    ensures
        r is Err <==> 2 + name_entries(name@.len() as int) + extras@.len() > MAX_SET,
        r is Err ==> r == Err::<usize, ErrorKind>(ErrorKind::NameTooLong) && final(set)@ == old(set)@,
        r matches Ok(count) ==> {
            &&& count == 2 + name_entries(name@.len() as int) + extras@.len()
            &&& holds_built(final(set)@, primary@, stream@, name@, hash, extras@, count as int)
            &&& forall|i: int| count <= i < MAX_SET ==> #[trigger] final(set)@[i] == old(set)@[i]
        },
{
    let names = (name.len() + 14) / NAME_UNITS_PER_ENTRY;
    if extras.len() > MAX_SET || 2 + names + extras.len() > MAX_SET {
        return Err(ErrorKind::NameTooLong);
    }
    let count = 2 + names + extras.len();
    let ghost ex = extras@;
    let mut first = *primary;
    first[0] = ENTRY_FILE;
    first[1] = (count - 1) as u8;
    set[0] = first;
    let mut second = *stream;
    second[0] = ENTRY_STREAM;
    second[3] = name.len() as u8;
    write16(&mut second, 4, hash);
    set[1] = second;
    assert(set@[0]@ =~= built_entry(primary@, stream@, name@, hash, ex, count as int, 0));
    assert(set@[1]@ =~= built_entry(primary@, stream@, name@, hash, ex, count as int, 1));
    let mut k: usize = 0;
    while k < names
        invariant
            names == name_entries(name@.len() as int),
            count == 2 + names + ex.len(),
            count <= MAX_SET,
            k <= names,
            set@[0]@ == built_entry(primary@, stream@, name@, hash, ex, count as int, 0),
            forall|i: int|
                1 <= i < 2 + k ==> (#[trigger] set@[i])@ == built_entry(primary@, stream@, name@, hash, ex, count as int, i),
            forall|i: int| count <= i < MAX_SET ==> #[trigger] set@[i] == old(set)@[i],
        decreases names - k,
    {
        let mut entry = [0u8; 32];
        entry[0] = ENTRY_NAME;
        let mut u: usize = 0;
        while u < NAME_UNITS_PER_ENTRY
            invariant
                k < names,
                names == name_entries(name@.len() as int),
                name@.len() <= 255,
                u <= 15,
                entry@.len() == 32,
                entry@[0] == ENTRY_NAME,
                forall|j: int| 1 <= j < 32 && !(2 <= j < 2 + 2 * u) ==> entry@[j] == 0,
                forall|j: int| 2 <= j < 2 + 2 * u ==> entry@[j] == name_entry(name@, k as int)[j],
            decreases 15 - u,
        {
            let at = 15 * k + u;
            if at < name.len() {
                let unit = name[at];
                entry[2 + 2 * u] = (unit & 0xFF) as u8;
                entry[3 + 2 * u] = (unit >> 8u16) as u8;
            }
            u += 1;
        }
        assert(entry@ =~= name_entry(name@, k as int));
        set[2 + k] = entry;
        k += 1;
    }
    let mut x: usize = 0;
    while x < extras.len()
        invariant
            names == name_entries(name@.len() as int),
            count == 2 + names + ex.len(),
            ex == extras@,
            count <= MAX_SET,
            x <= ex.len(),
            set@[0]@ == built_entry(primary@, stream@, name@, hash, ex, count as int, 0),
            forall|i: int|
                1 <= i < 2 + names + x ==> (#[trigger] set@[i])@ == built_entry(primary@, stream@, name@, hash, ex, count as int, i),
            forall|i: int| count <= i < MAX_SET ==> #[trigger] set@[i] == old(set)@[i],
        decreases ex.len() - x,
    {
        set[2 + names + x] = extras[x];
        x += 1;
    }
    let ghost unsealed = set@;
    let sum = set_checksum(slice_prefix(set, count));
    let mut sealed = set[0];
    write16(&mut sealed, 2, sum);
    set[0] = sealed;
    proof {
        lemma_checksum_ignores_field(unsealed.take(count as int), set@.take(count as int));
    }
    Ok(count)
}

/// `sum` over the first `n` bytes of the first entry does not depend on its
/// bytes 2 and 3.
proof fn lemma_entry_sum_skips(sum: u16, a: Seq<u8>, b: Seq<u8>, n: int)
    requires
        0 <= n <= 32,
        a.len() == 32,
        b.len() == 32,
        forall|j: int| 0 <= j < 32 && j != 2 && j != 3 ==> a[j] == b[j],
    ensures
        entry_sum(sum, a, true, n) == entry_sum(sum, b, true, n),
    decreases n,
{
    if n > 0 {
        lemma_entry_sum_skips(sum, a, b, n - 1);
    }
}

/// The set checksum does not depend on the checksum field it is stored in.
proof fn lemma_checksum_ignores_field(a: Seq<[u8; 32]>, b: Seq<[u8; 32]>)
    requires
        a.len() == b.len(),
        a.len() >= 1,
        forall|i: int| 1 <= i < a.len() ==> a[i] == b[i],
        forall|j: int| 0 <= j < 32 && j != 2 && j != 3 ==> a[0][j] == b[0][j],
    ensures
        spec_set_checksum(a) == spec_set_checksum(b),
    decreases a.len(),
{
    if a.len() == 1 {
        assert(a.drop_last() =~= Seq::<[u8; 32]>::empty());
        assert(b.drop_last() =~= Seq::<[u8; 32]>::empty());
        assert(spec_set_checksum(a.drop_last()) == 0);
        assert(spec_set_checksum(b.drop_last()) == 0);
        assert forall|j: int| 0 <= j < 32 && j != 2 && j != 3 implies a.last()@[j] == b.last()@[j] by {
            assert(a[0][j] == b[0][j]);
        }
        lemma_entry_sum_skips(0, a.last()@, b.last()@, 32);
    } else {
        lemma_checksum_ignores_field(a.drop_last(), b.drop_last());
        assert(a.last() == b.last());
    }
}

/// A set [`build_set`] builds is a valid File entry set, as long as the
/// name is not empty and the extra entries are in-use secondaries.
pub proof fn lemma_built_set_parses(
    set: Seq<[u8; 32]>,
    primary: Seq<u8>,
    stream: Seq<u8>,
    name: Seq<u16>,
    hash: u16,
    extras: Seq<[u8; 32]>,
    count: int,
)
    requires
        primary.len() == 32,
        stream.len() == 32,
        1 <= name.len() <= 255,
        count == 2 + name_entries(name.len() as int) + extras.len(),
        count <= MAX_SET,
        forall|i: int|
            0 <= i < extras.len() ==> (#[trigger] extras[i])[0] & CATEGORY_SECONDARY != 0
                && extras[i][0] & IN_USE != 0,
        holds_built(set, primary, stream, name, hash, extras, count),
    ensures
        spec_parse_set(set),
{
    let names = name_entries(name.len() as int);
    let built0 = built_entry(primary, stream, name, hash, extras, count, 0);
    let sum = spec_set_checksum(set.take(count));
    crate::bytes::lemma_get_put16(built0, 2, sum);
    assert(set[0][0] == ENTRY_FILE && set[0][1] == (count - 1) as u8);
    assert(set[1][0] == ENTRY_STREAM && set[1][3] == name.len() as u8);
    assert forall|i: int| 2 <= i < 2 + names implies (#[trigger] set[i])[0] == ENTRY_NAME by {
        assert(set[i]@ == name_entry(name, i - 2));
    }
    assert forall|i: int| 2 + names <= i < count implies (#[trigger] set[i])[0] & CATEGORY_SECONDARY
        != 0 && set[i][0] & IN_USE != 0 by {
        assert(set[i]@ == extras[i - 2 - names]@);
    }
}

/// The name read back from a set [`build_set`] builds is the name it was
/// built with.
pub proof fn lemma_built_set_name(
    e: EntrySet,
    primary: Seq<u8>,
    stream: Seq<u8>,
    name: Seq<u16>,
    hash: u16,
    extras: Seq<[u8; 32]>,
    count: int,
)
    requires
        stream.len() == 32,
        name.len() <= 255,
        count == 2 + name_entries(name.len() as int) + extras.len(),
        holds_built(e.raw@, primary, stream, name, hash, extras, count),
    ensures
        e.raw@[1][3] == name.len(),
        forall|at: int| 0 <= at < name.len() ==> #[trigger] e.unit_at(at) == name[at],
{
    assert(e.raw@[1]@ == built_entry(primary, stream, name, hash, extras, count, 1));
    assert forall|at: int| 0 <= at < name.len() implies #[trigger] e.unit_at(at) == name[at] by {
        let k = at / 15;
        let u = at % 15;
        assert(2 + k < 2 + name_entries(name.len() as int));
        let entry = name_entry(name, k);
        assert(e.raw@[2 + k]@ == entry);
        assert(15 * k + (2 + u * 2 - 2) / 2 == at);
        assert(15 * k + (3 + u * 2 - 2) / 2 == at);
        lemma_split16(name[at]);
    }
}

/// What a set [`build_set`] builds holds, read field by field: its first
/// `count` entries parse as a set; the File entry counts `count - 1`
/// secondaries; the Stream Extension holds the name's length and `hash`;
/// the File Name entries hold the name's code units, 15 to an entry; and
/// the set ends with `extras`.
pub proof fn lemma_built_set_fields(
    set: Seq<[u8; 32]>,
    primary: Seq<u8>,
    stream: Seq<u8>,
    name: Seq<u16>,
    hash: u16,
    extras: Seq<[u8; 32]>,
    count: int,
)
    requires
        primary.len() == 32,
        stream.len() == 32,
        1 <= name.len() <= 255,
        count == 2 + name_entries(name.len() as int) + extras.len(),
        count <= MAX_SET,
        forall|i: int|
            0 <= i < extras.len() ==> (#[trigger] extras[i])[0] & CATEGORY_SECONDARY != 0
                && extras[i][0] & IN_USE != 0,
        holds_built(set, primary, stream, name, hash, extras, count),
    ensures
        spec_parse_set(set.take(count)),
        set[0][0] == ENTRY_FILE,
        set[0][1] == count - 1,
        set[1][3] == name.len(),
        get16(set[1]@, 4) == hash,
        forall|at: int|
            0 <= at < name.len() ==> get16(#[trigger] set[2 + at / 15]@, 2 + 2 * (at % 15)) == name[at],
        forall|i: int| 0 <= i < extras.len() ==> #[trigger] set[count - extras.len() + i] == extras[i],
{
    let head = set.take(count);
    assert(head.take(count) =~= set.take(count));
    assert forall|i: int| 1 <= i < count implies (#[trigger] head[i])@ == built_entry(
        primary,
        stream,
        name,
        hash,
        extras,
        count,
        i,
    ) by {
        assert(head[i] == set[i]);
    }
    assert(head[0] == set[0]);
    lemma_built_set_parses(head, primary, stream, name, hash, extras, count);
    let built0 = built_entry(primary, stream, name, hash, extras, count, 0);
    crate::bytes::lemma_get_put16(built0, 2, spec_set_checksum(set.take(count)));
    assert(set[0][0] == set[0]@[0]);
    let built1 = stream.update(0, ENTRY_STREAM).update(3, name.len() as u8);
    crate::bytes::lemma_get_put16(built1, 4, hash);
    assert(set[1]@ == built_entry(primary, stream, name, hash, extras, count, 1));
    assert forall|at: int| 0 <= at < name.len() implies get16(#[trigger] set[2 + at / 15]@, 2 + 2 * (
    at % 15)) == name[at] by {
        let k = at / 15;
        let u = at % 15;
        assert(2 + k < 2 + name_entries(name.len() as int));
        assert(set[2 + k]@ == name_entry(name, k));
        assert(15 * k + (2 + u * 2 - 2) / 2 == at);
        assert(15 * k + (3 + u * 2 - 2) / 2 == at);
        lemma_split16(name[at]);
    }
    assert forall|i: int| 0 <= i < extras.len() implies #[trigger] set[count - extras.len() + i]
        == extras[i] by {
        let j = count - extras.len() + i;
        assert(set[j]@ == built_entry(primary, stream, name, hash, extras, count, j));
        assert(set[j]@ == extras[i]@);
        assert(set[j] == extras[i]);
    }
}

} // verus!
