//! The exFAT on-disk structures as plain values: the boot sector and the
//! directory entries of the root directory and of entry sets, each read
//! from its bytes and written back.

use vstd::prelude::*;
use crate::bytes::{get16, get32, get64, write16, write32, write64};
use crate::exfat::{le16, le32, le64};
use crate::raw::{put_array, sub_array};

verus! {

/// The `n` little-endian code units of `raw` from `at`.
pub open spec fn units_in(raw: Seq<u8>, at: int, n: int) -> Seq<u16> {
    Seq::new(n as nat, |i: int| get16(raw, at + 2 * i))
}

/// The `N` little-endian code units of `src` from `at`.
pub fn read_units<const N: usize>(src: &[u8], at: usize) -> (r: [u16; N])
    requires
        at + 2 * N <= src@.len(),
    ensures
        r@ == units_in(src@, at as int, N as int),
{
    let len = src.len();
    let mut r = [0u16; N];
    let mut i: usize = 0;
    while i < N
        invariant
            0 <= i <= N,
            len == src@.len(),
            at + 2 * N <= src@.len(),
            r@.len() == N,
            forall|j: int| 0 <= j < i ==> r@[j] == get16(src@, at + 2 * j),
        decreases N - i,
    {
        r[i] = le16(src, at + 2 * i);
        i += 1;
    }
    assert(r@ =~= units_in(src@, at as int, N as int));
    r
}

/// Writes the code units `units` little-endian into `out` from `at`.
pub fn write_units<const N: usize>(out: &mut [u8], at: usize, units: &[u16; N])
    requires
        at + 2 * N <= old(out)@.len(),
    ensures
        final(out)@.len() == old(out)@.len(),
        units_in(final(out)@, at as int, N as int) == units@,
        forall|j: int|
            0 <= j < old(out)@.len() && !(at <= j < at + 2 * N) ==> #[trigger] final(out)@[j]
                == old(out)@[j],
{
    let len = out.len();
    let mut i: usize = 0;
    while i < N
        invariant
            0 <= i <= N,
            len == old(out)@.len(),
            at + 2 * N <= old(out)@.len(),
            out@.len() == old(out)@.len(),
            forall|j: int| 0 <= j < i ==> get16(out@, at + 2 * j) == units@[j],
            forall|j: int|
                0 <= j < old(out)@.len() && !(at <= j < at + 2 * i) ==> #[trigger] out@[j]
                    == old(out)@[j],
        decreases N - i,
    {
        write16(out, at + 2 * i, units[i]);
        i += 1;
    }
    assert(units_in(out@, at as int, N as int) =~= units@);
}

/// The Main and Backup Boot Sector, its fields as plain values.
#[derive(Clone, Copy)]
pub struct BootSector {
    /// `JumpBoot`.
    pub jump_boot: [u8; 3],
    /// `FileSystemName`, `"EXFAT   "`.
    pub file_system_name: [u8; 8],
    /// `MustBeZero`.
    pub must_be_zero: [u8; 53],
    /// `PartitionOffset`, in sectors from the start of the media.
    pub partition_offset: u64,
    /// `VolumeLength`, in sectors.
    pub volume_length: u64,
    /// `FatOffset`, in sectors from the start of the volume.
    pub fat_offset: u32,
    /// `FatLength`, in sectors.
    pub fat_length: u32,
    /// `ClusterHeapOffset`, in sectors from the start of the volume.
    pub cluster_heap_offset: u32,
    /// `ClusterCount`.
    pub cluster_count: u32,
    /// `FirstClusterOfRootDirectory`.
    pub first_cluster_of_root_directory: u32,
    /// `VolumeSerialNumber`.
    pub volume_serial_number: u32,
    /// `FileSystemRevision`, major version in the high byte.
    pub file_system_revision: u16,
    /// `VolumeFlags`.
    pub volume_flags: u16,
    /// `BytesPerSectorShift`.
    pub bytes_per_sector_shift: u8,
    /// `SectorsPerClusterShift`.
    pub sectors_per_cluster_shift: u8,
    /// `NumberOfFats`.
    pub number_of_fats: u8,
    /// `DriveSelect`.
    pub drive_select: u8,
    /// `PercentInUse`, or `0xFF` when unknown.
    pub percent_in_use: u8,
    /// `Reserved`.
    pub reserved: [u8; 7],
    /// `BootCode`.
    pub boot_code: [u8; 390],
    /// `BootSignature`.
    pub boot_signature: u16,
}

/// Whether `e` is what the 512 bytes `raw` hold.
pub open spec fn boot_sector_in(raw: Seq<u8>, e: BootSector) -> bool {
    &&& e.jump_boot@ == raw.subrange(0, 3)
    &&& e.file_system_name@ == raw.subrange(3, 11)
    &&& e.must_be_zero@ == raw.subrange(11, 64)
    &&& e.partition_offset == get64(raw, 64)
    &&& e.volume_length == get64(raw, 72)
    &&& e.fat_offset == get32(raw, 80)
    &&& e.fat_length == get32(raw, 84)
    &&& e.cluster_heap_offset == get32(raw, 88)
    &&& e.cluster_count == get32(raw, 92)
    &&& e.first_cluster_of_root_directory == get32(raw, 96)
    &&& e.volume_serial_number == get32(raw, 100)
    &&& e.file_system_revision == get16(raw, 104)
    &&& e.volume_flags == get16(raw, 106)
    &&& e.bytes_per_sector_shift == raw[108]
    &&& e.sectors_per_cluster_shift == raw[109]
    &&& e.number_of_fats == raw[110]
    &&& e.drive_select == raw[111]
    &&& e.percent_in_use == raw[112]
    &&& e.reserved@ == raw.subrange(113, 120)
    &&& e.boot_code@ == raw.subrange(120, 510)
    &&& e.boot_signature == get16(raw, 510)
}

impl BootSector {
    /// Reads the structure from its 512 bytes.
    pub fn from_bytes(raw: &[u8; 512]) -> (e: Self)
        ensures
            boot_sector_in(raw@, e),
    {
        let s: &[u8] = raw;
        let e = BootSector {
            jump_boot: sub_array(s, 0),
            file_system_name: sub_array(s, 3),
            must_be_zero: sub_array(s, 11),
            partition_offset: le64(s, 64),
            volume_length: le64(s, 72),
            fat_offset: le32(s, 80),
            fat_length: le32(s, 84),
            cluster_heap_offset: le32(s, 88),
            cluster_count: le32(s, 92),
            first_cluster_of_root_directory: le32(s, 96),
            volume_serial_number: le32(s, 100),
            file_system_revision: le16(s, 104),
            volume_flags: le16(s, 106),
            bytes_per_sector_shift: raw[108],
            sectors_per_cluster_shift: raw[109],
            number_of_fats: raw[110],
            drive_select: raw[111],
            percent_in_use: raw[112],
            reserved: sub_array(s, 113),
            boot_code: sub_array(s, 120),
            boot_signature: le16(s, 510),
        };
        e
    }

    /// The structure's 512 bytes: those that read back as it.
    pub fn to_bytes(&self) -> (raw: [u8; 512])
        ensures
            boot_sector_in(raw@, *self),
    {
        let mut raw = [0u8; 512];
        put_array(&mut raw, 0, &self.jump_boot);
        put_array(&mut raw, 3, &self.file_system_name);
        put_array(&mut raw, 11, &self.must_be_zero);
        write64(&mut raw, 64, self.partition_offset);
        write64(&mut raw, 72, self.volume_length);
        write32(&mut raw, 80, self.fat_offset);
        write32(&mut raw, 84, self.fat_length);
        write32(&mut raw, 88, self.cluster_heap_offset);
        write32(&mut raw, 92, self.cluster_count);
        write32(&mut raw, 96, self.first_cluster_of_root_directory);
        write32(&mut raw, 100, self.volume_serial_number);
        write16(&mut raw, 104, self.file_system_revision);
        write16(&mut raw, 106, self.volume_flags);
        raw[108] = self.bytes_per_sector_shift;
        raw[109] = self.sectors_per_cluster_shift;
        raw[110] = self.number_of_fats;
        raw[111] = self.drive_select;
        raw[112] = self.percent_in_use;
        put_array(&mut raw, 113, &self.reserved);
        put_array(&mut raw, 120, &self.boot_code);
        write16(&mut raw, 510, self.boot_signature);
        assert(raw@.subrange(0, 3) =~= self.jump_boot@);
        assert(raw@.subrange(3, 11) =~= self.file_system_name@);
        assert(raw@.subrange(11, 64) =~= self.must_be_zero@);
        assert(raw@.subrange(113, 120) =~= self.reserved@);
        assert(raw@.subrange(120, 510) =~= self.boot_code@);
        raw
    }
}

/// The File directory entry, the primary entry of a file or directory.
#[derive(Clone, Copy)]
pub struct FileEntry {
    /// `EntryType`, `ENTRY_FILE`.
    pub entry_type: u8,
    /// `SecondaryCount`, 2 to 18.
    pub secondary_count: u8,
    /// `SetChecksum`.
    pub set_checksum: u16,
    /// `FileAttributes`.
    pub file_attributes: u16,
    /// `Reserved1`.
    pub reserved1: u16,
    /// `CreateTimestamp`.
    pub create_timestamp: u32,
    /// `LastModifiedTimestamp`.
    pub last_modified_timestamp: u32,
    /// `LastAccessedTimestamp`.
    pub last_accessed_timestamp: u32,
    /// `Create10msIncrement`.
    pub create_10ms_increment: u8,
    /// `LastModified10msIncrement`.
    pub last_modified_10ms_increment: u8,
    /// `CreateUtcOffset`.
    pub create_utc_offset: u8,
    /// `LastModifiedUtcOffset`.
    pub last_modified_utc_offset: u8,
    /// `LastAccessedUtcOffset`.
    pub last_accessed_utc_offset: u8,
    /// `Reserved2`.
    pub reserved2: [u8; 7],
}

/// Whether `e` is what the 32 bytes `raw` hold.
pub open spec fn file_entry_in(raw: Seq<u8>, e: FileEntry) -> bool {
    &&& e.entry_type == raw[0]
    &&& e.secondary_count == raw[1]
    &&& e.set_checksum == get16(raw, 2)
    &&& e.file_attributes == get16(raw, 4)
    &&& e.reserved1 == get16(raw, 6)
    &&& e.create_timestamp == get32(raw, 8)
    &&& e.last_modified_timestamp == get32(raw, 12)
    &&& e.last_accessed_timestamp == get32(raw, 16)
    &&& e.create_10ms_increment == raw[20]
    &&& e.last_modified_10ms_increment == raw[21]
    &&& e.create_utc_offset == raw[22]
    &&& e.last_modified_utc_offset == raw[23]
    &&& e.last_accessed_utc_offset == raw[24]
    &&& e.reserved2@ == raw.subrange(25, 32)
}

impl FileEntry {
    /// Reads the structure from its 32 bytes.
    pub fn from_bytes(raw: &[u8; 32]) -> (e: Self)
        ensures
            file_entry_in(raw@, e),
    {
        let s: &[u8] = raw;
        let e = FileEntry {
            entry_type: raw[0],
            secondary_count: raw[1],
            set_checksum: le16(s, 2),
            file_attributes: le16(s, 4),
            reserved1: le16(s, 6),
            create_timestamp: le32(s, 8),
            last_modified_timestamp: le32(s, 12),
            last_accessed_timestamp: le32(s, 16),
            create_10ms_increment: raw[20],
            last_modified_10ms_increment: raw[21],
            create_utc_offset: raw[22],
            last_modified_utc_offset: raw[23],
            last_accessed_utc_offset: raw[24],
            reserved2: sub_array(s, 25),
        };
        e
    }

    /// The structure's 32 bytes: those that read back as it.
    pub fn to_bytes(&self) -> (raw: [u8; 32])
        ensures
            file_entry_in(raw@, *self),
    {
        let mut raw = [0u8; 32];
        raw[0] = self.entry_type;
        raw[1] = self.secondary_count;
        write16(&mut raw, 2, self.set_checksum);
        write16(&mut raw, 4, self.file_attributes);
        write16(&mut raw, 6, self.reserved1);
        write32(&mut raw, 8, self.create_timestamp);
        write32(&mut raw, 12, self.last_modified_timestamp);
        write32(&mut raw, 16, self.last_accessed_timestamp);
        raw[20] = self.create_10ms_increment;
        raw[21] = self.last_modified_10ms_increment;
        raw[22] = self.create_utc_offset;
        raw[23] = self.last_modified_utc_offset;
        raw[24] = self.last_accessed_utc_offset;
        put_array(&mut raw, 25, &self.reserved2);
        assert(raw@.subrange(25, 32) =~= self.reserved2@);
        raw
    }
}

/// The Stream Extension directory entry: the allocation and sizes of a
/// file or directory.
#[derive(Clone, Copy)]
pub struct StreamEntry {
    /// `EntryType`, `ENTRY_STREAM`.
    pub entry_type: u8,
    /// `GeneralSecondaryFlags`.
    pub general_secondary_flags: u8,
    /// `Reserved1`.
    pub reserved1: u8,
    /// `NameLength`, in UTF-16 code units.
    pub name_length: u8,
    /// `NameHash`.
    pub name_hash: u16,
    /// `Reserved2`.
    pub reserved2: u16,
    /// `ValidDataLength`.
    pub valid_data_length: u64,
    /// `Reserved3`.
    pub reserved3: u32,
    /// `FirstCluster`.
    pub first_cluster: u32,
    /// `DataLength`.
    pub data_length: u64,
}

/// Whether `e` is what the 32 bytes `raw` hold.
pub open spec fn stream_entry_in(raw: Seq<u8>, e: StreamEntry) -> bool {
    &&& e.entry_type == raw[0]
    &&& e.general_secondary_flags == raw[1]
    &&& e.reserved1 == raw[2]
    &&& e.name_length == raw[3]
    &&& e.name_hash == get16(raw, 4)
    &&& e.reserved2 == get16(raw, 6)
    &&& e.valid_data_length == get64(raw, 8)
    &&& e.reserved3 == get32(raw, 16)
    &&& e.first_cluster == get32(raw, 20)
    &&& e.data_length == get64(raw, 24)
}

impl StreamEntry {
    /// Reads the structure from its 32 bytes.
    pub fn from_bytes(raw: &[u8; 32]) -> (e: Self)
        ensures
            stream_entry_in(raw@, e),
    {
        let s: &[u8] = raw;
        let e = StreamEntry {
            entry_type: raw[0],
            general_secondary_flags: raw[1],
            reserved1: raw[2],
            name_length: raw[3],
            name_hash: le16(s, 4),
            reserved2: le16(s, 6),
            valid_data_length: le64(s, 8),
            reserved3: le32(s, 16),
            first_cluster: le32(s, 20),
            data_length: le64(s, 24),
        };
        e
    }

    /// The structure's 32 bytes: those that read back as it.
    pub fn to_bytes(&self) -> (raw: [u8; 32])
        ensures
            stream_entry_in(raw@, *self),
    {
        let mut raw = [0u8; 32];
        raw[0] = self.entry_type;
        raw[1] = self.general_secondary_flags;
        raw[2] = self.reserved1;
        raw[3] = self.name_length;
        write16(&mut raw, 4, self.name_hash);
        write16(&mut raw, 6, self.reserved2);
        write64(&mut raw, 8, self.valid_data_length);
        write32(&mut raw, 16, self.reserved3);
        write32(&mut raw, 20, self.first_cluster);
        write64(&mut raw, 24, self.data_length);
        raw
    }
}

/// The File Name directory entry: 15 UTF-16 code units of a name.
#[derive(Clone, Copy)]
pub struct NameEntry {
    /// `EntryType`, `ENTRY_NAME`.
    pub entry_type: u8,
    /// `GeneralSecondaryFlags`.
    pub general_secondary_flags: u8,
    /// `FileName`.
    pub file_name: [u16; 15],
}

/// Whether `e` is what the 32 bytes `raw` hold.
pub open spec fn name_entry_in(raw: Seq<u8>, e: NameEntry) -> bool {
    &&& e.entry_type == raw[0]
    &&& e.general_secondary_flags == raw[1]
    &&& e.file_name@ == units_in(raw, 2, 15)
}

impl NameEntry {
    /// Reads the structure from its 32 bytes.
    pub fn from_bytes(raw: &[u8; 32]) -> (e: Self)
        ensures
            name_entry_in(raw@, e),
    {
        let s: &[u8] = raw;
        let e = NameEntry {
            entry_type: raw[0],
            general_secondary_flags: raw[1],
            file_name: read_units(s, 2),
        };
        e
    }

    /// The structure's 32 bytes: those that read back as it.
    pub fn to_bytes(&self) -> (raw: [u8; 32])
        ensures
            name_entry_in(raw@, *self),
    {
        let mut raw = [0u8; 32];
        raw[0] = self.entry_type;
        raw[1] = self.general_secondary_flags;
        write_units(&mut raw, 2, &self.file_name);
        assert(units_in(raw@, 2, 15) =~= self.file_name@);
        raw
    }
}

/// The Allocation Bitmap directory entry of the root directory.
#[derive(Clone, Copy)]
pub struct BitmapEntry {
    /// `EntryType`, `ENTRY_BITMAP`.
    pub entry_type: u8,
    /// `BitmapFlags`; bit 0 selects the second bitmap.
    pub bitmap_flags: u8,
    /// `Reserved`.
    pub reserved: [u8; 18],
    /// `FirstCluster`.
    pub first_cluster: u32,
    /// `DataLength`, in bytes.
    pub data_length: u64,
}

/// Whether `e` is what the 32 bytes `raw` hold.
pub open spec fn bitmap_entry_in(raw: Seq<u8>, e: BitmapEntry) -> bool {
    &&& e.entry_type == raw[0]
    &&& e.bitmap_flags == raw[1]
    &&& e.reserved@ == raw.subrange(2, 20)
    &&& e.first_cluster == get32(raw, 20)
    &&& e.data_length == get64(raw, 24)
}

impl BitmapEntry {
    /// Reads the structure from its 32 bytes.
    pub fn from_bytes(raw: &[u8; 32]) -> (e: Self)
        ensures
            bitmap_entry_in(raw@, e),
    {
        let s: &[u8] = raw;
        let e = BitmapEntry {
            entry_type: raw[0],
            bitmap_flags: raw[1],
            reserved: sub_array(s, 2),
            first_cluster: le32(s, 20),
            data_length: le64(s, 24),
        };
        e
    }

    /// The structure's 32 bytes: those that read back as it.
    pub fn to_bytes(&self) -> (raw: [u8; 32])
        ensures
            bitmap_entry_in(raw@, *self),
    {
        let mut raw = [0u8; 32];
        raw[0] = self.entry_type;
        raw[1] = self.bitmap_flags;
        put_array(&mut raw, 2, &self.reserved);
        write32(&mut raw, 20, self.first_cluster);
        write64(&mut raw, 24, self.data_length);
        assert(raw@.subrange(2, 20) =~= self.reserved@);
        raw
    }
}

/// The Up-case Table directory entry of the root directory.
#[derive(Clone, Copy)]
pub struct UpcaseEntry {
    /// `EntryType`, `ENTRY_UPCASE`.
    pub entry_type: u8,
    /// `Reserved1`.
    pub reserved1: [u8; 3],
    /// `TableChecksum`.
    pub table_checksum: u32,
    /// `Reserved2`.
    pub reserved2: [u8; 12],
    /// `FirstCluster`.
    pub first_cluster: u32,
    /// `DataLength`, in bytes.
    pub data_length: u64,
}

/// Whether `e` is what the 32 bytes `raw` hold.
pub open spec fn upcase_entry_in(raw: Seq<u8>, e: UpcaseEntry) -> bool {
    &&& e.entry_type == raw[0]
    &&& e.reserved1@ == raw.subrange(1, 4)
    &&& e.table_checksum == get32(raw, 4)
    &&& e.reserved2@ == raw.subrange(8, 20)
    &&& e.first_cluster == get32(raw, 20)
    &&& e.data_length == get64(raw, 24)
}

impl UpcaseEntry {
    /// Reads the structure from its 32 bytes.
    pub fn from_bytes(raw: &[u8; 32]) -> (e: Self)
        ensures
            upcase_entry_in(raw@, e),
    {
        let s: &[u8] = raw;
        let e = UpcaseEntry {
            entry_type: raw[0],
            reserved1: sub_array(s, 1),
            table_checksum: le32(s, 4),
            reserved2: sub_array(s, 8),
            first_cluster: le32(s, 20),
            data_length: le64(s, 24),
        };
        e
    }

    /// The structure's 32 bytes: those that read back as it.
    pub fn to_bytes(&self) -> (raw: [u8; 32])
        ensures
            upcase_entry_in(raw@, *self),
    {
        let mut raw = [0u8; 32];
        raw[0] = self.entry_type;
        put_array(&mut raw, 1, &self.reserved1);
        write32(&mut raw, 4, self.table_checksum);
        put_array(&mut raw, 8, &self.reserved2);
        write32(&mut raw, 20, self.first_cluster);
        write64(&mut raw, 24, self.data_length);
        assert(raw@.subrange(1, 4) =~= self.reserved1@);
        assert(raw@.subrange(8, 20) =~= self.reserved2@);
        raw
    }
}

/// The Volume Label directory entry of the root directory.
#[derive(Clone, Copy)]
pub struct LabelEntry {
    /// `EntryType`, `ENTRY_LABEL`.
    pub entry_type: u8,
    /// `CharacterCount`, 0 to 11.
    pub character_count: u8,
    /// `VolumeLabel`.
    pub volume_label: [u16; 11],
    /// `Reserved`.
    pub reserved: [u8; 8],
}

/// Whether `e` is what the 32 bytes `raw` hold.
pub open spec fn label_entry_in(raw: Seq<u8>, e: LabelEntry) -> bool {
    &&& e.entry_type == raw[0]
    &&& e.character_count == raw[1]
    &&& e.volume_label@ == units_in(raw, 2, 11)
    &&& e.reserved@ == raw.subrange(24, 32)
}

impl LabelEntry {
    /// Reads the structure from its 32 bytes.
    pub fn from_bytes(raw: &[u8; 32]) -> (e: Self)
        ensures
            label_entry_in(raw@, e),
    {
        let s: &[u8] = raw;
        let e = LabelEntry {
            entry_type: raw[0],
            character_count: raw[1],
            volume_label: read_units(s, 2),
            reserved: sub_array(s, 24),
        };
        e
    }

    /// The structure's 32 bytes: those that read back as it.
    pub fn to_bytes(&self) -> (raw: [u8; 32])
        ensures
            label_entry_in(raw@, *self),
    {
        let mut raw = [0u8; 32];
        raw[0] = self.entry_type;
        raw[1] = self.character_count;
        write_units(&mut raw, 2, &self.volume_label);
        put_array(&mut raw, 24, &self.reserved);
        assert(units_in(raw@, 2, 11) =~= self.volume_label@);
        assert(raw@.subrange(24, 32) =~= self.reserved@);
        raw
    }
}

/// Bytes that read as the same `u16` are the same bytes.
proof fn lemma_get16_bytes(a: Seq<u8>, b: Seq<u8>, at: int)
    requires
        0 <= at,
        at + 2 <= a.len(),
        at + 2 <= b.len(),
        get16(a, at) == get16(b, at),
    ensures
        a[at] == b[at] && a[at + 1] == b[at + 1],
{
    let (x0, x1, y0, y1) = (a[at], a[at + 1], b[at], b[at + 1]);
    assert((x0 as u16 | ((x1 as u16) << 8u16)) as u16 == (y0 as u16 | ((y1 as u16) << 8u16)) as u16
        ==> x0 == y0 && x1 == y1) by (bit_vector);
}

/// Bytes that read as the same `u32` are the same bytes.
proof fn lemma_get32_bytes(a: Seq<u8>, b: Seq<u8>, at: int)
    requires
        0 <= at,
        at + 4 <= a.len(),
        at + 4 <= b.len(),
        get32(a, at) == get32(b, at),
    ensures
        a[at] == b[at] && a[at + 1] == b[at + 1] && a[at + 2] == b[at + 2] && a[at + 3] == b[at + 3],
{
    let (x0, x1, x2, x3) = (a[at], a[at + 1], a[at + 2], a[at + 3]);
    let (y0, y1, y2, y3) = (b[at], b[at + 1], b[at + 2], b[at + 3]);
    assert((x0 as u32 | ((x1 as u32) << 8u32) | ((x2 as u32) << 16u32) | ((x3 as u32) << 24u32)) as u32
        == (y0 as u32 | ((y1 as u32) << 8u32) | ((y2 as u32) << 16u32) | ((y3 as u32) << 24u32)) as u32
        ==> x0 == y0 && x1 == y1 && x2 == y2 && x3 == y3) by (bit_vector);
}

/// Bytes that read as the same `u64` are the same bytes.
proof fn lemma_get64_bytes(a: Seq<u8>, b: Seq<u8>, at: int)
    requires
        0 <= at,
        at + 8 <= a.len(),
        at + 8 <= b.len(),
        get64(a, at) == get64(b, at),
    ensures
        forall|j: int| at <= j < at + 8 ==> a[j] == b[j],
{
    let (lo1, hi1, lo2, hi2) = (get32(a, at), get32(a, at + 4), get32(b, at), get32(b, at + 4));
    assert((lo1 as u64 | ((hi1 as u64) << 32u64)) as u64 == (lo2 as u64 | ((hi2 as u64) << 32u64)) as u64
        ==> lo1 == lo2 && hi1 == hi2) by (bit_vector);
    lemma_get32_bytes(a, b, at);
    lemma_get32_bytes(a, b, at + 4);
}

/// The 512 bytes of a [`BootSector`] are fixed by its fields: bytes that read as
/// the same structure are the same bytes, so writing back what was read
/// gives the bytes read.
pub proof fn lemma_boot_sector_bytes(a: Seq<u8>, b: Seq<u8>, e: BootSector)
    requires
        a.len() == 512,
        b.len() == 512,
        boot_sector_in(a, e),
        boot_sector_in(b, e),
    ensures
        a == b,
{
    assert(a.subrange(0, 3) == b.subrange(0, 3));
    assert(a.subrange(3, 11) == b.subrange(3, 11));
    assert(a.subrange(11, 64) == b.subrange(11, 64));
    lemma_get64_bytes(a, b, 64);
    lemma_get64_bytes(a, b, 72);
    lemma_get32_bytes(a, b, 80);
    lemma_get32_bytes(a, b, 84);
    lemma_get32_bytes(a, b, 88);
    lemma_get32_bytes(a, b, 92);
    lemma_get32_bytes(a, b, 96);
    lemma_get32_bytes(a, b, 100);
    lemma_get16_bytes(a, b, 104);
    lemma_get16_bytes(a, b, 106);
    assert(a.subrange(113, 120) == b.subrange(113, 120));
    assert(a.subrange(120, 510) == b.subrange(120, 510));
    lemma_get16_bytes(a, b, 510);
    assert forall|j: int| 0 <= j < 512 implies a[j] == b[j] by {
        if j < 3 {
            assert(a[j] == a.subrange(0, 3)[j - 0] && b[j] == b.subrange(0, 3)[j - 0]);
        } else if j < 11 {
            assert(a[j] == a.subrange(3, 11)[j - 3] && b[j] == b.subrange(3, 11)[j - 3]);
        } else if j < 64 {
            assert(a[j] == a.subrange(11, 64)[j - 11] && b[j] == b.subrange(11, 64)[j - 11]);
        } else if j < 72 {
        } else if j < 80 {
        } else if j < 84 {
        } else if j < 88 {
        } else if j < 92 {
        } else if j < 96 {
        } else if j < 100 {
        } else if j < 104 {
        } else if j < 106 {
        } else if j < 108 {
        } else if j < 109 {
        } else if j < 110 {
        } else if j < 111 {
        } else if j < 112 {
        } else if j < 113 {
        } else if j < 120 {
            assert(a[j] == a.subrange(113, 120)[j - 113] && b[j] == b.subrange(113, 120)[j - 113]);
        } else if j < 510 {
            assert(a[j] == a.subrange(120, 510)[j - 120] && b[j] == b.subrange(120, 510)[j - 120]);
        } else if j < 512 {
        }
    }
    assert(a =~= b);
}

/// The 32 bytes of a [`FileEntry`] are fixed by its fields: bytes that read as
/// the same structure are the same bytes, so writing back what was read
/// gives the bytes read.
pub proof fn lemma_file_entry_bytes(a: Seq<u8>, b: Seq<u8>, e: FileEntry)
    requires
        a.len() == 32,
        b.len() == 32,
        file_entry_in(a, e),
        file_entry_in(b, e),
    ensures
        a == b,
{
    lemma_get16_bytes(a, b, 2);
    lemma_get16_bytes(a, b, 4);
    lemma_get16_bytes(a, b, 6);
    lemma_get32_bytes(a, b, 8);
    lemma_get32_bytes(a, b, 12);
    lemma_get32_bytes(a, b, 16);
    assert(a.subrange(25, 32) == b.subrange(25, 32));
    assert forall|j: int| 0 <= j < 32 implies a[j] == b[j] by {
        if j < 1 {
        } else if j < 2 {
        } else if j < 4 {
        } else if j < 6 {
        } else if j < 8 {
        } else if j < 12 {
        } else if j < 16 {
        } else if j < 20 {
        } else if j < 21 {
        } else if j < 22 {
        } else if j < 23 {
        } else if j < 24 {
        } else if j < 25 {
        } else if j < 32 {
            assert(a[j] == a.subrange(25, 32)[j - 25] && b[j] == b.subrange(25, 32)[j - 25]);
        }
    }
    assert(a =~= b);
}

/// The 32 bytes of a [`StreamEntry`] are fixed by its fields: bytes that read as
/// the same structure are the same bytes, so writing back what was read
/// gives the bytes read.
pub proof fn lemma_stream_entry_bytes(a: Seq<u8>, b: Seq<u8>, e: StreamEntry)
    requires
        a.len() == 32,
        b.len() == 32,
        stream_entry_in(a, e),
        stream_entry_in(b, e),
    ensures
        a == b,
{
    lemma_get16_bytes(a, b, 4);
    lemma_get16_bytes(a, b, 6);
    lemma_get64_bytes(a, b, 8);
    lemma_get32_bytes(a, b, 16);
    lemma_get32_bytes(a, b, 20);
    lemma_get64_bytes(a, b, 24);
    assert forall|j: int| 0 <= j < 32 implies a[j] == b[j] by {
        if j < 1 {
        } else if j < 2 {
        } else if j < 3 {
        } else if j < 4 {
        } else if j < 6 {
        } else if j < 8 {
        } else if j < 16 {
        } else if j < 20 {
        } else if j < 24 {
        } else if j < 32 {
        }
    }
    assert(a =~= b);
}

/// The 32 bytes of a [`NameEntry`] are fixed by its fields: bytes that read as
/// the same structure are the same bytes, so writing back what was read
/// gives the bytes read.
pub proof fn lemma_name_entry_bytes(a: Seq<u8>, b: Seq<u8>, e: NameEntry)
    requires
        a.len() == 32,
        b.len() == 32,
        name_entry_in(a, e),
        name_entry_in(b, e),
    ensures
        a == b,
{
    assert forall|j: int| 0 <= j < 32 implies a[j] == b[j] by {
        if j < 1 {
        } else if j < 2 {
        } else if j < 32 {
            let i = (j - 2) / 2;
            assert(j == 2 + 2 * i || j == 2 + 2 * i + 1);
            assert(units_in(a, 2, 15)[i] == units_in(b, 2, 15)[i]);
            lemma_get16_bytes(a, b, 2 + 2 * i);
        }
    }
    assert(a =~= b);
}

/// The 32 bytes of a [`BitmapEntry`] are fixed by its fields: bytes that read as
/// the same structure are the same bytes, so writing back what was read
/// gives the bytes read.
pub proof fn lemma_bitmap_entry_bytes(a: Seq<u8>, b: Seq<u8>, e: BitmapEntry)
    requires
        a.len() == 32,
        b.len() == 32,
        bitmap_entry_in(a, e),
        bitmap_entry_in(b, e),
    ensures
        a == b,
{
    assert(a.subrange(2, 20) == b.subrange(2, 20));
    lemma_get32_bytes(a, b, 20);
    lemma_get64_bytes(a, b, 24);
    assert forall|j: int| 0 <= j < 32 implies a[j] == b[j] by {
        if j < 1 {
        } else if j < 2 {
        } else if j < 20 {
            assert(a[j] == a.subrange(2, 20)[j - 2] && b[j] == b.subrange(2, 20)[j - 2]);
        } else if j < 24 {
        } else if j < 32 {
        }
    }
    assert(a =~= b);
}

/// The 32 bytes of a [`UpcaseEntry`] are fixed by its fields: bytes that read as
/// the same structure are the same bytes, so writing back what was read
/// gives the bytes read.
pub proof fn lemma_upcase_entry_bytes(a: Seq<u8>, b: Seq<u8>, e: UpcaseEntry)
    requires
        a.len() == 32,
        b.len() == 32,
        upcase_entry_in(a, e),
        upcase_entry_in(b, e),
    ensures
        a == b,
{
    assert(a.subrange(1, 4) == b.subrange(1, 4));
    lemma_get32_bytes(a, b, 4);
    assert(a.subrange(8, 20) == b.subrange(8, 20));
    lemma_get32_bytes(a, b, 20);
    lemma_get64_bytes(a, b, 24);
    assert forall|j: int| 0 <= j < 32 implies a[j] == b[j] by {
        if j < 1 {
        } else if j < 4 {
            assert(a[j] == a.subrange(1, 4)[j - 1] && b[j] == b.subrange(1, 4)[j - 1]);
        } else if j < 8 {
        } else if j < 20 {
            assert(a[j] == a.subrange(8, 20)[j - 8] && b[j] == b.subrange(8, 20)[j - 8]);
        } else if j < 24 {
        } else if j < 32 {
        }
    }
    assert(a =~= b);
}

/// The 32 bytes of a [`LabelEntry`] are fixed by its fields: bytes that read as
/// the same structure are the same bytes, so writing back what was read
/// gives the bytes read.
pub proof fn lemma_label_entry_bytes(a: Seq<u8>, b: Seq<u8>, e: LabelEntry)
    requires
        a.len() == 32,
        b.len() == 32,
        label_entry_in(a, e),
        label_entry_in(b, e),
    ensures
        a == b,
{
    assert(a.subrange(24, 32) == b.subrange(24, 32));
    assert forall|j: int| 0 <= j < 32 implies a[j] == b[j] by {
        if j < 1 {
        } else if j < 2 {
        } else if j < 24 {
            let i = (j - 2) / 2;
            assert(j == 2 + 2 * i || j == 2 + 2 * i + 1);
            assert(units_in(a, 2, 11)[i] == units_in(b, 2, 11)[i]);
            lemma_get16_bytes(a, b, 2 + 2 * i);
        } else if j < 32 {
            assert(a[j] == a.subrange(24, 32)[j - 24] && b[j] == b.subrange(24, 32)[j - 24]);
        }
    }
    assert(a =~= b);
}

} // verus!
