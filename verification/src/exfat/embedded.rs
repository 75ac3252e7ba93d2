//! Pieces of the embedded exFAT driver that need no device: directories,
//! listed entry sets and their positions.

use vstd::prelude::*;
use crate::bytes::{get16, get32, get64};
use crate::embedded::FileType;
use crate::exfat::set::{ATTR_DIRECTORY, NO_FAT_CHAIN};
use crate::exfat::{le16, le32, le64};
use crate::names::{permissions, spec_attributes, spec_permissions, Attributes};

verus! {

/// Where a directory's entries are: its first cluster and length, and
/// whether the clusters are contiguous or chained in the FAT.
#[derive(Debug, Clone, Copy, PartialEq, Eq)]
pub struct Extent {
    /// The first cluster.
    pub first: u32,
    /// The length in bytes.
    pub len: u64,
    /// The clusters are contiguous, without a FAT chain.
    pub contiguous: bool,
}

/// A directory: the root or a subdirectory by its allocation. `Copy` and
/// holds no slot; it stays valid while the directory exists.
#[derive(Debug, Clone, Copy, PartialEq, Eq, Hash)]
pub struct Dir {
    first: u32,
    len: u64,
    contiguous: bool,
}

impl Dir {
    /// The first cluster, 0 for the root.
    pub closed spec fn spec_first(self) -> u32 {
        self.first
    }

    /// The `DataLength`.
    pub closed spec fn spec_len(self) -> u64 {
        self.len
    }

    /// Whether the clusters are contiguous.
    pub closed spec fn spec_contiguous(self) -> bool {
        self.contiguous
    }

    /// The root directory.
    pub fn root() -> (d: Self)
        ensures
            d.spec_first() == 0 && d.spec_len() == 0 && !d.spec_contiguous(),
    {
        Dir { first: 0, len: 0, contiguous: false }
    }

    /// The directory whose clusters start at `first`, `len` bytes long.
    pub fn new(first: u32, len: u64, contiguous: bool) -> (d: Self)
        ensures
            d.spec_first() == first && d.spec_len() == len && d.spec_contiguous() == contiguous,
    {
        Dir { first, len, contiguous }
    }

    /// Whether this is the root directory.
    pub fn is_root(self) -> (b: bool)
        ensures
            b == (self.spec_first() == 0),
    {
        self.first == 0
    }

    /// Where the directory's entries are: the root's chain from `root`,
    /// unbounded, else its own allocation.
    pub fn extent(self, root: u32) -> (e: Extent)
        ensures
            e == (if self.spec_first() == 0 {
                Extent { first: root, len: u64::MAX, contiguous: false }
            } else {
                Extent { first: self.spec_first(), len: self.spec_len(), contiguous: self.spec_contiguous() }
            }),
    {
        if self.is_root() {
            Extent { first: root, len: u64::MAX, contiguous: false }
        } else {
            Extent { first: self.first, len: self.len, contiguous: self.contiguous }
        }
    }
}

/// Where a listed entry set is: its directory and slot.
#[derive(Debug, Clone, Copy, PartialEq, Eq, Hash)]
pub struct Node {
    dir: Dir,
    slot: u32,
}

impl Node {
    /// The directory.
    pub closed spec fn spec_dir(self) -> Dir {
        self.dir
    }

    /// The slot of the File entry.
    pub closed spec fn spec_slot(self) -> u32 {
        self.slot
    }

    /// The entry set in `slot` of `dir`.
    pub fn new(dir: Dir, slot: u32) -> (n: Self)
        ensures
            n.spec_dir() == dir && n.spec_slot() == slot,
    {
        Node { dir, slot }
    }

    /// The directory.
    pub fn dir(self) -> (d: Dir)
        ensures
            d == self.spec_dir(),
    {
        self.dir
    }

    /// The slot of the File entry.
    pub fn slot(self) -> (s: u32)
        ensures
            s == self.spec_slot(),
    {
        self.slot
    }
}

/// The File and Stream Extension entries of a set, which hold everything
/// but its name.
#[derive(Debug, Clone, Copy)]
pub struct Head {
    /// The File entry.
    pub primary: [u8; 32],
    /// The Stream Extension entry.
    pub stream: [u8; 32],
}

impl Head {
    /// `FileAttributes`.
    pub fn attributes(&self) -> (a: u16)
        ensures
            a == get16(self.primary@, 4),
    {
        le16(&self.primary, 4)
    }

    /// Whether the set is a directory's.
    pub fn is_dir(&self) -> (b: bool)
        ensures
            b == (get16(self.primary@, 4) & ATTR_DIRECTORY != 0),
    {
        self.attributes() & ATTR_DIRECTORY != 0
    }

    /// `FirstCluster`.
    pub fn first(&self) -> (c: u32)
        ensures
            c == get32(self.stream@, 20),
    {
        le32(&self.stream, 20)
    }

    /// `DataLength`.
    pub fn len(&self) -> (n: u64)
        ensures
            n == get64(self.stream@, 24),
    {
        le64(&self.stream, 24)
    }

    /// `ValidDataLength`, at most `DataLength`.
    pub fn valid(&self) -> (n: u64)
        ensures
            n == (if get64(self.stream@, 8) < get64(self.stream@, 24) {
                get64(self.stream@, 8)
            } else {
                get64(self.stream@, 24)
            }),
    {
        let valid = le64(&self.stream, 8);
        let len = self.len();
        if valid < len {
            valid
        } else {
            len
        }
    }

    /// Whether the clusters are contiguous, without a FAT chain.
    pub fn contiguous(&self) -> (b: bool)
        ensures
            b == (self.stream@[1] & NO_FAT_CHAIN != 0),
    {
        self.stream[1] & NO_FAT_CHAIN != 0
    }

    /// The directory the set describes.
    pub fn as_dir(&self) -> (d: Dir)
        ensures
            d.spec_first() == get32(self.stream@, 20),
            d.spec_len() == get64(self.stream@, 24),
            d.spec_contiguous() == (self.stream@[1] & NO_FAT_CHAIN != 0),
    {
        Dir::new(self.first(), self.len(), self.contiguous())
    }

    /// The read-only, hidden, system and archive bits of `FileAttributes`.
    pub fn file_attributes(&self) -> (a: Attributes)
        ensures
            a == spec_attributes((get16(self.primary@, 4) % 256) as u8),
    {
        let value = self.attributes();
        let low = (value & 0xFF) as u8;
        assert(low == value % 256) by (bit_vector)
            requires
                low == (value & 0xFF) as u8,
        ;
        Attributes {
            read_only: low & 0x01 != 0,
            hidden: low & 0x02 != 0,
            system: low & 0x04 != 0,
            archive: low & 0x20 != 0,
        }
    }
}

/// A time as an exFAT File entry stores it: the `Timestamp` field, its
/// 10 ms increment and its UTC offset byte.
#[derive(Debug, Clone, Copy, PartialEq, Eq)]
pub struct StoredTime {
    /// The date and time in the DOS layout.
    pub timestamp: u32,
    /// Tens of milliseconds past the timestamp's even second.
    pub increment: u8,
    /// The UTC offset in 15-minute steps, with `OffsetValid` in bit 7.
    pub utc_offset: u8,
}

/// The metadata an entry set stores, as plain values: its type, its
/// length, its attributes and the permissions they give, and its three
/// times as stored.
#[derive(Debug, Clone, Copy, PartialEq, Eq)]
pub struct HeadMetadata {
    /// File or directory.
    pub file_type: FileType,
    /// The file's `DataLength`; 0 for a directory.
    pub len: u64,
    /// The read-only, hidden, system and archive bits.
    pub attributes: Attributes,
    /// The permission bits.
    pub permissions: u32,
    /// When the file was created.
    pub created: StoredTime,
    /// When the file was last modified.
    pub modified: StoredTime,
    /// When the file was last accessed; the entry has no 10 ms increment
    /// for it.
    pub accessed: StoredTime,
}

/// The metadata `head` stores: a directory has length 0, the permissions
/// follow from the type and the read-only bit, and the times are read
/// from `CreateTimestamp`, `LastModifiedTimestamp` and
/// `LastAccessedTimestamp` with their increments and UTC offsets.
pub open spec fn head_metadata(head: Head) -> HeadMetadata {
    let dir = get16(head.primary@, 4) & ATTR_DIRECTORY != 0;
    let attributes = spec_attributes((get16(head.primary@, 4) % 256) as u8);
    HeadMetadata {
        file_type: if dir {
            FileType::Dir
        } else {
            FileType::File
        },
        len: if dir {
            0
        } else {
            get64(head.stream@, 24)
        },
        attributes,
        permissions: spec_permissions(dir, attributes.read_only),
        created: StoredTime {
            timestamp: get32(head.primary@, 8),
            increment: head.primary@[20],
            utc_offset: head.primary@[22],
        },
        modified: StoredTime {
            timestamp: get32(head.primary@, 12),
            increment: head.primary@[21],
            utc_offset: head.primary@[23],
        },
        accessed: StoredTime {
            timestamp: get32(head.primary@, 16),
            increment: 0,
            utc_offset: head.primary@[24],
        },
    }
}

impl Head {
    /// The metadata the set stores, as [`head_metadata`] reads it.
    pub fn metadata_fields(&self) -> (m: HeadMetadata)
        ensures
            m == head_metadata(*self),
    {
        let dir = self.is_dir();
        let attributes = self.file_attributes();
        let (file_type, len) = if dir {
            (FileType::Dir, 0)
        } else {
            (FileType::File, self.len())
        };
        let primary = &self.primary;
        HeadMetadata {
            file_type,
            len,
            attributes,
            permissions: permissions(dir, attributes.read_only),
            created: StoredTime {
                timestamp: le32(primary, 8),
                increment: primary[20],
                utc_offset: primary[22],
            },
            modified: StoredTime {
                timestamp: le32(primary, 12),
                increment: primary[21],
                utc_offset: primary[23],
            },
            accessed: StoredTime {
                timestamp: le32(primary, 16),
                increment: 0,
                utc_offset: primary[24],
            },
        }
    }
}

/// One directory entry set, lent to the callback of `list`.
#[derive(Debug)]
pub struct Entry<'a> {
    name: &'a [u16],
    head: Head,
    node: Node,
    zone: Option<i16>,
}

impl<'a> Entry<'a> {
    /// The name's code units.
    pub closed spec fn spec_name(&self) -> Seq<u16> {
        self.name@
    }

    /// The File and Stream Extension entries.
    pub closed spec fn spec_head(&self) -> Head {
        self.head
    }

    /// Where the set is.
    pub closed spec fn spec_node(&self) -> Node {
        self.node
    }

    /// The UTC offset, in minutes, its times are read in.
    pub closed spec fn spec_zone(&self) -> Option<i16> {
        self.zone
    }

    /// The entry set named `name` with entries `head` at `node`, its times
    /// read in `zone`.
    pub fn new(name: &'a [u16], head: Head, node: Node, zone: Option<i16>) -> (e: Self)
        ensures
            e.spec_name() == name@,
            e.spec_head() == head,
            e.spec_node() == node,
            e.spec_zone() == zone,
    {
        Entry { name, head, node, zone }
    }

    /// The name in UTF-16.
    pub fn name_utf16(&self) -> (units: &'a [u16])
        ensures
            units@ == self.spec_name(),
    {
        self.name
    }

    /// The characters of the name, with unpaired surrogates as U+FFFD.
    pub fn chars(&self) -> (v: Vec<char>)
        ensures
            v@ == crate::utf16::decode(self.spec_name()),
    {
        crate::name::utf16_chars(self.name)
    }

    /// File or directory.
    pub fn file_type(&self) -> (t: FileType)
        ensures
            t == (if get16(self.spec_head().primary@, 4) & ATTR_DIRECTORY != 0 {
                FileType::Dir
            } else {
                FileType::File
            }),
    {
        if self.head.is_dir() {
            FileType::Dir
        } else {
            FileType::File
        }
    }

    /// Whether the entry is a directory.
    pub fn is_dir(&self) -> (b: bool)
        ensures
            b == (get16(self.spec_head().primary@, 4) & ATTR_DIRECTORY != 0),
    {
        self.head.is_dir()
    }

    /// The file's `DataLength`; 0 for a directory.
    pub fn len(&self) -> (n: u64)
        ensures
            n == (if get16(self.spec_head().primary@, 4) & ATTR_DIRECTORY != 0 {
                0
            } else {
                get64(self.spec_head().stream@, 24)
            }),
    {
        if self.head.is_dir() {
            0
        } else {
            self.head.len()
        }
    }

    /// Whether [`len`](Self::len) is 0.
    pub fn is_empty(&self) -> (b: bool)
        ensures
            b == (get16(self.spec_head().primary@, 4) & ATTR_DIRECTORY != 0 || get64(
                self.spec_head().stream@,
                24,
            ) == 0),
    {
        self.len() == 0
    }

    /// The file attributes.
    pub fn attributes(&self) -> (a: Attributes)
        ensures
            a == spec_attributes((get16(self.spec_head().primary@, 4) % 256) as u8),
    {
        self.head.file_attributes()
    }

    /// The entry set's position.
    pub fn node(&self) -> (n: Node)
        ensures
            n == self.spec_node(),
    {
        self.node
    }

    /// Where a listing continues after this entry set: the slot after its
    /// last secondary entry.
    pub fn next_cursor(&self) -> (at: u64)
        ensures
            at == self.spec_node().spec_slot() + 1 + self.spec_head().primary@[1],
    {
        self.node.slot as u64 + 1 + self.head.primary[1] as u64
    }

    /// The metadata the entry set stores.
    pub fn metadata_fields(&self) -> (m: HeadMetadata)
        ensures
            m == head_metadata(self.spec_head()),
    {
        self.head.metadata_fields()
    }
}

} // verus!
