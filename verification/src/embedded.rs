//! Pieces of the embedded driver that need no device: open-file handles,
//! handle generations and short names as UTF-16.

use vstd::prelude::*;
use crate::dirent::ShortEntry;
use crate::oem::OemCpConverter;
use crate::short_name::{display_chars, display_chars_of};
use crate::utf16::{char_units, encode, units_of_char};

verus! {

/// An open file: a slot of its volume and the generation of the open that
/// filled it. Not `Clone`, so `close` consumes the only handle.
#[derive(Debug, PartialEq, Eq)]
pub struct File {
    slot: u8,
    generation: u16,
}

impl File {
    /// The slot this handle names.
    pub closed spec fn spec_slot(&self) -> u8 {
        self.slot
    }

    /// The generation of the open that filled the slot.
    pub closed spec fn spec_generation(&self) -> u16 {
        self.generation
    }

    /// A handle for `slot`, opened in generation `generation`.
    pub fn new(slot: u8, generation: u16) -> (f: Self)
        ensures
            f.spec_slot() == slot,
            f.spec_generation() == generation,
    {
        File { slot, generation }
    }

    /// The slot this handle names.
    pub fn slot(&self) -> (s: usize)
        ensures
            s == self.spec_slot(),
    {
        self.slot as usize
    }

    /// The generation of the open that filled the slot.
    pub fn generation(&self) -> (g: u16)
        ensures
            g == self.spec_generation(),
    {
        self.generation
    }
}

/// A directory: the root or a subdirectory by its first cluster. `Copy`
/// and holds no slot; it stays valid while the directory exists.
#[derive(Debug, Clone, Copy, PartialEq, Eq, Hash)]
pub struct Dir {
    first: u32,
}

impl Dir {
    /// The first cluster; 0 for the root.
    pub closed spec fn spec_first(self) -> u32 {
        self.first
    }

    /// The root directory.
    pub fn root() -> (d: Self)
        ensures
            d.spec_first() == 0,
    {
        Dir { first: 0 }
    }

    /// The directory whose chain starts at `first`, the root for 0.
    pub fn new(first: u32) -> (d: Self)
        ensures
            d.spec_first() == first,
    {
        Dir { first }
    }

    /// The first cluster; 0 for the root.
    pub fn first(self) -> (c: u32)
        ensures
            c == self.spec_first(),
    {
        self.first
    }

    /// Whether this is the root directory.
    pub fn is_root(self) -> (b: bool)
        ensures
            b == (self.spec_first() == 0),
    {
        self.first == 0
    }
}

/// Where a listed entry is: the byte offset of its short entry.
#[derive(Debug, Clone, Copy, PartialEq, Eq, Hash)]
pub struct Node {
    offset: u64,
}

impl Node {
    /// The byte offset of the short entry.
    pub closed spec fn spec_offset(self) -> u64 {
        self.offset
    }

    /// The entry whose short entry is at `offset`.
    pub fn new(offset: u64) -> (n: Self)
        ensures
            n.spec_offset() == offset,
    {
        Node { offset }
    }

    /// The byte offset of the short entry.
    pub fn offset(self) -> (o: u64)
        ensures
            o == self.spec_offset(),
    {
        self.offset
    }
}

/// File or directory.
#[derive(Debug, Clone, Copy, PartialEq, Eq)]
pub enum FileType {
    /// A regular file.
    File,
    /// A directory.
    Dir,
}

/// One directory entry, lent to the callback of `list`: its name in
/// UTF-16, its short entry, where it is and where the listing goes on.
#[derive(Debug)]
pub struct Entry<'a> {
    name: &'a [u16],
    short: ShortEntry,
    offset: u64,
    next: u64,
    zone: Option<i16>,
}

impl<'a> Entry<'a> {
    /// The name's code units.
    pub closed spec fn spec_name(&self) -> Seq<u16> {
        self.name@
    }

    /// The short entry.
    pub closed spec fn spec_short(&self) -> ShortEntry {
        self.short
    }

    /// The byte offset of the short entry.
    pub closed spec fn spec_offset(&self) -> u64 {
        self.offset
    }

    /// Where a listing continues after the entry.
    pub closed spec fn spec_next(&self) -> u64 {
        self.next
    }

    /// The UTC offset, in minutes, its times are read in.
    pub closed spec fn spec_zone(&self) -> Option<i16> {
        self.zone
    }

    /// The entry named `name`, with short entry `short` at byte `offset`,
    /// after which a listing continues at `next`, its times in `zone`.
    pub fn new(name: &'a [u16], short: ShortEntry, offset: u64, next: u64, zone: Option<i16>) -> (e: Self)
        ensures
            e.spec_name() == name@,
            e.spec_short() == short,
            e.spec_offset() == offset,
            e.spec_next() == next,
            e.spec_zone() == zone,
    {
        Entry { name, short, offset, next, zone }
    }

    /// The name in UTF-16: the long name, or the short name decoded
    /// through the code page when there is none.
    pub fn name_utf16(&self) -> (units: &'a [u16])
        ensures
            units@ == self.spec_name(),
    {
        self.name
    }

    /// The characters of the name, with unpaired surrogates as U+FFFD.
    pub fn chars(&self) -> (v: Vec<char>)
        ensures
            v@ == crate::utf16::decode(self.spec_name()),
    {
        crate::name::utf16_chars(self.name)
    }

    /// The 11 bytes of the short name as stored.
    pub fn short_name(&self) -> (name: [u8; 11])
        ensures
            name == self.spec_short().name,
    {
        self.short.name
    }

    /// File or directory.
    pub fn file_type(&self) -> (t: FileType)
        ensures
            t == (if self.spec_short().attr & crate::raw::ATTR_DIRECTORY != 0 {
                FileType::Dir
            } else {
                FileType::File
            }),
    {
        if self.short.is_dir() {
            FileType::Dir
        } else {
            FileType::File
        }
    }

    /// Whether the entry is a directory.
    pub fn is_dir(&self) -> (b: bool)
        ensures
            b == (self.spec_short().attr & crate::raw::ATTR_DIRECTORY != 0),
    {
        self.short.is_dir()
    }

    /// The size the entry records; 0 for a directory.
    pub fn len(&self) -> (n: u64)
        ensures
            n == (if self.spec_short().attr & crate::raw::ATTR_DIRECTORY != 0 {
                0
            } else {
                self.spec_short().size as u64
            }),
    {
        if self.short.is_dir() {
            0
        } else {
            self.short.size as u64
        }
    }

    /// Whether [`len`](Self::len) is 0.
    pub fn is_empty(&self) -> (b: bool)
        ensures
            b == (self.spec_short().attr & crate::raw::ATTR_DIRECTORY != 0 || self.spec_short().size == 0),
    {
        self.len() == 0
    }

    /// The DOS attributes.
    pub fn attributes(&self) -> (a: crate::names::Attributes)
        ensures
            a == crate::names::spec_attributes(self.spec_short().attr),
    {
        crate::names::attributes(&self.short)
    }

    /// The entry's position, for opening it.
    pub fn node(&self) -> (n: Node)
        ensures
            n.spec_offset() == self.spec_offset(),
    {
        Node::new(self.offset)
    }

    /// Where a listing continues after this entry.
    pub fn next_cursor(&self) -> (at: u64)
        ensures
            at == self.spec_next(),
    {
        self.next
    }
}

/// The first generation of a volume with serial `serial`, after `mounts`
/// earlier mounts in the program: the mount count spread by a multiplier,
/// mixed with both halves of the serial.
pub open spec fn spec_generation_base(mounts: u16, serial: u32) -> u16 {
    vstd::wrapping::u16_specs::wrapping_mul(mounts, 4099) ^ (serial as u16) ^ ((serial >> 16u32) as u16)
}

/// The first generation of a volume with serial `serial` when `mounts`
/// volumes were mounted before it in the program.
pub fn generation_base(mounts: u16, serial: u32) -> (g: u16)
    ensures
        g == spec_generation_base(mounts, serial),
{
    mounts.wrapping_mul(4099) ^ serial as u16 ^ (serial >> 16u32) as u16
}

/// The short name of `entry` as UTF-16 in `out`, and its length: the
/// display form's code units, as many as `out` holds.
pub fn short_units<C: OemCpConverter>(entry: &ShortEntry, page: &C, out: &mut [u16; 24]) -> (count:
    usize)
    ensures
        ({
            let units = encode(display_chars(*page, entry.name@, entry.nt_case));
            &&& count == (if units.len() < 24 {
                units.len()
            } else {
                24
            })
            &&& final(out)@.take(count as int) == units.take(count as int)
            &&& final(out)@.skip(count as int) == old(out)@.skip(count as int)
        }),
{
    let chars = display_chars_of(&entry.name, entry.nt_case, page);
    let ghost units = encode(chars@);
    let mut count: usize = 0;
    let mut i: usize = 0;
    let ghost mut done = 0int;
    while i < chars.len() && count < 24
        invariant
            i <= chars@.len(),
            units == encode(chars@),
            count <= 24,
            count == encode(chars@.take(i as int)).len() || (count == 24 && encode(chars@.take(
                i as int,
            )).len() > 24),
            out@.take(count as int) == units.take(count as int),
            out@.skip(count as int) == old(out)@.skip(count as int),
            out@.len() == 24,
        decreases chars@.len() - i,
    {
        let ch = chars[i];
        proof {
            assert(chars@.take(i + 1).drop_last() =~= chars@.take(i as int));
            assert(encode(chars@.take(i + 1)) == encode(chars@.take(i as int)) + char_units(ch));
            crate::utf16::lemma_encode_prefix_len(chars@, i + 1);
            crate::utf16::lemma_encode_append(chars@.take(i + 1), chars@.skip(i + 1));
            assert(chars@.take(i + 1) + chars@.skip(i + 1) =~= chars@);
        }
        let (first, second, n) = units_of_char(ch);
        let ghost before = out@;
        let ghost c0 = count as int;
        assert forall|j: int| c0 <= j < 24 implies before[j] == old(out)@[j] by {
            assert(before.skip(c0)[j - c0] == old(out)@.skip(c0)[j - c0]);
        }
        out[count] = first;
        count += 1;
        assert(units[count - 1] == first);
        if n == 2 && count < 24 {
            out[count] = second;
            count += 1;
            assert(units[count - 1] == second);
        }
        assert(out@.take(count as int) =~= units.take(count as int));
        assert(out@.skip(count as int) =~= old(out)@.skip(count as int));
        i += 1;
    }
    proof {
        if count < 24 {
            assert(chars@.take(i as int) =~= chars@);
        } else {
            crate::utf16::lemma_encode_prefix_len(chars@, i as int);
        }
    }
    count
}

} // verus!
