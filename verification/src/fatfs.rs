//! Decisions the FAT driver makes while it updates a volume: where the
//! serial lives and which directory slots a scan passes over.

use vstd::prelude::*;
use crate::kind::FatKind;

verus! {

/// Byte offset of the volume serial number in the boot sector: `0x43` on
/// FAT32, `0x27` on FAT12 and FAT16.
pub fn bpb_serial_offset(kind: FatKind) -> (at: u64)
    ensures
        at == (if kind == FatKind::Fat32 {
            0x43u64
        } else {
            0x27u64
        }),
{
    match kind {
        FatKind::Fat32 => 0x43,
        _ => 0x27,
    }
}

/// What a directory scan treats as free while a name is being replaced: a
/// short entry whose name does not count as taken, and a run of slots,
/// inclusive, that count as free.
#[derive(Debug, Clone, Copy, PartialEq, Eq)]
pub struct Skip {
    /// Byte offset of a short entry whose name does not count as taken.
    pub entry: Option<u64>,
    /// First and last slot, inclusive, that count as free.
    pub run: Option<(u32, u32)>,
}

impl Skip {
    /// Whether the entry in `slot`, at byte `offset`, is passed over.
    pub fn covers(&self, slot: u32, offset: u64) -> (b: bool)
        ensures
            b == (self.entry == Some(offset) || (self.run matches Some((first, last)) && first
                <= slot <= last)),
    {
        let skipped = match self.entry {
            Some(at) => at == offset,
            None => false,
        };
        skipped || match self.run {
            Some((first, last)) => first <= slot && slot <= last,
            None => false,
        }
    }
}

} // verus!
