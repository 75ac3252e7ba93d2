//! exFAT volume labels and format options.

use vstd::prelude::*;
use crate::error::ErrorKind;
use crate::options::Timestamp;

verus! {

/// The most code units a label has.
pub const MAX_LABEL_UNITS: usize = 11;

/// Whether `unit` may stand in a label or file name: not a control
/// character and not one of `"*/:<>?\|`.
pub open spec fn valid_unit(unit: u16) -> bool {
    &&& unit >= 0x20
    &&& unit != 0x22
    &&& unit != 0x2A
    &&& unit != 0x2F
    &&& unit != 0x3A
    &&& unit != 0x3C
    &&& unit != 0x3E
    &&& unit != 0x3F
    &&& unit != 0x5C
    &&& unit != 0x7C
}

/// The label [`VolumeLabel::new`] makes of the UTF-16 code units `units`,
/// or why it fails: empty, a forbidden unit among the first twelve, or more
/// than eleven units.
pub open spec fn spec_label(units: Seq<u16>) -> Result<Seq<u16>, ErrorKind> {
    if units.len() == 0 {
        Err(ErrorKind::InvalidInput)
    } else if exists|i: int| 0 <= i < units.len() && i <= 11 && !valid_unit(#[trigger] units[i]) {
        Err(ErrorKind::InvalidInput)
    } else if units.len() > 11 {
        Err(ErrorKind::NameTooLong)
    } else {
        Ok(units)
    }
}

/// An exFAT volume label: 1 to 11 UTF-16 code units, stored as given.
#[derive(Clone, Copy, PartialEq, Eq, Hash, Debug)]
pub struct VolumeLabel {
    units: [u16; 11],
    len: u8,
}

impl VolumeLabel {
    /// The label's code units.
    pub closed spec fn spec_units(&self) -> Seq<u16> {
        self.units@.take(if self.len <= 11 {
            self.len as int
        } else {
            11
        })
    }

    /// Checks `text`. Fails with `ErrorKind::InvalidInput` when it is empty
    /// or holds a control character or one of `"*/:<>?\|`, and with
    /// `ErrorKind::NameTooLong` above 11 UTF-16 code units.
    pub fn new(text: &str) -> (r: Result<Self, ErrorKind>)
        ensures
            match spec_label(crate::utf16::encode(text@)) {
                Ok(units) => r matches Ok(label) && label.spec_units() == units,
                Err(e) => r == Err::<Self, ErrorKind>(e),
            },
    {
        let chars = crate::short_name::chars_of(text);
        let ghost all = crate::utf16::encode(chars@);
        let mut units = [0u16; 11];
        let mut len: usize = 0;
        let mut i: usize = 0;
        proof {
            crate::utf16::lemma_encode_len_at_least(chars@);
        }
        if chars.len() == 0 {
            assert(all.len() == 0);
            return Err(ErrorKind::InvalidInput);
        }
        while i < chars.len()
            invariant
                chars@ == text@,
                all == crate::utf16::encode(chars@),
                all.len() >= 1,
                i <= chars@.len(),
                len == crate::utf16::encode(chars@.take(i as int)).len(),
                len <= 11,
                units@.take(len as int) == all.take(len as int),
                forall|j: int| 0 <= j < len ==> valid_unit(#[trigger] all[j]),
            decreases chars@.len() - i,
        {
            let ch = chars[i];
            proof {
                assert(chars@.take(i + 1).drop_last() =~= chars@.take(i as int));
                assert(crate::utf16::encode(chars@.take(i + 1)) == crate::utf16::encode(
                    chars@.take(i as int),
                ) + crate::utf16::char_units(ch));
                crate::utf16::lemma_encode_append(chars@.take(i + 1), chars@.skip(i + 1));
                assert(chars@.take(i + 1) + chars@.skip(i + 1) =~= chars@);
            }
            let (first, second, n) = crate::utf16::units_of_char(ch);
            assert(all[len as int] == first);
            if !unit_ok(first) {
                assert(!valid_unit(all[len as int]) && len < all.len());
                return Err(ErrorKind::InvalidInput);
            }
            if len == MAX_LABEL_UNITS {
                return Err(ErrorKind::NameTooLong);
            }
            units[len] = first;
            len += 1;
            if n == 2 {
                assert(all[len as int] == second);
                if !unit_ok(second) {
                    assert(!valid_unit(all[len as int]) && len < all.len());
                    return Err(ErrorKind::InvalidInput);
                }
                if len == MAX_LABEL_UNITS {
                    return Err(ErrorKind::NameTooLong);
                }
                units[len] = second;
                len += 1;
            }
            assert(units@.take(len as int) =~= all.take(len as int));
            i += 1;
        }
        assert(chars@.take(i as int) =~= chars@);
        assert(all.take(len as int) =~= all);
        let label = VolumeLabel { units, len: len as u8 };
        Ok(label)
    }

    /// A label as read from a volume, unchecked; at most eleven units.
    pub fn from_disk(units: [u16; 11], len: u8) -> (l: Self)
        ensures
            l.spec_units() == units@.take(if len < 11 {
                len as int
            } else {
                11
            }),
    {
        VolumeLabel { units, len: if len < 11 {
            len
        } else {
            11
        } }
    }

    /// The label as text, with unpaired surrogates as U+FFFD.
    pub fn to_string(&self) -> (text: String)
        ensures
            text@ == crate::utf16::decode(self.spec_units()),
    {
        crate::name::string_of(crate::name::utf16_chars(self.as_utf16()))
    }

    /// The label's UTF-16 code units.
    pub fn as_utf16(&self) -> (u: &[u16])
        ensures
            u@ == self.spec_units(),
            u@.len() <= MAX_LABEL_UNITS,
    {
        let n: usize = if self.len <= 11 {
            self.len as usize
        } else {
            MAX_LABEL_UNITS
        };
        let u = vstd::slice::slice_subrange(self.units.as_slice(), 0, n);
        assert(u@ =~= self.spec_units());
        u
    }
}

/// Whether `unit` may stand in a label or file name.
fn unit_ok(unit: u16) -> (b: bool)
    ensures
        b == valid_unit(unit),
{
    unit >= 0x20 && unit != 0x22 && unit != 0x2A && unit != 0x2F && unit != 0x3A && unit != 0x3C
        && unit != 0x3E && unit != 0x3F && unit != 0x5C && unit != 0x7C
}

/// How `format` lays out an exFAT volume.
///
/// Every field has a default, so `ExFatOptions::new()` formats any device
/// of at least 1 MiB: 512-byte sectors (or the device's block size when it
/// is 512 to 4096 bytes), 4 KiB clusters below 256 MiB, 32 KiB below
/// 32 GiB and 128 KiB above, the FAT and the cluster heap aligned to 1 MiB
/// on volumes of 64 MiB or more and to the cluster size below.
#[derive(Debug, Clone, Copy)]
pub struct ExFatOptions {
    /// The volume's length in bytes, or `None` to fill the device.
    pub size: Option<u64>,
    /// The Volume Label entry's label.
    pub label: Option<VolumeLabel>,
    /// The time new nodes get and the serial derives from.
    pub time: Timestamp,
    /// The seed of the serial.
    pub seed: Option<u64>,
    /// The serial, used instead of one derived.
    pub serial: Option<u32>,
    /// The sector size, or `None` for the device's.
    pub sector_size: Option<u32>,
    /// The cluster size in bytes, or `None` to choose it.
    pub cluster_size: Option<u32>,
    /// FATs and Allocation Bitmaps: 1, or 2 for TexFAT.
    pub fat_count: u8,
    /// Bytes before the volume on its media, or `None` for the device's.
    pub partition_offset: Option<u64>,
    /// What the FAT and the heap are aligned to, or `None` to choose it.
    pub alignment: Option<u32>,
}

impl ExFatOptions {
    /// The defaults: sizes chosen from the device, the whole device, no
    /// label, 1980-01-01, one FAT and the device's partition offset.
    pub fn new() -> (o: Self)
        ensures
            o.size is None && o.label is None && o.seed is None && o.serial is None,
            o.time == crate::options::default_time(),
            o.sector_size is None && o.cluster_size is None && o.alignment is None,
            o.fat_count == 1 && o.partition_offset is None,
    {
        ExFatOptions {
            size: None,
            label: None,
            time: Timestamp { seconds: 315_532_800, nanos: 0 },
            seed: None,
            serial: None,
            sector_size: None,
            cluster_size: None,
            fat_count: 1,
            partition_offset: None,
            alignment: None,
        }
    }

    /// Makes the volume `bytes` long, rounded down to whole sectors.
    pub fn with_size(self, bytes: u64) -> (o: Self)
        ensures
            o == (ExFatOptions { size: Some(bytes), ..self }),
    {
        ExFatOptions { size: Some(bytes), ..self }
    }

    /// Writes `label` as the root directory's Volume Label entry.
    pub fn with_label(self, label: VolumeLabel) -> (o: Self)
        ensures
            o == (ExFatOptions { label: Some(label), ..self }),
    {
        ExFatOptions { label: Some(label), ..self }
    }

    /// Stamps new nodes with `time`, and derives the serial from it.
    pub fn with_time(self, time: Timestamp) -> (o: Self)
        ensures
            o == (ExFatOptions { time, ..self }),
    {
        ExFatOptions { time, ..self }
    }

    /// Derives the serial from `seed` instead of the time.
    pub fn with_seed(self, seed: u64) -> (o: Self)
        ensures
            o == (ExFatOptions { seed: Some(seed), ..self }),
    {
        ExFatOptions { seed: Some(seed), ..self }
    }

    /// Sets the volume serial number instead of deriving it.
    pub fn with_serial(self, serial: u32) -> (o: Self)
        ensures
            o == (ExFatOptions { serial: Some(serial), ..self }),
    {
        ExFatOptions { serial: Some(serial), ..self }
    }

    /// Sets the sector size: 512, 1024, 2048 or 4096 bytes.
    pub fn with_sector_size(self, bytes: u32) -> (o: Self)
        ensures
            o == (ExFatOptions { sector_size: Some(bytes), ..self }),
    {
        ExFatOptions { sector_size: Some(bytes), ..self }
    }

    /// Sets the cluster size: a power of two, at least the sector size and
    /// at most 32 MiB.
    pub fn with_cluster_size(self, bytes: u32) -> (o: Self)
        ensures
            o == (ExFatOptions { cluster_size: Some(bytes), ..self }),
    {
        ExFatOptions { cluster_size: Some(bytes), ..self }
    }

    /// Sets the number of FATs: 1, or 2 for a TexFAT volume.
    pub fn with_fat_count(self, count: u8) -> (o: Self)
        ensures
            o == (ExFatOptions { fat_count: count, ..self }),
    {
        ExFatOptions { fat_count: count, ..self }
    }

    /// Records the volume as starting `bytes` into its media.
    pub fn with_partition_offset(self, bytes: u64) -> (o: Self)
        ensures
            o == (ExFatOptions { partition_offset: Some(bytes), ..self }),
    {
        ExFatOptions { partition_offset: Some(bytes), ..self }
    }

    /// Aligns the FAT and the cluster heap to `bytes`.
    pub fn with_alignment(self, bytes: u32) -> (o: Self)
        ensures
            o == (ExFatOptions { alignment: Some(bytes), ..self }),
    {
        ExFatOptions { alignment: Some(bytes), ..self }
    }
}

impl Default for ExFatOptions {
    fn default() -> (o: Self)
        ensures
            o.size is None && o.label is None && o.seed is None && o.serial is None,
            o.time == crate::options::default_time(),
            o.sector_size is None && o.cluster_size is None && o.alignment is None,
            o.fat_count == 1 && o.partition_offset is None,
    {
        Self::new()
    }
}

} // verus!
