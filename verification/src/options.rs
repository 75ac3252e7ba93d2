//! Volume labels, format options and the serial a new volume gets.

use vstd::prelude::*;
use crate::error::ErrorKind;
use crate::kind::FatKind;

verus! {

/// Whether `b` may not stand in a volume label: one of `"*+,./:;<=>?[\]|`.
pub open spec fn label_symbol(b: u8) -> bool {
    ||| b == 0x22
    ||| b == 0x2A
    ||| b == 0x2B
    ||| b == 0x2C
    ||| b == 0x2E
    ||| b == 0x2F
    ||| b == 0x3A
    ||| b == 0x3B
    ||| b == 0x3C
    ||| b == 0x3D
    ||| b == 0x3E
    ||| b == 0x3F
    ||| b == 0x5B
    ||| b == 0x5C
    ||| b == 0x5D
    ||| b == 0x7C
}

/// Whether `b` may stand in a volume label: printable ASCII, not one of
/// `"*+,./:;<=>?[\]|`.
pub open spec fn label_byte(b: u8) -> bool {
    0x20 <= b < 0x7F && !label_symbol(b)
}

/// `b` uppercased when it is an ASCII lowercase letter.
pub open spec fn upper(b: u8) -> u8 {
    if 0x61 <= b <= 0x7A {
        (b - 0x20) as u8
    } else {
        b
    }
}

/// The stored label for the UTF-8 bytes `text`, or why there is none.
pub open spec fn spec_label(text: Seq<u8>) -> Result<Seq<u8>, ErrorKind> {
    if text.len() == 0 || text[0] == 0x20 {
        Err(ErrorKind::InvalidInput)
    } else if text.len() > 11 {
        Err(ErrorKind::NameTooLong)
    } else if exists|i: int| 0 <= i < text.len() && !label_byte(#[trigger] text[i]) {
        Err(ErrorKind::InvalidInput)
    } else {
        Ok(Seq::new(11, |i: int| if i < text.len() {
            upper(text[i])
        } else {
            0x20u8
        }))
    }
}

/// How many bytes of `stored` come before its trailing spaces.
pub open spec fn unpadded_len(stored: Seq<u8>) -> nat
    decreases stored.len(),
{
    if stored.len() == 0 {
        0
    } else if stored.last() != 0x20 {
        stored.len()
    } else {
        unpadded_len(stored.drop_last())
    }
}

/// `core::str::from_utf8`: the text `bytes` encode, or `None` when they
/// are not valid UTF-8. The standard library documents that it accepts
/// exactly the valid UTF-8 byte strings and borrows them as text.
#[verifier::external_body]
fn utf8_text(bytes: &[u8]) -> (r: Option<&str>)
    ensures
        r is Some <==> vstd::utf8::valid_utf8(bytes@),
        r matches Some(text) ==> vstd::utf8::encode_utf8(text@) == bytes@,
{
    core::str::from_utf8(bytes).ok()
}

/// A volume label: up to 11 ASCII characters, stored in uppercase.
#[derive(Debug, Clone, Copy, PartialEq, Eq, Hash)]
pub struct VolumeLabel([u8; 11]);

impl VolumeLabel {
    /// The label as stored.
    pub closed spec fn spec_bytes(&self) -> Seq<u8> {
        self.0@
    }

    /// Checks and uppercases `text`. Fails with `ErrorKind::InvalidInput`
    /// when it is empty, starts with a space, or holds a character that is
    /// not ASCII, a control character or one of `"*+,./:;<=>?[\]|`, and
    /// with `ErrorKind::NameTooLong` when it is longer than 11 bytes.
    pub fn new(text: &str) -> (r: Result<Self, ErrorKind>)
        ensures
            match spec_label(vstd::utf8::encode_utf8(text@)) {
                Ok(bytes) => r matches Ok(label) && label.spec_bytes() == bytes,
                Err(e) => r == Err::<Self, ErrorKind>(e),
            },
    {
        let bytes = text.as_bytes();
        let n = bytes.len();
        if n == 0 || bytes[0] == 0x20 {
            return Err(ErrorKind::InvalidInput);
        }
        if n > 11 {
            return Err(ErrorKind::NameTooLong);
        }
        let mut label = [0x20u8; 11];
        let mut i: usize = 0;
        while i < n
            invariant
                bytes@ == vstd::utf8::encode_utf8(text@),
                n == bytes@.len(),
                1 <= n <= 11,
                bytes@[0] != 0x20,
                i <= n,
                label@.len() == 11,
                forall|j: int| 0 <= j < i ==> label_byte(#[trigger] bytes@[j]),
                forall|j: int| 0 <= j < i ==> label@[j] == upper(#[trigger] bytes@[j]),
                forall|j: int| i <= j < 11 ==> label@[j] == 0x20,
            decreases n - i,
        {
            let b = bytes[i];
            if !(0x20 <= b && b < 0x7F) || b == 0x22 || b == 0x2A || b == 0x2B || b == 0x2C || b
                == 0x2E || b == 0x2F || b == 0x3A || b == 0x3B || b == 0x3C || b == 0x3D || b
                == 0x3E || b == 0x3F || b == 0x5B || b == 0x5C || b == 0x5D || b == 0x7C {
                assert(!label_byte(bytes@[i as int]));
                return Err(ErrorKind::InvalidInput);
            }
            label[i] = if 0x61 <= b && b <= 0x7A {
                b - 0x20
            } else {
                b
            };
            i += 1;
        }
        let r = VolumeLabel(label);
        assert(r.spec_bytes() =~= Seq::new(11, |i: int| if i < n {
            upper(bytes@[i])
        } else {
            0x20u8
        }));
        Ok(r)
    }

    /// The label without its padding, or the empty text when the stored
    /// bytes up to the padding are not valid UTF-8.
    pub fn as_str(&self) -> (text: &str)
        ensures
            vstd::utf8::encode_utf8(text@) == (if vstd::utf8::valid_utf8(self.spec_bytes().take(
                unpadded_len(self.spec_bytes()) as int,
            )) {
                self.spec_bytes().take(unpadded_len(self.spec_bytes()) as int)
            } else {
                Seq::<u8>::empty()
            }),
    {
        let mut len: usize = 11;
        assert(self.0@.take(11) =~= self.0@);
        while len > 0 && self.0[len - 1] == 0x20
            invariant
                len <= 11,
                unpadded_len(self.0@) == unpadded_len(self.0@.take(len as int)),
            decreases len,
        {
            assert(self.0@.take(len as int).drop_last() =~= self.0@.take(len - 1));
            len -= 1;
        }
        assert(unpadded_len(self.0@.take(len as int)) == len);
        let stored = vstd::slice::slice_subrange(self.0.as_slice(), 0, len);
        assert(stored@ =~= self.0@.take(len as int));
        match utf8_text(stored) {
            Some(text) => text,
            None => {
                proof {
                    reveal_strlit("");
                    assert(vstd::utf8::encode_utf8(""@) =~= Seq::<u8>::empty());
                }
                ""
            },
        }
    }

    /// A label as read from a volume, unchecked.
    pub fn from_disk(bytes: [u8; 11]) -> (l: Self)
        ensures
            l.spec_bytes() == bytes@,
    {
        VolumeLabel(bytes)
    }

    /// The label as stored: 11 bytes padded with spaces.
    pub fn as_bytes(&self) -> (b: &[u8; 11])
        ensures
            b@ == self.spec_bytes(),
    {
        &self.0
    }
}

/// Trailing spaces after a last byte that is not a space are all that
/// `unpadded_len` drops.
proof fn lemma_unpadded_len(stored: Seq<u8>, n: int, k: int)
    requires
        1 <= n <= k <= stored.len(),
        stored[n - 1] != 0x20,
        forall|j: int| n <= j < stored.len() ==> stored[j] == 0x20,
    ensures
        unpadded_len(stored.take(k)) == n,
    decreases k - n,
{
    if k > n {
        assert(stored.take(k).drop_last() =~= stored.take(k - 1));
        lemma_unpadded_len(stored, n, k - 1);
    }
}

/// A label made from text that does not end in a space reads back as
/// that text uppercased: the stored bytes before the padding are the
/// text's bytes uppercased, they are valid UTF-8 (so `as_str` gives
/// them), and the padding is all spaces.
pub proof fn lemma_label_reads_back(text: Seq<u8>)
    requires
        spec_label(text) is Ok,
        text.len() > 0 ==> text[text.len() - 1] != 0x20,
    ensures
        spec_label(text) matches Ok(stored) && {
            let len = unpadded_len(stored);
            &&& len == text.len()
            &&& vstd::utf8::valid_utf8(stored.take(len as int))
            &&& stored.take(len as int) == text.map_values(|b: u8| upper(b))
            &&& forall|i: int| len <= i < 11 ==> stored[i] == 0x20
        },
{
    let stored = spec_label(text)->Ok_0;
    let n = text.len() as int;
    assert(stored.take(11) =~= stored);
    assert(stored[n - 1] == upper(text[n - 1]));
    lemma_unpadded_len(stored, n, 11);
    let shown = stored.take(n);
    assert(shown =~= text.map_values(|b: u8| upper(b)));
    assert forall|i: int| 0 <= i < shown.len() implies vstd::utf8::is_leading_byte_width_1(
        #[trigger] shown[i],
    ) by {
        assert(label_byte(text[i]));
    }
    assert(shown.subrange(0, 0) =~= Seq::<u8>::empty());
    assert(vstd::utf8::partial_valid_utf8(shown, 0));
    vstd::utf8::partial_valid_utf8_extend_ascii_block(shown, 0, n);
    assert(shown.subrange(0, n) =~= shown);
}

/// An instant: seconds since the Unix epoch and nanoseconds into the
/// second.
#[derive(Debug, Clone, Copy, PartialEq, Eq)]
pub struct Timestamp {
    /// Seconds since 1970-01-01 00:00:00 UTC.
    pub seconds: i64,
    /// Nanoseconds, below one billion.
    pub nanos: u32,
}

/// The serial of a volume made at `time`, or from `seed`: SplitMix64 of
/// the seed folded to 32 bits, or the time's seconds folded to 32 bits and
/// mixed with its nanoseconds rotated by 16.
pub open spec fn spec_serial(time: Timestamp, seed: Option<u64>) -> u32 {
    match seed {
        Some(seed) => {
            let z0 = vstd::wrapping::u64_specs::wrapping_add(seed, 0x9E37_79B9_7F4A_7C15);
            let z1 = vstd::wrapping::u64_specs::wrapping_mul(z0 ^ (z0 >> 30u64), 0xBF58_476D_1CE4_E5B9);
            let z2 = vstd::wrapping::u64_specs::wrapping_mul(z1 ^ (z1 >> 27u64), 0x94D0_49BB_1331_11EB);
            let z3 = z2 ^ (z2 >> 31u64);
            (z3 as u32) ^ ((z3 >> 32u64) as u32)
        },
        None => {
            let seconds = time.seconds as u64;
            (seconds as u32) ^ ((seconds >> 32u64) as u32) ^ ((time.nanos << 16u32) | (time.nanos
                >> 16u32))
        },
    }
}

/// The serial of a volume made at `time`, or from `seed`.
pub fn serial(time: Timestamp, seed: Option<u64>) -> (s: u32)
    ensures
        s == spec_serial(time, seed),
{
    match seed {
        Some(seed) => {
            let mut z = seed.wrapping_add(0x9E37_79B9_7F4A_7C15);
            z = (z ^ (z >> 30u64)).wrapping_mul(0xBF58_476D_1CE4_E5B9);
            z = (z ^ (z >> 27u64)).wrapping_mul(0x94D0_49BB_1331_11EB);
            z = z ^ (z >> 31u64);
            (z as u32) ^ ((z >> 32u64) as u32)
        },
        None => {
            let seconds = time.seconds as u64;
            (seconds as u32) ^ ((seconds >> 32u64) as u32) ^ ((time.nanos << 16u32) | (time.nanos
                >> 16u32))
        },
    }
}

/// The time a format stamps when none is given: 1980-01-01 00:00:00 UTC,
/// the first instant FAT stores.
pub open spec fn default_time() -> Timestamp {
    Timestamp { seconds: 315_532_800, nanos: 0 }
}

/// How `format` lays out a FAT12, FAT16 or FAT32 volume.
///
/// Every field has a default, so `FatOptions::new()` formats any device
/// large enough: FAT12 below 16 MiB, FAT16 below 512 MiB and FAT32 from
/// there, with the cluster size Microsoft's tools choose for the size,
/// adjusted until the cluster count suits the variant. The sector size is
/// the device's block size when that is 512 to 4096 bytes, else 512. The
/// volume fills the device, and its partition offset is the device's.
#[derive(Debug, Clone, Copy)]
pub struct FatOptions {
    /// The variant, or `None` to choose it from the size.
    pub kind: Option<FatKind>,
    /// The volume's length in bytes, or `None` to fill the device.
    pub size: Option<u64>,
    /// The label, or `None` for `NO NAME`.
    pub label: Option<VolumeLabel>,
    /// The time that stamps the label entry and seeds the serial.
    pub time: Timestamp,
    /// The seed of the serial, used instead of the time.
    pub seed: Option<u64>,
    /// The serial, used instead of one derived.
    pub serial: Option<u32>,
    /// The sector size, or `None` for the device's.
    pub sector_size: Option<u32>,
    /// The cluster size in bytes, or `None` to choose it.
    pub cluster_size: Option<u32>,
    /// Reserved sectors, or `None` for the variant's default.
    pub reserved_sectors: Option<u16>,
    /// FAT copies.
    pub fat_count: u8,
    /// Entries of the FAT12/16 root directory.
    pub root_entries: u16,
    /// The media descriptor.
    pub media: u8,
    /// The boot sector's OEM name.
    pub oem_name: [u8; 8],
    /// Bytes before the volume on its disk, or `None` for the device's.
    pub partition_offset: Option<u64>,
    /// What the data region's start is a multiple of, or `None`.
    pub alignment: Option<u32>,
}

impl FatOptions {
    /// The defaults: the variant and cluster size chosen from the size, the
    /// whole device, no label, 1980-01-01, OEM name `HADRISFT`, two FATs,
    /// 512 root entries on FAT12/16, media `0xF8` and the device's
    /// partition offset.
    pub fn new() -> (o: Self)
        ensures
            o.kind is None && o.size is None && o.label is None && o.seed is None && o.serial is None,
            o.time == default_time(),
            o.sector_size is None && o.cluster_size is None && o.reserved_sectors is None,
            o.fat_count == 2 && o.root_entries == 512 && o.media == 0xF8,
            o.oem_name@ == seq![0x48u8, 0x41, 0x44, 0x52, 0x49, 0x53, 0x46, 0x54],
            o.partition_offset is None && o.alignment is None,
    {
        let o = FatOptions {
            kind: None,
            size: None,
            label: None,
            time: Timestamp { seconds: 315_532_800, nanos: 0 },
            seed: None,
            serial: None,
            sector_size: None,
            cluster_size: None,
            reserved_sectors: None,
            fat_count: 2,
            root_entries: 512,
            media: 0xF8,
            oem_name: [0x48, 0x41, 0x44, 0x52, 0x49, 0x53, 0x46, 0x54],
            partition_offset: None,
            alignment: None,
        };
        assert(o.oem_name@ =~= seq![0x48u8, 0x41, 0x44, 0x52, 0x49, 0x53, 0x46, 0x54]);
        o
    }

    /// Formats as `kind` instead of choosing from the size.
    pub fn with_kind(self, kind: FatKind) -> (o: Self)
        ensures
            o == (FatOptions { kind: Some(kind), ..self }),
    {
        FatOptions { kind: Some(kind), ..self }
    }

    /// Makes the volume `bytes` long, rounded down to whole sectors.
    pub fn with_size(self, bytes: u64) -> (o: Self)
        ensures
            o == (FatOptions { size: Some(bytes), ..self }),
    {
        FatOptions { size: Some(bytes), ..self }
    }

    /// Writes `label` to the boot sector and as the root directory's label.
    pub fn with_label(self, label: VolumeLabel) -> (o: Self)
        ensures
            o == (FatOptions { label: Some(label), ..self }),
    {
        FatOptions { label: Some(label), ..self }
    }

    /// Stamps with `time`, and derives the serial from it without a seed.
    pub fn with_time(self, time: Timestamp) -> (o: Self)
        ensures
            o == (FatOptions { time, ..self }),
    {
        FatOptions { time, ..self }
    }

    /// Derives the serial from `seed` instead of the time.
    pub fn with_seed(self, seed: u64) -> (o: Self)
        ensures
            o == (FatOptions { seed: Some(seed), ..self }),
    {
        FatOptions { seed: Some(seed), ..self }
    }

    /// Sets the volume serial number instead of deriving it.
    pub fn with_serial(self, serial: u32) -> (o: Self)
        ensures
            o == (FatOptions { serial: Some(serial), ..self }),
    {
        FatOptions { serial: Some(serial), ..self }
    }

    /// Sets the FAT sector size: 512, 1024, 2048 or 4096 bytes.
    pub fn with_sector_size(self, bytes: u32) -> (o: Self)
        ensures
            o == (FatOptions { sector_size: Some(bytes), ..self }),
    {
        FatOptions { sector_size: Some(bytes), ..self }
    }

    /// Sets the cluster size in bytes; it is then not adjusted.
    pub fn with_cluster_size(self, bytes: u32) -> (o: Self)
        ensures
            o == (FatOptions { cluster_size: Some(bytes), ..self }),
    {
        FatOptions { cluster_size: Some(bytes), ..self }
    }

    /// Sets the reserved sectors before the first FAT.
    pub fn with_reserved_sectors(self, sectors: u16) -> (o: Self)
        ensures
            o == (FatOptions { reserved_sectors: Some(sectors), ..self }),
    {
        FatOptions { reserved_sectors: Some(sectors), ..self }
    }

    /// Sets the number of FATs, 1 or 2.
    pub fn with_fat_count(self, count: u8) -> (o: Self)
        ensures
            o == (FatOptions { fat_count: count, ..self }),
    {
        FatOptions { fat_count: count, ..self }
    }

    /// Sets the entries of the FAT12/16 root directory.
    pub fn with_root_entries(self, entries: u16) -> (o: Self)
        ensures
            o == (FatOptions { root_entries: entries, ..self }),
    {
        FatOptions { root_entries: entries, ..self }
    }

    /// Sets the media descriptor: `0xF0` or `0xF8` to `0xFF`.
    pub fn with_media(self, media: u8) -> (o: Self)
        ensures
            o == (FatOptions { media, ..self }),
    {
        FatOptions { media, ..self }
    }

    /// Sets the 8-byte OEM name of the boot sector.
    pub fn with_oem_name(self, name: [u8; 8]) -> (o: Self)
        ensures
            o == (FatOptions { oem_name: name, ..self }),
    {
        FatOptions { oem_name: name, ..self }
    }

    /// Records the volume as starting `bytes` into its disk.
    pub fn with_partition_offset(self, bytes: u64) -> (o: Self)
        ensures
            o == (FatOptions { partition_offset: Some(bytes), ..self }),
    {
        FatOptions { partition_offset: Some(bytes), ..self }
    }

    /// Starts the data region at a multiple of `bytes` from the volume's
    /// start, by adding reserved sectors.
    pub fn with_alignment(self, bytes: u32) -> (o: Self)
        ensures
            o == (FatOptions { alignment: Some(bytes), ..self }),
    {
        FatOptions { alignment: Some(bytes), ..self }
    }
}

impl Default for FatOptions {
    fn default() -> (o: Self)
        ensures
            o.kind is None && o.size is None && o.label is None && o.seed is None && o.serial is None,
            o.time == default_time(),
            o.fat_count == 2 && o.root_entries == 512 && o.media == 0xF8,
            o.partition_offset is None && o.alignment is None,
    {
        Self::new()
    }
}

} // verus!
