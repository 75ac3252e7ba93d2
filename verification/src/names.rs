//! Name and attribute handling shared by the FAT drivers: folding a
//! character, checking a path component, telling whether a query is an
//! entry's exact name, and the permissions and attributes a short entry
//! stands for.

use vstd::prelude::*;
use vstd::utf8::is_scalar;
use crate::dirent::ShortEntry;
use crate::error::ErrorKind;
use crate::oem::OemCpConverter;
use crate::raw::{ATTR_ARCHIVE, ATTR_HIDDEN, ATTR_READ_ONLY, ATTR_SYSTEM};
use crate::short_name::{
    case_bits, chars_of, display_chars, display_chars_of, generate, is_valid_long_name, spec_case_bits,
    spec_generate, to_disk, valid_long_name, DELETED, KANJI_LEAD,
};
use crate::lfn::{Encoded, MAX_UNITS};
use crate::name::{ascii_upper_char, is_ascii_char};
use crate::utf16::{encode, units_of_char};
use crate::utf16::decode;

verus! {

/// How a volume folds the case of a UTF-16 code unit when it compares
/// names and generates short names.
pub trait UnitFold {
    /// What `unit` folds to.
    spec fn spec_fold(&self, unit: u16) -> u16;

    /// Folds `unit`.
    fn fold(&self, unit: u16) -> (r: u16)
        ensures
            r == self.spec_fold(unit),
    ;
}

/// ASCII folding: `a` to `z` become `A` to `Z`, every other unit stays.
#[derive(Debug, Default, Clone, Copy)]
pub struct AsciiFold;

impl UnitFold for AsciiFold {
    open spec fn spec_fold(&self, unit: u16) -> u16 {
        if 0x61 <= unit <= 0x7A {
            (unit - 0x20) as u16
        } else {
            unit
        }
    }

    fn fold(&self, unit: u16) -> (r: u16) {
        if 0x61 <= unit && unit <= 0x7A {
            unit - 0x20
        } else {
            unit
        }
    }
}

/// `ch` folded by `fold` when it is in the Basic Multilingual Plane: the
/// folded code unit as a character, or `ch` itself when that unit is a
/// surrogate. Characters beyond the plane stay as they are.
pub open spec fn spec_fold_char<F: UnitFold>(fold: F, ch: char) -> char {
    if (ch as u32) > 0xFFFF {
        ch
    } else {
        let folded = fold.spec_fold((ch as u32) as u16);
        if is_scalar(folded as u32) {
            (folded as u32) as char
        } else {
            ch
        }
    }
}

/// `ch` folded by `fold` when it is in the Basic Multilingual Plane.
pub fn fold_char<F: UnitFold>(ch: char, fold: &F) -> (r: char)
    ensures
        r == spec_fold_char(*fold, ch),
{
    let code = ch as u32;
    if code > 0xFFFF {
        return ch;
    }
    let folded = fold.fold(code as u16);
    match char::from_u32(folded as u32) {
        Some(c) => c,
        None => ch,
    }
}

/// The code page `page` seen through the folding `fold`: characters are
/// folded before they are encoded; bytes decode as `page` has them.
pub struct Folded<'a, C: OemCpConverter, F: UnitFold> {
    /// The code page.
    pub page: &'a C,
    /// The folding.
    pub fold: &'a F,
}

impl<'a, C: OemCpConverter, F: UnitFold> OemCpConverter for Folded<'a, C, F> {
    open spec fn spec_encode(&self, ch: char) -> Option<u8> {
        self.page.spec_encode(spec_fold_char(*self.fold, ch))
    }

    open spec fn spec_decode(&self, byte: u8) -> char {
        self.page.spec_decode(byte)
    }

    fn encode(&self, ch: char) -> (r: Option<u8>) {
        self.page.encode(fold_char(ch, self.fold))
    }

    fn decode(&self, byte: u8) -> (c: char) {
        self.page.decode(byte)
    }
}

/// The short name [`short_name`] gives: the one `generate` makes with
/// characters folded by `fold` before `page` encodes them.
pub open spec fn spec_short_name<C: OemCpConverter, F: UnitFold>(
    text: Seq<char>,
    suffix: u8,
    page: C,
    fold: F,
) -> Option<Seq<u8>> {
    match spec_generate(Folded { page: &page, fold: &fold }, text, suffix) {
        Some(name) => Some(name),
        None => None,
    }
}

/// The short name of `text` with tail `suffix`, its characters folded by
/// `fold` before `page` encodes them.
pub fn short_name<C: OemCpConverter, F: UnitFold>(text: &str, suffix: u8, page: &C, fold: &F) -> (r: Option<[u8; 11]>)
    ensures
        match spec_short_name(text@, suffix, *page, *fold) {
            Some(name) => r matches Some(out) && out@ == name,
            None => r is None,
        },
{
    generate(text, suffix, &Folded { page, fold })
}

/// Short-name candidates a directory scan checks at once: tails none,
/// `~1` to `~4`, and the first hashed tail.
pub const CANDIDATES: usize = 6;

/// A generated short name as stored: a leading `0xE5` as `0x05`.
pub open spec fn stored_form(name: Seq<u8>) -> Seq<u8> {
    if name[0] == DELETED {
        name.update(0, KANJI_LEAD)
    } else {
        name
    }
}

/// The candidate for tail `suffix`: the stored form of the short name, or
/// eleven zeros when there is none.
pub open spec fn spec_candidate<C: OemCpConverter, F: UnitFold>(
    text: Seq<char>,
    suffix: u8,
    page: C,
    fold: F,
) -> Seq<u8> {
    match spec_short_name(text, suffix, page, fold) {
        Some(name) => stored_form(name),
        None => Seq::new(11, |i: int| 0u8),
    }
}

/// Why [`NewName::new`] refuses `text`, if it does: longer than 255
/// UTF-16 code units, not a valid long name, ending in a dot or a space,
/// or empty.
pub open spec fn name_error(text: Seq<char>) -> Option<ErrorKind> {
    if encode(text).len() > MAX_UNITS {
        Some(ErrorKind::NameTooLong)
    } else if !valid_long_name(text) || (text.len() > 0 && (text.last() == '.' || text.last()
        == ' ')) {
        Some(ErrorKind::InvalidInput)
    } else if encode(text).len() < 1 {
        Some(ErrorKind::InvalidInput)
    } else {
        None
    }
}

/// Whether every character of `text` is ASCII.
pub open spec fn all_ascii(text: Seq<char>) -> bool {
    forall|i: int| 0 <= i < text.len() ==> is_ascii_char(#[trigger] text[i])
}

/// Whether the name is its own short name up to case: the first candidate
/// exists, the name is ASCII, and uppercased it is what the candidate
/// shows as.
pub open spec fn spec_lossless<C: OemCpConverter>(text: Seq<char>, page: C, first: Seq<u8>) -> bool {
    &&& first[0] != 0
    &&& all_ascii(text)
    &&& text.map_values(|c: char| ascii_upper_char(c)) == display_chars(page, first, 0)
}

/// A name about to be written: its long-name entries and short-name
/// candidates.
pub struct NewName {
    /// The long-name entries.
    pub encoded: Encoded,
    /// Candidates in stored form for tails none, `~1` to `~4`, and the
    /// first hashed tail, so one directory scan checks them all; zeros
    /// where there is none.
    pub candidates: [[u8; 11]; CANDIDATES],
    /// The name is its own short name up to case.
    pub lossless: bool,
    /// Set when the name can be stored as a short entry alone with these
    /// `DIR_NTRes` case bits.
    pub case_bits: Option<u8>,
}

/// Whether `text` has more than `max` UTF-16 code units.
fn utf16_longer(text: &str, max: usize) -> (b: bool)
    ensures
        b == (encode(text@).len() > max),
{
    let chars = chars_of(text);
    let mut count: usize = 0;
    let mut i: usize = 0;
    while i < chars.len()
        invariant
            chars@ == text@,
            i <= chars@.len(),
            count == encode(chars@.take(i as int)).len(),
            count <= max,
        decreases chars@.len() - i,
    {
        proof {
            assert(chars@.take(i + 1).drop_last() =~= chars@.take(i as int));
        }
        let (_, _, n) = units_of_char(chars[i]);
        if n > max - count {
            proof {
                assert(chars@.take(i + 1) + chars@.skip(i + 1) =~= chars@);
                crate::utf16::lemma_encode_append(chars@.take(i + 1), chars@.skip(i + 1));
            }
            return true;
        }
        count = count + n;
        i += 1;
    }
    assert(chars@.take(i as int) =~= chars@);
    false
}

impl NewName {
    /// Checks `text` and generates its short-name candidates, folding the
    /// case of non-ASCII characters with `fold` before `page` encodes
    /// them. Fails with `ErrorKind::NameTooLong` above 255 UTF-16 code
    /// units, and with `ErrorKind::InvalidInput` when the name is empty,
    /// not a valid long name, or ends in a dot or a space.
    pub fn new<C: OemCpConverter, F: UnitFold>(text: &str, page: &C, fold: &F) -> (r: Result<
        NewName,
        ErrorKind,
    >)
        ensures
            match name_error(text@) {
                Some(e) => r == Err::<NewName, ErrorKind>(e),
                None => r matches Ok(n) && {
                    &&& n.encoded.wf()
                    &&& n.encoded.spec_name() == encode(text@)
                    &&& forall|k: int|
                        0 <= k < CANDIDATES ==> (#[trigger] n.candidates@[k])@ == spec_candidate(
                            text@,
                            k as u8,
                            *page,
                            *fold,
                        )
                    &&& n.lossless == spec_lossless(text@, *page, n.candidates@[0]@)
                    &&& n.case_bits == spec_case_bits(text@)
                },
            },
    {
        if utf16_longer(text, MAX_UNITS) {
            return Err(ErrorKind::NameTooLong);
        }
        let chars = chars_of(text);
        let n = chars.len();
        if !is_valid_long_name(text) || (n > 0 && (chars[n - 1] == '.' || chars[n - 1] == ' ')) {
            return Err(ErrorKind::InvalidInput);
        }
        let encoded = match Encoded::new(text) {
            Some(e) => e,
            None => return Err(ErrorKind::InvalidInput),
        };
        let mut candidates = [[0u8; 11]; CANDIDATES];
        let mut suffix: usize = 0;
        while suffix < CANDIDATES
            invariant
                suffix <= CANDIDATES,
                forall|k: int|
                    0 <= k < suffix ==> (#[trigger] candidates@[k])@ == spec_candidate(
                        text@,
                        k as u8,
                        *page,
                        *fold,
                    ),
                forall|k: int| suffix <= k < CANDIDATES ==> (#[trigger] candidates@[k])@ == Seq::new(11, |i: int| 0u8),
            decreases CANDIDATES - suffix,
        {
            if let Some(mut name) = short_name(text, suffix as u8, page, fold) {
                to_disk(&mut name);
                candidates[suffix] = name;
            } else {
                assert(candidates@[suffix as int]@ =~= Seq::new(11, |i: int| 0u8));
            }
            suffix += 1;
        }
        let first = candidates[0];
        let lossless = first[0] != 0 && is_lossless(&chars, &first, page);
        Ok(NewName { encoded, candidates, lossless, case_bits: case_bits(text) })
    }

    /// Whether the name needs no long-name entries: it is its own short
    /// name and its case fits the case bits.
    pub fn short_only(&self) -> (b: bool)
        ensures
            b == (self.lossless && self.case_bits is Some),
    {
        self.lossless && self.case_bits.is_some()
    }

    /// Directory slots the name needs: one for a short entry alone, else
    /// its long-name entries and the short entry.
    pub fn slots(&self) -> (n: u32)
        requires
            self.encoded.wf(),
        ensures
            n == (if self.lossless && self.case_bits is Some {
                1
            } else {
                self.encoded.spec_entries() + 1
            }),
    {
        if self.short_only() {
            1
        } else {
            self.encoded.entries() as u32 + 1
        }
    }
}

/// Whether `chars` are ASCII and, uppercased, what the stored short name
/// `first` shows as.
fn is_lossless<C: OemCpConverter>(chars: &Vec<char>, first: &[u8; 11], page: &C) -> (b: bool)
    ensures
        b == (all_ascii(chars@) && chars@.map_values(|c: char| ascii_upper_char(c))
            == display_chars(*page, first@, 0)),
{
    let shown = display_chars_of(first, 0, page);
    let mut i: usize = 0;
    while i < chars.len()
        invariant
            i <= chars@.len(),
            forall|j: int| 0 <= j < i ==> is_ascii_char(#[trigger] chars@[j]),
        decreases chars@.len() - i,
    {
        if chars[i] as u32 >= 0x80 {
            assert(!is_ascii_char(chars@[i as int]));
            return false;
        }
        i += 1;
    }
    let ghost upper = chars@.map_values(|c: char| ascii_upper_char(c));
    if chars.len() != shown.len() {
        assert(upper.len() != shown@.len());
        return false;
    }
    let mut i: usize = 0;
    while i < chars.len()
        invariant
            chars@.len() == shown@.len(),
            all_ascii(chars@),
            shown@ == display_chars(*page, first@, 0),
            upper == chars@.map_values(|c: char| ascii_upper_char(c)),
            i <= chars@.len(),
            forall|j: int| 0 <= j < i ==> upper[j] == shown@[j],
        decreases chars@.len() - i,
    {
        let c = chars[i];
        let code = c as u32;
        let up = if 0x61 <= code && code <= 0x7A {
            ((code - 0x20) as u8) as char
        } else {
            c
        };
        assert(up == upper[i as int]);
        if up != shown[i] {
            assert(upper[i as int] != shown@[i as int]);
            return false;
        }
        i += 1;
    }
    assert(upper =~= shown@);
    true
}

/// Whether `name` may be one path component: not empty, and without `/`
/// or NUL.
pub open spec fn valid_component(name: Seq<char>) -> bool {
    name.len() > 0 && forall|i: int| 0 <= i < name.len() ==> name[i] != '/' && name[i] != '\0'
}

/// Checks that `name` is one path component: fails with
/// `ErrorKind::InvalidInput` when it is empty or holds `/` or NUL.
pub fn check_name(name: &str) -> (r: Result<(), ErrorKind>)
    ensures
        r is Ok <==> valid_component(name@),
        r is Err ==> r == Err::<(), ErrorKind>(ErrorKind::InvalidInput),
{
    let chars = chars_of(name);
    if chars.len() == 0 {
        return Err(ErrorKind::InvalidInput);
    }
    let mut i: usize = 0;
    while i < chars.len()
        invariant
            chars@ == name@,
            i <= chars@.len(),
            forall|j: int| 0 <= j < i ==> chars@[j] != '/' && chars@[j] != '\0',
        decreases chars@.len() - i,
    {
        if chars[i] == '/' || chars[i] == '\0' {
            return Err(ErrorKind::InvalidInput);
        }
        i += 1;
    }
    Ok(())
}

/// Whether `name` is `.` or `..`.
pub open spec fn is_dot_name(name: Seq<char>) -> bool {
    name == seq!['.'] || name == seq!['.', '.']
}

/// Checks that `name` is one path component and neither `.` nor `..`.
pub fn check_entry_name(name: &str) -> (r: Result<(), ErrorKind>)
    ensures
        r is Ok <==> valid_component(name@) && !is_dot_name(name@),
        r is Err ==> r == Err::<(), ErrorKind>(ErrorKind::InvalidInput),
{
    check_name(name)?;
    let chars = chars_of(name);
    if chars.len() == 1 && chars[0] == '.' {
        assert(chars@ =~= seq!['.']);
        return Err(ErrorKind::InvalidInput);
    }
    if chars.len() == 2 && chars[0] == '.' && chars[1] == '.' {
        assert(chars@ =~= seq!['.', '.']);
        return Err(ErrorKind::InvalidInput);
    }
    assert(!is_dot_name(name@)) by {
        if name@ == seq!['.'] {
            assert(chars@[0] == '.');
        }
        if name@ == seq!['.', '.'] {
            assert(chars@[0] == '.' && chars@[1] == '.');
        }
    }
    Ok(())
}

/// Whether `query` is exactly the name of the entry: its long name, made
/// of the code units `long`, when it has one, else its short name as
/// shown with the code page `page`.
pub open spec fn spec_is_exact<C: OemCpConverter>(
    query: Seq<char>,
    long: Option<Seq<u16>>,
    entry: ShortEntry,
    page: C,
) -> bool {
    match long {
        Some(units) => decode(units) == query,
        None => display_chars(page, entry.name@, entry.nt_case) == query,
    }
}

/// Whether `query` is exactly the name of the entry: its long name, made
/// of the code units `long`, when it has one, else its short name.
pub fn is_exact<C: OemCpConverter>(query: &str, long: Option<&[u16]>, entry: &ShortEntry, page: &C) -> (b: bool)
    ensures
        b == spec_is_exact(
            query@,
            match long {
                Some(units) => Some(units@),
                None => None,
            },
            *entry,
            *page,
        ),
{
    let name = match long {
        Some(units) => crate::name::utf16_chars(units),
        None => display_chars_of(&entry.name, entry.nt_case, page),
    };
    let query_chars = chars_of(query);
    if name.len() != query_chars.len() {
        return false;
    }
    let mut i: usize = 0;
    while i < name.len()
        invariant
            query_chars@ == query@,
            compared_name(name@, long, *entry, *page),
            name@.len() == query_chars@.len(),
            i <= name@.len(),
            forall|j: int| 0 <= j < i ==> name@[j] == query_chars@[j],
        decreases name@.len() - i,
    {
        if name[i] != query_chars[i] {
            assert(name@[i as int] != query_chars@[i as int]);
            return false;
        }
        i += 1;
    }
    assert(name@ =~= query_chars@);
    true
}

/// Whether `name` is the name [`is_exact`] compares a query with.
spec fn compared_name<C: OemCpConverter>(name: Seq<char>, long: Option<&[u16]>, entry: ShortEntry, page: C) -> bool {
    name == match long {
        Some(units) => decode(units@),
        None => display_chars(page, entry.name@, entry.nt_case),
    }
}

/// The permission bits FAT and exFAT derive: `rwxr-xr-x` for directories,
/// `rw-r--r--` for files, and no write bits when the entry is read-only.
pub open spec fn spec_permissions(dir: bool, read_only: bool) -> u32 {
    let mode: u32 = if dir {
        0o755
    } else {
        0o644
    };
    if read_only {
        mode & !0o222u32
    } else {
        mode
    }
}

/// The permission bits of a directory or file, read-only or not.
pub fn permissions(dir: bool, read_only: bool) -> (mode: u32)
    ensures
        mode == spec_permissions(dir, read_only),
{
    let mode: u32 = if dir {
        0o755
    } else {
        0o644
    };
    if read_only {
        mode & !0o222u32
    } else {
        mode
    }
}

/// The read-only bit the permission bits `wanted` stand for, or `None`
/// when the volume cannot give a node of this kind those permissions.
pub open spec fn spec_read_only_bit(dir: bool, wanted: u32) -> Option<bool> {
    let read_only = wanted & 0o222u32 == 0;
    if spec_permissions(dir, read_only) == wanted {
        Some(read_only)
    } else {
        None
    }
}

/// The read-only bit the permission bits `wanted` stand for: `None` when
/// the volume cannot report those permissions for a node of this kind.
pub fn read_only_bit(dir: bool, wanted: u32) -> (r: Option<bool>)
    ensures
        r == spec_read_only_bit(dir, wanted),
{
    let read_only = wanted & 0o222u32 == 0;
    if permissions(dir, read_only) == wanted {
        Some(read_only)
    } else {
        None
    }
}

/// Reading back the permissions of a node gives its read-only bit: the
/// bits [`permissions`] derives are ones [`read_only_bit`] accepts, and
/// they stand for the read-only bit they were derived from.
pub proof fn lemma_permissions_round_trip(dir: bool, read_only: bool)
    ensures
        spec_read_only_bit(dir, spec_permissions(dir, read_only)) == Some(read_only),
{
    assert((0o755u32 & !0o222u32) & 0o222u32 == 0 && (0o644u32 & !0o222u32) & 0o222u32 == 0
        && 0o755u32 & 0o222u32 != 0 && 0o644u32 & 0o222u32 != 0) by (bit_vector);
}

/// The attributes [`attributes`] reads from a short entry, each a flag.
#[derive(Debug, Clone, Copy, PartialEq, Eq)]
pub struct Attributes {
    /// `ATTR_READ_ONLY`.
    pub read_only: bool,
    /// `ATTR_HIDDEN`.
    pub hidden: bool,
    /// `ATTR_SYSTEM`.
    pub system: bool,
    /// `ATTR_ARCHIVE`.
    pub archive: bool,
}

/// `attr` with `bit` set or cleared.
pub open spec fn with_bit(attr: u8, bit: u8, on: bool) -> u8 {
    if on {
        attr | bit
    } else {
        attr & !bit
    }
}

/// Sets or clears the entry's read-only bit.
pub fn set_read_only(entry: &mut ShortEntry, read_only: bool)
    ensures
        *final(entry) == (ShortEntry {
            attr: with_bit(old(entry).attr, ATTR_READ_ONLY, read_only),
            ..*old(entry)
        }),
{
    if read_only {
        entry.attr = entry.attr | ATTR_READ_ONLY;
    } else {
        entry.attr = entry.attr & !ATTR_READ_ONLY;
    }
}

/// The entry's `DIR_Attr` with the read-only, hidden, system and archive
/// bits as `attributes` has them and the other bits kept.
pub open spec fn applied(attr: u8, attributes: Attributes) -> u8 {
    with_bit(
        with_bit(
            with_bit(with_bit(attr, ATTR_READ_ONLY, attributes.read_only), ATTR_HIDDEN, attributes.hidden),
            ATTR_SYSTEM,
            attributes.system,
        ),
        ATTR_ARCHIVE,
        attributes.archive,
    )
}

/// Sets the entry's read-only, hidden, system and archive bits as
/// `attributes` has them.
pub fn apply_attributes(entry: &mut ShortEntry, attributes: Attributes)
    ensures
        *final(entry) == (ShortEntry { attr: applied(old(entry).attr, attributes), ..*old(entry) }),
{
    let mut attr = entry.attr;
    attr = if attributes.read_only {
        attr | ATTR_READ_ONLY
    } else {
        attr & !ATTR_READ_ONLY
    };
    attr = if attributes.hidden {
        attr | ATTR_HIDDEN
    } else {
        attr & !ATTR_HIDDEN
    };
    attr = if attributes.system {
        attr | ATTR_SYSTEM
    } else {
        attr & !ATTR_SYSTEM
    };
    attr = if attributes.archive {
        attr | ATTR_ARCHIVE
    } else {
        attr & !ATTR_ARCHIVE
    };
    entry.attr = attr;
}

/// The read-only, hidden, system and archive bits of `attr`.
pub open spec fn spec_attributes(attr: u8) -> Attributes {
    Attributes {
        read_only: attr & ATTR_READ_ONLY != 0,
        hidden: attr & ATTR_HIDDEN != 0,
        system: attr & ATTR_SYSTEM != 0,
        archive: attr & ATTR_ARCHIVE != 0,
    }
}

/// The attributes of `entry`: its read-only, hidden, system and archive
/// bits.
pub fn attributes(entry: &ShortEntry) -> (a: Attributes)
    ensures
        a == spec_attributes(entry.attr),
{
    Attributes {
        read_only: entry.attr & ATTR_READ_ONLY != 0,
        hidden: entry.attr & ATTR_HIDDEN != 0,
        system: entry.attr & ATTR_SYSTEM != 0,
        archive: entry.attr & ATTR_ARCHIVE != 0,
    }
}

/// What is written is read back: after [`apply_attributes`], the entry's
/// attributes are the ones applied.
pub proof fn lemma_attributes_round_trip(attr: u8, wanted: Attributes)
    ensures
        spec_attributes(applied(attr, wanted)) == wanted,
{
    let r = wanted.read_only;
    let h = wanted.hidden;
    let s = wanted.system;
    let a = wanted.archive;
    let out = applied(attr, wanted);
    assert(out == with_bit(with_bit(with_bit(with_bit(attr, 1, r), 2, h), 4, s), 0x20, a));
    assert({
        let x1: u8 = if r { attr | 1 } else { attr & !1u8 };
        let x2: u8 = if h { x1 | 2 } else { x1 & !2u8 };
        let x3: u8 = if s { x2 | 4 } else { x2 & !4u8 };
        let x4: u8 = if a { x3 | 0x20 } else { x3 & !0x20u8 };
        (x4 & 1 != 0) == r && (x4 & 2 != 0) == h && (x4 & 4 != 0) == s && (x4 & 0x20 != 0) == a
    }) by (bit_vector);
}

} // verus!
