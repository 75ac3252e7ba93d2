//! VFAT long file names: checksums, entry packing and assembly.

use vstd::prelude::*;
use crate::bytes::{get16, lemma_split16};
use crate::utf16::{encode, units_of_char, char_units, lemma_encode_append, lemma_encode_prefix_len};

verus! {

/// Set in the sequence byte of the first LFN entry on disk, which holds the
/// last part of the name.
pub const LAST_ENTRY: u8 = 0x40;
/// Bits of the sequence byte that hold the 1-based entry number.
pub const SEQUENCE_MASK: u8 = 0x3F;
/// UTF-16 code units stored per LFN entry.
pub const UNITS_PER_ENTRY: usize = 13;
/// The longest name in UTF-16 code units.
pub const MAX_UNITS: usize = 255;
/// The most LFN entries one name can use.
pub const MAX_ENTRIES: usize = 20;

/// One step of the checksum: rotate right by one bit, then add `byte`.
pub open spec fn checksum_step(sum: u8, byte: u8) -> u8 {
    (((if sum % 2 == 1 {
        0x80int
    } else {
        0int
    }) + sum as int / 2 + byte as int) % 256) as u8
}

/// The checksum of the bytes of `s`, first to last.
pub open spec fn spec_checksum(s: Seq<u8>) -> u8
    decreases s.len(),
{
    if s.len() == 0 {
        0
    } else {
        checksum_step(spec_checksum(s.drop_last()), s.last())
    }
}

/// The checksum of an 11-byte short name that ties LFN entries to it.
pub fn checksum(short: &[u8; 11]) -> (sum: u8)
    ensures
        sum == spec_checksum(short@),
{
    let mut sum: u8 = 0;
    let mut i: usize = 0;
    while i < 11
        invariant
            0 <= i <= 11,
            sum == spec_checksum(short@.take(i as int)),
        decreases 11 - i,
    {
        assert(short@.take(i + 1).drop_last() =~= short@.take(i as int));
        let rotated: u8 = if sum % 2 == 1 {
            0x80 + sum / 2
        } else {
            sum / 2
        };
        sum = ((rotated as u16 + short[i] as u16) % 256) as u8;
        i += 1;
    }
    assert(short@.take(11) =~= short@);
    sum
}

/// The 26 name bytes of an LFN entry in the order they hold code units.
pub open spec fn name_bytes(name1: [u8; 10], name2: [u8; 12], name3: [u8; 4]) -> Seq<u8> {
    name1@ + name2@ + name3@
}

/// The 13 code units of the name bytes `b`.
pub open spec fn units_of(b: Seq<u8>) -> Seq<u16> {
    Seq::new(13, |i: int| get16(b, 2 * i))
}

/// Whether `u` ends the name in an LFN entry: the terminator or filler.
pub open spec fn is_end(u: u16) -> bool {
    u == 0x0000 || u == 0xFFFF
}

/// The code units of `u` before its first terminator or filler.
pub open spec fn fragment(u: Seq<u16>) -> Seq<u16>
    decreases u.len(),
{
    if u.len() == 0 || is_end(u[0]) {
        Seq::empty()
    } else {
        seq![u[0]] + fragment(u.skip(1))
    }
}

/// The byte at `at` of the 26 name bytes.
fn name_byte(name1: &[u8; 10], name2: &[u8; 12], name3: &[u8; 4], at: usize) -> (b: u8)
    requires
        at < 26,
    ensures
        b == name_bytes(*name1, *name2, *name3)[at as int],
{
    if at < 10 {
        name1[at]
    } else if at < 22 {
        name2[at - 10]
    } else {
        name3[at - 22]
    }
}

/// The code units of one LFN entry and how many of them precede the
/// `0x0000` terminator or `0xFFFF` filler.
pub fn unpack(name1: &[u8; 10], name2: &[u8; 12], name3: &[u8; 4]) -> (r: ([u16; 13], usize))
    ensures
        r.0@ == units_of(name_bytes(*name1, *name2, *name3)),
        r.1 <= 13,
        r.0@.take(r.1 as int) == fragment(r.0@),
        forall|j: int| 0 <= j < r.1 ==> !is_end(#[trigger] r.0@[j]),
        r.1 < 13 ==> is_end(r.0@[r.1 as int]),
{
    let ghost b = name_bytes(*name1, *name2, *name3);
    let mut units = [0u16; 13];
    let mut i: usize = 0;
    while i < 13
        invariant
            0 <= i <= 13,
            units@.len() == 13,
            b == name_bytes(*name1, *name2, *name3),
            forall|j: int| 0 <= j < i ==> units@[j] == get16(b, 2 * j),
        decreases 13 - i,
    {
        let lo = name_byte(name1, name2, name3, 2 * i);
        let hi = name_byte(name1, name2, name3, 2 * i + 1);
        units[i] = (lo as u16 | ((hi as u16) << 8u16)) as u16;
        i += 1;
    }
    assert(units@ =~= units_of(b));
    let mut len: usize = 0;
    while len < 13 && units[len] != 0x0000 && units[len] != 0xFFFF
        invariant
            0 <= len <= 13,
            units@.len() == 13,
            forall|j: int| 0 <= j < len ==> !is_end(#[trigger] units@[j]),
        decreases 13 - len,
    {
        len += 1;
    }
    proof {
        lemma_fragment_prefix(units@, len as int);
    }
    (units, len)
}

/// The fragment of `u` is its prefix before the first end unit.
pub proof fn lemma_fragment_prefix(u: Seq<u16>, len: int)
    requires
        0 <= len <= u.len(),
        forall|j: int| 0 <= j < len ==> !is_end(#[trigger] u[j]),
        len < u.len() ==> is_end(u[len]),
    ensures
        u.take(len) == fragment(u),
    decreases len,
{
    if len == 0 {
        assert(u.take(0) =~= Seq::<u16>::empty());
    } else {
        assert(!is_end(u[0]));
        let t = u.skip(1);
        assert forall|j: int| 0 <= j < len - 1 implies !is_end(#[trigger] t[j]) by {
            assert(t[j] == u[j + 1]);
        }
        lemma_fragment_prefix(t, len - 1);
        assert(u.take(len) =~= seq![u[0]] + t.take(len - 1));
    }
}

/// The name bytes that hold `units`, low byte first.
pub open spec fn packed(units: Seq<u16>) -> Seq<u8> {
    Seq::new(26, |j: int| if j % 2 == 0 {
        (units[j / 2] & 0xFF) as u8
    } else {
        (units[j / 2] >> 8u16) as u8
    })
}

/// Splits 13 code units into the three name fields of an LFN entry.
pub fn pack(units: &[u16; 13]) -> (r: ([u8; 10], [u8; 12], [u8; 4]))
    ensures
        name_bytes(r.0, r.1, r.2) == packed(units@),
{
    let mut all = [0u8; 26];
    let mut i: usize = 0;
    while i < 13
        invariant
            0 <= i <= 13,
            all@.len() == 26,
            forall|j: int| 0 <= j < 2 * i ==> all@[j] == packed(units@)[j],
        decreases 13 - i,
    {
        let unit = units[i];
        all[2 * i] = (unit & 0xFF) as u8;
        all[2 * i + 1] = (unit >> 8u16) as u8;
        i += 1;
    }
    let s: &[u8] = &all;
    let name1: [u8; 10] = crate::raw::sub_array(s, 0);
    let name2: [u8; 12] = crate::raw::sub_array(s, 10);
    let name3: [u8; 4] = crate::raw::sub_array(s, 22);
    assert(name_bytes(name1, name2, name3) =~= packed(units@));
    (name1, name2, name3)
}

/// Unpacking what [`pack`] made gives back the code units.
pub proof fn lemma_unpack_pack(units: Seq<u16>)
    requires
        units.len() == 13,
    ensures
        units_of(packed(units)) == units,
{
    assert forall|i: int| 0 <= i < 13 implies #[trigger] units_of(packed(units))[i] == units[i] by {
        lemma_split16(units[i]);
        assert((2 * i) / 2 == i);
        assert((2 * i + 1) / 2 == i);
    }
    assert(units_of(packed(units)) =~= units);
}

/// `a / b` rounded up.
pub open spec fn ceil_div(a: int, b: int) -> int {
    (a + b - 1) / b
}

/// The LFN entries a name of `len` code units takes.
pub open spec fn entries_for(len: int) -> int {
    ceil_div(len, 13)
}

/// The code units the entries of `name` hold: the name, then a `0x0000`
/// terminator and `0xFFFF` filler when it does not fill its last entry.
pub open spec fn padded(name: Seq<u16>) -> Seq<u16> {
    let cap = entries_for(name.len() as int) * 13;
    Seq::new(
        cap as nat,
        |i: int| if i < name.len() {
            name[i]
        } else if i == name.len() {
            0u16
        } else {
            0xFFFFu16
        },
    )
}

/// The sequence byte of the entry at `index` in disk order, of a name in
/// `entries` entries.
pub open spec fn sequence_at(entries: int, index: int) -> u8 {
    if index == 0 {
        (entries + 0x40) as u8
    } else {
        (entries - index) as u8
    }
}

/// The code units of the entry at `index` in disk order.
pub open spec fn units_at(name: Seq<u16>, index: int) -> Seq<u16> {
    let number = entries_for(name.len() as int) - index;
    padded(name).subrange((number - 1) * 13, number * 13)
}

/// A name encoded as the LFN entries that store it.
pub struct Encoded {
    /// The code units of the entries, in name order.
    units: [u16; 260],
    /// Number of LFN entries.
    entries: usize,
    /// The name's code units.
    name: Ghost<Seq<u16>>,
}

impl Encoded {
    /// The code units of the name the entries hold.
    pub closed spec fn spec_name(&self) -> Seq<u16> {
        self.name@
    }

    /// The number of entries.
    pub closed spec fn spec_entries(&self) -> usize {
        self.entries
    }

    /// Whether the entries hold the name.
    pub closed spec fn wf(&self) -> bool {
        &&& 1 <= self.name@.len() <= MAX_UNITS
        &&& self.entries == entries_for(self.name@.len() as int)
        &&& self.units@.take(self.entries * 13) == padded(self.name@)
    }

    /// Encodes `name` as UTF-16, followed by a `0x0000` terminator and
    /// `0xFFFF` filler when it does not fill its last entry. `None` when the
    /// name is empty or longer than [`MAX_UNITS`].
    pub fn new(name: &str) -> (r: Option<Self>)
        ensures
            r is Some <==> 1 <= encode(name@).len() <= MAX_UNITS,
            r matches Some(e) ==> e.wf() && e.spec_name() == encode(name@) && e.spec_entries()
                == entries_for(encode(name@).len() as int),
    {
        let mut units = [0u16; 260];
        let mut len: usize = 0;
        let ghost mut seen: Seq<char> = Seq::empty();
        for ch in it: name.chars()
            invariant
                units@.len() == 260,
                it.seq() == name@,
                seen == name@.take(it.index() as int),
                len == encode(seen).len(),
                len <= MAX_UNITS,
                units@.take(len as int) == encode(seen),
        {
            proof {
                assert(name@.take(it.index() + 1) =~= seen.push(ch));
                assert(seen.push(ch).drop_last() =~= seen);
                assert(encode(seen.push(ch)) == encode(seen) + char_units(ch));
            }
            let (first, second, count) = units_of_char(ch);
            let ghost old_units = units@;
            if len >= MAX_UNITS {
                proof { lemma_too_long(name@, it.index() as int); }
                return None;
            }
            units[len] = first;
            len += 1;
            if count == 2 {
                if len >= MAX_UNITS {
                    proof { lemma_too_long(name@, it.index() as int); }
                    return None;
                }
                units[len] = second;
                len += 1;
            }
            proof {
                seen = seen.push(ch);
                assert(units@.take(len as int) =~= old_units.take(len - count as int) + char_units(ch));
            }
        }
        assert(seen =~= name@);
        let entries = (len + 12) / 13;
        if entries == 0 {
            return None;
        }
        let capacity = entries * 13;
        let ghost body = units@.take(len as int);
        if len < capacity {
            units[len] = 0x0000;
            let mut i = len + 1;
            while i < capacity
                invariant
                    len < capacity <= 260,
                    len + 1 <= i <= capacity,
                    units@.len() == 260,
                    units@.take(len as int) == body,
                    units@[len as int] == 0,
                    forall|j: int| len < j < i ==> units@[j] == 0xFFFF,
                decreases capacity - i,
            {
                units[i] = 0xFFFF;
                i += 1;
            }
        }
        let e = Encoded { units, entries, name: Ghost(body) };
        assert(e.units@.take(e.entries * 13) =~= padded(body));
        Some(e)
    }

    /// Number of LFN entries.
    pub fn entries(&self) -> (n: usize)
        ensures
            n == self.spec_entries(),
            self.wf() ==> 1 <= n <= MAX_ENTRIES,
    {
        self.entries
    }

    /// The sequence byte and code units of the entry at `index` in disk
    /// order: index 0 comes first and carries [`LAST_ENTRY`].
    pub fn entry(&self, index: usize) -> (r: (u8, [u16; 13]))
        requires
            self.wf(),
            index < self.spec_entries(),
        ensures
            r.0 == sequence_at(self.spec_entries() as int, index as int),
            r.1@ == units_at(self.spec_name(), index as int),
    {
        let number = self.entries - index;
        proof {
            lemma_last_flag(number as u8);
        }
        let sequence = if index == 0 {
            number as u8 | LAST_ENTRY
        } else {
            number as u8
        };
        let start = (number - 1) * 13;
        let mut units = [0u16; 13];
        let mut i: usize = 0;
        while i < 13
            invariant
                0 <= i <= 13,
                units@.len() == 13,
                start + 13 <= self.entries * 13,
                self.entries * 13 <= 260,
                forall|j: int| 0 <= j < i ==> units@[j] == self.units@[start + j],
            decreases 13 - i,
        {
            units[i] = self.units[start + i];
            i += 1;
        }
        assert(units@ =~= units_at(self.name@, index as int)) by {
            assert(self.units@.take(self.entries * 13) == padded(self.name@));
            assert forall|j: int| 0 <= j < 13 implies units@[j] == units_at(self.name@, index as int)[j] by {
                assert(self.units@.take(self.entries * 13)[start + j] == self.units@[start + j]);
            }
        }
        (sequence, units)
    }
}

/// A name is too long once a prefix of it is.
proof fn lemma_too_long(name: Seq<char>, index: int)
    requires
        0 <= index < name.len(),
        encode(name.take(index)).len() + char_units(name[index]).len() > MAX_UNITS,
    ensures
        encode(name).len() > MAX_UNITS,
{
    lemma_encode_prefix_len(name, index + 1);
    assert(name.take(index + 1).drop_last() =~= name.take(index));
    assert(encode(name.take(index + 1)) == encode(name.take(index)) + char_units(name[index]));
}

/// The sequence-byte bits of entry numbers up to [`MAX_ENTRIES`].
pub proof fn lemma_last_flag(n: u8)
    ensures
        n <= 20 ==> (n | 0x40) == n + 0x40 && (n | 0x40) & 0x40 != 0 && (n | 0x40) & 0x3F == n
            && n & 0x40 == 0 && n & 0x3F == n,
{
    assert(n <= 20 ==> (n | 0x40) == n + 0x40 && (n | 0x40) & 0x40 != 0 && (n | 0x40) & 0x3F == n
        && n & 0x40 == 0 && n & 0x3F == n) by (bit_vector);
}


/// What an [`Assembler`] holds: the name collected so far, the checksum its
/// entries carry, the number the next entry must have, and whether a name
/// is being collected.
pub struct AssemblerView {
    /// Code units collected so far, the last entry's first.
    pub name: Seq<u16>,
    /// The checksum of the run.
    pub checksum: u8,
    /// The number the next entry must carry; 0 once complete.
    pub expected: u8,
    /// Whether a run is being collected.
    pub building: bool,
}

/// An assembler holding nothing.
pub open spec fn idle() -> AssemblerView {
    AssemblerView { name: Seq::empty(), checksum: 0, expected: 0, building: false }
}

/// The assembler after it is fed an entry with `sequence`, `checksum` and
/// the code units `units` before their terminator.
pub open spec fn fed(v: AssemblerView, sequence: u8, checksum: u8, units: Seq<u16>) -> AssemblerView {
    let starts = sequence & LAST_ENTRY != 0;
    let count = sequence & SEQUENCE_MASK;
    if starts && (count == 0 || count > MAX_ENTRIES) {
        idle()
    } else {
        let v1 = if starts {
            AssemblerView { name: Seq::empty(), checksum, expected: count, building: true }
        } else {
            v
        };
        let number = sequence & SEQUENCE_MASK;
        if !v1.building {
            v1
        } else if number == 0 || number != v1.expected || checksum != v1.checksum {
            idle()
        } else if v1.name.len() + units.len() > MAX_UNITS {
            idle()
        } else {
            AssemblerView {
                name: units + v1.name,
                checksum: v1.checksum,
                expected: (v1.expected - 1) as u8,
                building: true,
            }
        }
    }
}

/// What the assembler gives for a short entry whose name has checksum
/// `short`: the name when the run is complete and matches it.
pub open spec fn finished(v: AssemblerView, short: u8) -> Option<Seq<u16>> {
    if v.building && v.expected == 0 && v.checksum == short {
        Some(v.name)
    } else {
        None
    }
}

/// Collects LFN entries read in disk order into a name.
///
/// A sequence that skips a number, changes checksum, has more than
/// [`MAX_ENTRIES`] entries or [`MAX_UNITS`] code units, or does not match
/// the short entry that follows it yields no name.
pub struct Assembler {
    /// The collected code units, in name order, in `units[..len]`.
    units: [u16; 255],
    /// How many code units are collected.
    len: usize,
    /// The checksum of the run.
    checksum: u8,
    /// The number the next entry must carry.
    expected: u8,
    /// Whether a run is being collected.
    building: bool,
}

impl Assembler {
    /// Whether the fields are consistent.
    pub closed spec fn wf(&self) -> bool {
        &&& self.len <= MAX_UNITS
        &&& self.expected <= MAX_ENTRIES
        &&& !self.building ==> self.len == 0 && self.expected == 0 && self.checksum == 0
    }

    /// The state the assembler holds.
    pub closed spec fn view(&self) -> AssemblerView {
        AssemblerView {
            name: self.units@.take(self.len as int),
            checksum: self.checksum,
            expected: self.expected,
            building: self.building,
        }
    }

    /// An assembler holding nothing.
    pub fn new() -> (a: Self)
        ensures
            a.wf(),
            a.view() == idle(),
    {
        let a = Assembler { units: [0; 255], len: 0, checksum: 0, expected: 0, building: false };
        assert(a.view().name =~= Seq::<u16>::empty());
        a
    }

    /// Drops any partial name, for example after a deleted or foreign entry.
    pub fn reset(&mut self)
        ensures
            final(self).wf(),
            final(self).view() == idle(),
    {
        self.len = 0;
        self.checksum = 0;
        self.expected = 0;
        self.building = false;
        assert(self.view().name =~= Seq::<u16>::empty());
    }

    /// Feeds one LFN entry. An entry with [`LAST_ENTRY`] starts a new name.
    pub fn push(
        &mut self,
        sequence: u8,
        checksum: u8,
        name1: &[u8; 10],
        name2: &[u8; 12],
        name3: &[u8; 4],
    )
        requires
            old(self).wf(),
        ensures
            final(self).wf(),
            final(self).view() == fed(
                old(self).view(),
                sequence,
                checksum,
                fragment(units_of(name_bytes(*name1, *name2, *name3))),
            ),
    {
        if sequence & LAST_ENTRY != 0 {
            self.reset();
            let count = sequence & SEQUENCE_MASK;
            if count == 0 || count as usize > MAX_ENTRIES {
                return;
            }
            self.building = true;
            self.checksum = checksum;
            self.expected = count;
        }
        if !self.building {
            return;
        }
        let number = sequence & SEQUENCE_MASK;
        if number == 0 || number != self.expected || checksum != self.checksum {
            self.reset();
            return;
        }
        let (units, len) = unpack(name1, name2, name3);
        if self.len + len > MAX_UNITS {
            self.reset();
            return;
        }
        let ghost before = self.units@.take(self.len as int);
        // Move the collected units up by `len`, from the end, then put the
        // new ones in front.
        let mut buf = self.units;
        let old_len = self.len;
        let mut i = old_len;
        while i > 0
            invariant
                0 <= i <= old_len,
                old_len + len <= MAX_UNITS,
                buf@.len() == 255,
                forall|j: int| 0 <= j < i ==> buf@[j] == before[j],
                forall|j: int| i <= j < old_len ==> buf@[j + len] == before[j],
                before.len() == old_len,
            decreases i,
        {
            i -= 1;
            let u = buf[i];
            buf[i + len] = u;
        }
        let mut k: usize = 0;
        while k < len
            invariant
                0 <= k <= len <= 13,
                old_len + len <= MAX_UNITS,
                buf@.len() == 255,
                forall|j: int| 0 <= j < k ==> buf@[j] == units@[j],
                forall|j: int| 0 <= j < old_len ==> buf@[j + len] == before[j],
                before.len() == old_len,
            decreases len - k,
        {
            buf[k] = units[k];
            k += 1;
        }
        self.units = buf;
        self.len = old_len + len;
        self.expected = self.expected - 1;
        assert(self.units@.take(self.len as int) =~= units@.take(len as int) + before);
        assert(units@.take(len as int) == fragment(units@));
    }

    /// Ends the name at a short entry whose name has checksum `short`, and
    /// returns its code units if the sequence was complete and matches.
    pub fn finish(&mut self, short: u8) -> (r: Option<&[u16]>)
        requires
            old(self).wf(),
        ensures
            final(self).wf(),
            final(self).view() == idle(),
            match finished(old(self).view(), short) {
                Some(name) => r matches Some(s) && s@ == name,
                None => r is None,
            },
    {
        let complete = self.building && self.expected == 0 && self.checksum == short;
        let len = self.len;
        self.len = 0;
        self.checksum = 0;
        self.expected = 0;
        self.building = false;
        assert(self.view().name =~= Seq::<u16>::empty());
        if complete {
            Some(&self.units[0..len])
        } else {
            None
        }
    }
}

impl Default for Assembler {
    fn default() -> (a: Self)
        ensures
            a.wf(),
            a.view() == idle(),
    {
        Self::new()
    }
}


/// The assembler after it is fed the first `k` entries of `name`, in disk
/// order, all with checksum `checksum`.
pub open spec fn fed_entries(v: AssemblerView, name: Seq<u16>, checksum: u8, k: int) -> AssemblerView
    decreases k,
{
    if k <= 0 {
        v
    } else {
        let entries = entries_for(name.len() as int);
        fed(
            fed_entries(v, name, checksum, k - 1),
            sequence_at(entries, k - 1),
            checksum,
            fragment(units_at(name, k - 1)),
        )
    }
}

proof fn lemma_entries_bounds(len: int)
    requires
        1 <= len <= MAX_UNITS,
    ensures
        1 <= entries_for(len) <= MAX_ENTRIES,
        (entries_for(len) - 1) * 13 < len <= entries_for(len) * 13,
{
    let e = entries_for(len);
    assert(e == (len + 12) / 13);
    assert(1 <= e <= 20);
    assert((e - 1) * 13 < len <= e * 13) by (nonlinear_arith)
        requires
            e == (len + 12) / 13,
            len >= 1,
    ;
}

/// The name held by the entries of `name` from entry `k` of disk order to
/// the end, once the first `k` are fed.
proof fn lemma_fed_entries(v: AssemblerView, name: Seq<u16>, checksum: u8, k: int)
    requires
        1 <= name.len() <= MAX_UNITS,
        forall|i: int| 0 <= i < name.len() ==> !is_end(#[trigger] name[i]),
        1 <= k <= entries_for(name.len() as int),
    ensures
        fed_entries(v, name, checksum, k) == (AssemblerView {
            name: name.subrange((entries_for(name.len() as int) - k) * 13, name.len() as int),
            checksum,
            expected: (entries_for(name.len() as int) - k) as u8,
            building: true,
        }),
    decreases k,
{
    let len = name.len() as int;
    let e = entries_for(len);
    lemma_entries_bounds(len);
    let number = e - (k - 1);
    let chunk = units_at(name, k - 1);
    let p = padded(name);
    assert(chunk == p.subrange((number - 1) * 13, number * 13));
    if k == 1 {
        // The entry holding the end of the name, with its terminator.
        let n = len - (e - 1) * 13;
        assert forall|j: int| 0 <= j < n implies !is_end(#[trigger] chunk[j]) by {
            assert(chunk[j] == p[(e - 1) * 13 + j]);
            assert(p[(e - 1) * 13 + j] == name[(e - 1) * 13 + j]);
        }
        if n < 13 {
            assert(chunk[n] == p[len]);
        }
        lemma_fragment_prefix(chunk, n);
        assert(chunk.take(n) =~= name.subrange((e - 1) * 13, len));
        lemma_last_flag(e as u8);
        let v0 = fed_entries(v, name, checksum, 0);
        assert(sequence_at(e, 0) == (e + 0x40) as u8);
        let start = AssemblerView { name: Seq::empty(), checksum, expected: e as u8, building: true };
        assert(start.name + chunk.take(n) =~= chunk.take(n));
    } else {
        lemma_fed_entries(v, name, checksum, k - 1);
        // A whole entry of the name's interior.
        assert(number * 13 <= (e - 1) * 13) by (nonlinear_arith)
            requires
                number <= e - 1,
        ;
        assert forall|j: int| 0 <= j < 13 implies !is_end(#[trigger] chunk[j]) by {
            assert(chunk[j] == p[(number - 1) * 13 + j]);
            assert((number - 1) * 13 + j < len);
            assert(p[(number - 1) * 13 + j] == name[(number - 1) * 13 + j]);
        }
        lemma_fragment_prefix(chunk, 13);
        assert(chunk.take(13) =~= chunk);
        lemma_last_flag(number as u8);
        assert(sequence_at(e, k - 1) == number as u8);
        let before = name.subrange((e - (k - 1)) * 13, len);
        assert(chunk + before =~= name.subrange((e - k) * 13, len));
    }
}

/// Feeding an assembler the entries [`Encoded`] makes of a name, all with
/// the checksum of the short entry that follows them, gives back the name,
/// whatever the assembler held before; finishing leaves it idle, so a
/// second finish gives nothing. Names holding the code unit `0x0000` or
/// `0xFFFF` are left out: an entry ends its part of the name there.
pub proof fn lemma_assemble_round_trip(v: AssemblerView, name: Seq<u16>, checksum: u8)
    requires
        1 <= name.len() <= MAX_UNITS,
        forall|i: int| 0 <= i < name.len() ==> !is_end(#[trigger] name[i]),
    ensures
        finished(fed_entries(v, name, checksum, entries_for(name.len() as int)), checksum) == Some(
            name,
        ),
        finished(idle(), checksum) is None,
{
    let e = entries_for(name.len() as int);
    lemma_entries_bounds(name.len() as int);
    lemma_fed_entries(v, name, checksum, e);
    assert(name.subrange(0, name.len() as int) =~= name);
}

/// Packing an entry's code units and reading them back, as an assembler
/// does, keeps the part before the terminator.
pub proof fn lemma_fragment_of_packed(units: Seq<u16>)
    requires
        units.len() == 13,
    ensures
        fragment(units_of(packed(units))) == fragment(units),
{
    lemma_unpack_pack(units);
}

} // verus!
