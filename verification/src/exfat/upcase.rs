//! What a volume's up-case table tells its reader: the table's checksum,
//! which 256-code pages map every code unit to itself, and page 0.

use vstd::prelude::*;

verus! {

/// What the exFAT specification requires of the first 128 entries of every
/// up-case table: `a` to `z` map to `A` to `Z`, every other code to itself.
pub open spec fn spec_mandatory_upcase(code: u16) -> u16 {
    if 0x61 <= code <= 0x7A {
        (code - 0x20) as u16
    } else {
        code
    }
}

/// The up-case of `code` that every table must give below 128.
pub fn mandatory_upcase(code: u16) -> (upper: u16)
    ensures
        upper == spec_mandatory_upcase(code),
{
    if 0x61 <= code && code <= 0x7A {
        code - 0x20
    } else {
        code
    }
}

/// One step of the up-case table checksum: rotate right by one, add the
/// byte.
pub open spec fn table_step(sum: u32, byte: u8) -> u32 {
    ((sum / 2 + (sum % 2) * 0x8000_0000 + byte) % 0x1_0000_0000) as u32
}

/// `sum` carried over `bytes`.
pub open spec fn spec_table_checksum(sum: u32, bytes: Seq<u8>) -> u32
    decreases bytes.len(),
{
    if bytes.len() == 0 {
        sum
    } else {
        table_step(spec_table_checksum(sum, bytes.drop_last()), bytes.last())
    }
}

/// Carries the up-case table checksum `sum` over `bytes`.
pub fn table_checksum(sum: u32, bytes: &[u8]) -> (r: u32)
    ensures
        r == spec_table_checksum(sum, bytes@),
{
    let mut r = sum;
    let mut i: usize = 0;
    while i < bytes.len()
        invariant
            i <= bytes@.len(),
            r == spec_table_checksum(sum, bytes@.take(i as int)),
        decreases bytes@.len() - i,
    {
        assert(bytes@.take(i + 1).drop_last() =~= bytes@.take(i as int));
        let rotated = (r >> 1u32) | ((r & 1) << 31u32);
        assert(rotated == r / 2 + (r % 2) * 0x8000_0000) by (bit_vector)
            requires
                rotated == (r >> 1u32) | ((r & 1) << 31u32),
        ;
        r = rotated.wrapping_add(bytes[i] as u32);
        i += 1;
    }
    assert(bytes@.take(i as int) =~= bytes@);
    r
}

/// The up-case table as the reader keeps it.
pub struct Upcase {
    checksum: u32,
    stored_checksum: u32,
    identity: [u8; 32],
    page0: [u16; 256],
}

/// Whether bit `k` of `byte` is set.
pub open spec fn bit_set(byte: u8, k: u8) -> bool {
    byte & (1u8 << k) != 0
}

/// Clearing bit `k` of a byte clears that bit and keeps the others.
proof fn lemma_clear_bit(byte: u8, k: u8, j: u8)
    requires
        k < 8,
        j < 8,
    ensures
        bit_set(byte & !(1u8 << k), j) == (j != k && bit_set(byte, j)),
{
    assert((byte & !(1u8 << k)) & (1u8 << j) != 0 <==> (j != k && byte & (1u8 << j) != 0))
        by (bit_vector)
        requires
            k < 8,
            j < 8,
    ;
}

impl Upcase {
    /// The checksum of the table's bytes read so far.
    pub closed spec fn spec_checksum(&self) -> u32 {
        self.checksum
    }

    /// The checksum the Up-case Table entry records.
    pub closed spec fn spec_stored_checksum(&self) -> u32 {
        self.stored_checksum
    }

    /// Whether page `page` maps every code unit to itself.
    pub closed spec fn spec_identity(&self, page: int) -> bool {
        bit_set(self.identity@[page / 8], (page % 8) as u8)
    }

    /// Page 0: the up-case of code units 0 to 255.
    pub closed spec fn spec_page0(&self) -> Seq<u16> {
        self.page0@
    }

    /// An empty table: no checksum, every page its own up-case, page 0 all
    /// zero.
    pub fn new() -> (u: Self)
        ensures
            u.spec_checksum() == 0 && u.spec_stored_checksum() == 0,
            forall|page: int| 0 <= page < 256 ==> u.spec_identity(page),
            u.spec_page0() == Seq::new(256, |i: int| 0u16),
    {
        let u = Upcase { checksum: 0, stored_checksum: 0, identity: [0xFF; 32], page0: [0; 256] };
        assert forall|page: int| 0 <= page < 256 implies u.spec_identity(page) by {
            let k = (page % 8) as u8;
            assert(0xFFu8 & (1u8 << k) != 0) by (bit_vector)
                requires
                    k < 8,
            ;
        }
        assert(u.spec_page0() =~= Seq::new(256, |i: int| 0u16));
        u
    }

    /// Whether page `page` maps every code unit to itself.
    pub fn is_identity(&self, page: usize) -> (b: bool)
        requires
            page < 256,
        ensures
            b == self.spec_identity(page as int),
    {
        self.identity[page / 8] & (1u8 << (page % 8) as u8) != 0
    }

    /// Starts reading a table whose entry records `stored_checksum`: page 0
    /// maps every code unit to itself until the table says otherwise.
    pub fn begin(&mut self, stored_checksum: u32)
        ensures
            final(self).spec_stored_checksum() == stored_checksum,
            final(self).spec_checksum() == old(self).spec_checksum(),
            forall|page: int| 0 <= page < 256 ==> final(self).spec_identity(page) == old(self).spec_identity(page),
            final(self).spec_page0() == Seq::new(256, |i: int| i as u16),
    {
        self.stored_checksum = stored_checksum;
        let mut code: usize = 0;
        while code < 256
            invariant
                code <= 256,
                self.stored_checksum == stored_checksum,
                self.checksum == old(self).spec_checksum(),
                self.identity == old(self).identity,
                forall|i: int| 0 <= i < code ==> self.page0@[i] == i as u16,
            decreases 256 - code,
        {
            self.page0[code] = code as u16;
            code += 1;
        }
        assert(self.spec_page0() =~= Seq::new(256, |i: int| i as u16));
    }

    /// Carries the checksum over `bytes` of the table.
    pub fn add_bytes(&mut self, bytes: &[u8])
        ensures
            final(self).spec_checksum() == spec_table_checksum(old(self).spec_checksum(), bytes@),
            final(self).spec_stored_checksum() == old(self).spec_stored_checksum(),
            forall|page: int| 0 <= page < 256 ==> final(self).spec_identity(page) == old(self).spec_identity(page),
            final(self).spec_page0() == old(self).spec_page0(),
    {
        self.checksum = table_checksum(self.checksum, bytes);
    }

    /// Takes in that the table maps `code` to `upper`: its page no longer
    /// counts as its own up-case unless `upper` is `code`, and page 0 keeps
    /// the mapping.
    pub fn record(&mut self, code: u16, upper: u16)
        ensures
            final(self).spec_checksum() == old(self).spec_checksum(),
            final(self).spec_stored_checksum() == old(self).spec_stored_checksum(),
            forall|page: int|
                0 <= page < 256 ==> final(self).spec_identity(page) == (old(self).spec_identity(page)
                    && (page != code / 256 || upper == code)),
            final(self).spec_page0() == (if code < 256 {
                old(self).spec_page0().update(code as int, upper)
            } else {
                old(self).spec_page0()
            }),
    {
        let page = (code / 256) as usize;
        if upper != code {
            let ghost before = self.identity;
            let k = (page % 8) as u8;
            self.identity[page / 8] = self.identity[page / 8] & !(1u8 << k);
            assert forall|p: int| 0 <= p < 256 implies self.spec_identity(p) == (
            old(self).spec_identity(p) && p != page) by {
                lemma_clear_bit(before@[page as int / 8], k, (p % 8) as u8);
            }
        }
        if page == 0 {
            self.page0[code as usize] = upper;
        }
    }

    /// Ends reading: page 0 is never taken as its own up-case, since
    /// `a` to `z` are not.
    pub fn seal(&mut self)
        ensures
            final(self).spec_checksum() == old(self).spec_checksum(),
            final(self).spec_stored_checksum() == old(self).spec_stored_checksum(),
            forall|page: int|
                0 <= page < 256 ==> final(self).spec_identity(page) == (old(self).spec_identity(page)
                    && page != 0),
            final(self).spec_page0() == old(self).spec_page0(),
    {
        let ghost before = self.identity;
        self.identity[0] = self.identity[0] & !1u8;
        assert forall|p: int| 0 <= p < 256 implies self.spec_identity(p) == (old(self).spec_identity(p)
            && p != 0) by {
            assert(1u8 << 0u8 == 1u8) by (bit_vector);
            lemma_clear_bit(before@[0], 0, (p % 8) as u8);
        }
    }

    /// Whether the table matches its checksum and maps the first 128 code
    /// units as the specification requires.
    pub fn is_valid(&self) -> (b: bool)
        ensures
            b == (self.spec_checksum() == self.spec_stored_checksum() && forall|code: int|
                0 <= code < 128 ==> #[trigger] self.spec_page0()[code] == spec_mandatory_upcase(
                    code as u16,
                )),
    {
        if self.checksum != self.stored_checksum {
            return false;
        }
        let mut code: u16 = 0;
        while code < 128
            invariant
                code <= 128,
                forall|c: int| 0 <= c < code ==> #[trigger] self.page0@[c] == spec_mandatory_upcase(
                    c as u16,
                ),
            decreases 128 - code,
        {
            if self.page0[code as usize] != mandatory_upcase(code) {
                assert(self.spec_page0()[code as int] != spec_mandatory_upcase(code));
                return false;
            }
            code += 1;
        }
        true
    }
}

} // verus!
