//! UTF-16: how a character becomes code units and code units become
//! characters again.

use vstd::prelude::*;

verus! {

/// The code units of `c`: one below U+10000, else a surrogate pair.
pub open spec fn char_units(c: char) -> Seq<u16> {
    let v = c as u32;
    if v < 0x1_0000 {
        seq![v as u16]
    } else {
        let w = (v - 0x1_0000) as u32;
        seq![(0xD800 + (w >> 10u32)) as u16, (0xDC00 + (w & 0x3FF)) as u16]
    }
}

/// The UTF-16 encoding of `s`.
pub open spec fn encode(s: Seq<char>) -> Seq<u16>
    decreases s.len(),
{
    if s.len() == 0 {
        Seq::empty()
    } else {
        encode(s.drop_last()) + char_units(s.last())
    }
}

/// Whether `u` is a leading (high) surrogate.
pub open spec fn is_high(u: u16) -> bool {
    0xD800 <= u < 0xDC00
}

/// Whether `u` is a trailing (low) surrogate.
pub open spec fn is_low(u: u16) -> bool {
    0xDC00 <= u < 0xE000
}

/// The character of a surrogate pair.
pub open spec fn pair_value(hi: u16, lo: u16) -> u32 {
    (0x1_0000 + ((hi - 0xD800) as u32) * 0x400 + (lo - 0xDC00) as u32) as u32
}

/// The characters of `u`, with an unpaired surrogate read as U+FFFD.
pub open spec fn decode(u: Seq<u16>) -> Seq<char>
    decreases u.len(),
{
    if u.len() == 0 {
        Seq::empty()
    } else if u.len() >= 2 && is_high(u[0]) && is_low(u[1]) {
        seq![pair_value(u[0], u[1]) as char] + decode(u.skip(2))
    } else if is_high(u[0]) || is_low(u[0]) {
        seq!['\u{FFFD}'] + decode(u.skip(1))
    } else {
        seq![u[0] as char] + decode(u.skip(1))
    }
}

/// Encoding a concatenation encodes each part.
pub proof fn lemma_encode_append(a: Seq<char>, b: Seq<char>)
    ensures
        encode(a + b) == encode(a) + encode(b),
    decreases b.len(),
{
    if b.len() == 0 {
        assert(a + b =~= a);
        assert(encode(b) =~= Seq::<u16>::empty());
        assert(encode(a) + encode(b) =~= encode(a));
    } else {
        lemma_encode_append(a, b.drop_last());
        assert((a + b).drop_last() =~= a + b.drop_last());
        assert((a + b).last() == b.last());
        assert(encode(a) + encode(b.drop_last()) + char_units(b.last()) =~= encode(a) + (encode(
            b.drop_last(),
        ) + char_units(b.last())));
    }
}

/// A prefix never has more code units than the whole.
pub proof fn lemma_encode_prefix_len(s: Seq<char>, i: int)
    requires
        0 <= i <= s.len(),
    ensures
        encode(s.take(i)).len() <= encode(s).len(),
        encode(s).len() >= s.len(),
{
    lemma_encode_append(s.take(i), s.skip(i));
    assert(s.take(i) + s.skip(i) =~= s);
    lemma_encode_len_at_least(s);
}

/// Each character takes at least one code unit.
pub proof fn lemma_encode_len_at_least(s: Seq<char>)
    ensures
        encode(s).len() >= s.len(),
    decreases s.len(),
{
    if s.len() > 0 {
        lemma_encode_len_at_least(s.drop_last());
    }
}

/// The code units of `c`, the second one meaningful when the count is 2.
pub fn units_of_char(c: char) -> (r: (u16, u16, usize))
    ensures
        r.2 == char_units(c).len(),
        r.0 == char_units(c)[0],
        r.2 == 2 ==> r.1 == char_units(c)[1],
{
    let v = c as u32;
    if v < 0x1_0000 {
        (v as u16, 0, 1)
    } else {
        proof {
            vstd::utf8::char_is_scalar(c);
        }
        let w = v - 0x1_0000;
        assert(w >> 10u32 <= 0x3FF && w & 0x3FF <= 0x3FF) by (bit_vector)
            requires
                w <= 0xF_FFFF,
        ;
        ((0xD800 + (w >> 10u32)) as u16, (0xDC00 + (w & 0x3FF)) as u16, 2)
    }
}

} // verus!
