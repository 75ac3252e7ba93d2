//! 8.3 short names: generation from long names, case flags and name
//! validation.

use vstd::prelude::*;
use crate::lfn::MAX_UNITS;
use crate::oem::{
    lemma_index_from, Cp437OemCpConverter, LossyAsciiOemCpConverter, OemCpConverter, CP437_HIGH,
};
use crate::utf16::{char_units, encode};
use vstd::utf8::encode_utf8;

verus! {

/// `DIR_NTRes` bit: the base name is stored uppercase but displayed
/// lowercase.
pub const LOWER_BASE: u8 = 0x08;
/// `DIR_NTRes` bit: the extension is stored uppercase but displayed
/// lowercase.
pub const LOWER_EXT: u8 = 0x10;
/// Byte that stands for a leading `0xE5` on disk, since `0xE5` marks a
/// deleted entry.
pub const KANJI_LEAD: u8 = 0x05;
/// First name byte of a deleted entry.
pub const DELETED: u8 = 0xE5;
/// Longest UTF-8 display form of a short name: 11 characters of up to 4
/// bytes and a dot.
pub const DISPLAY_MAX: usize = 45;

/// Whether `b` is one of the punctuation bytes allowed in a short name
/// besides letters and digits: `$%'-_@~`!(){}^#&`.
pub open spec fn allowed_symbol(b: u8) -> bool {
    ||| b == 0x24
    ||| b == 0x25
    ||| b == 0x27
    ||| b == 0x2D
    ||| b == 0x5F
    ||| b == 0x40
    ||| b == 0x7E
    ||| b == 0x60
    ||| b == 0x21
    ||| b == 0x28
    ||| b == 0x29
    ||| b == 0x7B
    ||| b == 0x7D
    ||| b == 0x5E
    ||| b == 0x23
    ||| b == 0x26
}

/// Whether `b` is one of the punctuation bytes allowed in a short name.
pub fn is_allowed_symbol(b: u8) -> (r: bool)
    ensures
        r == allowed_symbol(b),
{
    b == 0x24 || b == 0x25 || b == 0x27 || b == 0x2D || b == 0x5F || b == 0x40 || b == 0x7E || b
        == 0x60 || b == 0x21 || b == 0x28 || b == 0x29 || b == 0x7B || b == 0x7D || b == 0x5E || b
        == 0x23 || b == 0x26
}

/// Whether the code `c` is an ASCII letter or digit.
pub open spec fn ascii_alnum(c: u32) -> bool {
    ||| 0x30 <= c <= 0x39
    ||| 0x41 <= c <= 0x5A
    ||| 0x61 <= c <= 0x7A
}

/// Whether the code `c` is an ASCII lowercase letter.
pub open spec fn ascii_lower(c: u32) -> bool {
    0x61 <= c <= 0x7A
}

/// Whether the code `c` is an ASCII uppercase letter.
pub open spec fn ascii_upper(c: u32) -> bool {
    0x41 <= c <= 0x5A
}

/// The low byte of the code `c`, uppercased when it is a lowercase ASCII
/// letter.
pub open spec fn upper_byte(c: u32) -> u8 {
    if ascii_lower(c) {
        (c - 0x20) as u8
    } else {
        c as u8
    }
}

/// Replaces a leading `0xE5` with `0x05` before the name is written.
pub fn to_disk(name: &mut [u8; 11])
    ensures
        final(name)@ == (if old(name)@[0] == DELETED {
            old(name)@.update(0, KANJI_LEAD)
        } else {
            old(name)@
        }),
{
    if name[0] == DELETED {
        name[0] = KANJI_LEAD;
    }
}

/// Restores a leading `0xE5` stored as `0x05`.
pub fn from_disk(name: &mut [u8; 11])
    ensures
        final(name)@ == (if old(name)@[0] == KANJI_LEAD {
            old(name)@.update(0, DELETED)
        } else {
            old(name)@
        }),
{
    if name[0] == KANJI_LEAD {
        name[0] = DELETED;
    }
}

/// The byte a character of a long name becomes in its short name: letters
/// and digits uppercased, allowed punctuation kept, spaces and dots dropped
/// (0), other ASCII `_`, anything else through the code page, or `_` when
/// the code page has no byte for it.
pub open spec fn spec_process<C: OemCpConverter>(page: C, ch: char) -> u8 {
    let c = ch as u32;
    if ascii_alnum(c) {
        upper_byte(c)
    } else if c < 0x80 && allowed_symbol(c as u8) {
        c as u8
    } else if c == 0x20 || c == 0x2E {
        0
    } else if c < 0x80 {
        0x5F
    } else {
        match page.spec_encode(ch) {
            Some(b) => b,
            None => 0x5F,
        }
    }
}

/// The byte `ch` becomes in a short name; 0 when it is dropped.
pub fn process_char<C: OemCpConverter>(ch: char, page: &C) -> (b: u8)
    ensures
        b == spec_process(*page, ch),
{
    let c = ch as u32;
    if (0x30 <= c && c <= 0x39) || (0x41 <= c && c <= 0x5A) || (0x61 <= c && c <= 0x7A) {
        if 0x61 <= c {
            (c - 0x20) as u8
        } else {
            c as u8
        }
    } else if c < 0x80 && is_allowed_symbol(c as u8) {
        c as u8
    } else if c == 0x20 || c == 0x2E {
        0
    } else if c < 0x80 {
        0x5F
    } else {
        match page.encode(ch) {
            Some(b) => b,
            None => 0x5F,
        }
    }
}

/// The hash of the bytes `bytes` that hashed numeric tails use, seeded with
/// `suffix`: each byte multiplies by 37 and adds, modulo 2^16.
pub open spec fn spec_hash(bytes: Seq<u8>, suffix: u8) -> u16
    decreases bytes.len(),
{
    if bytes.len() == 0 {
        suffix as u16
    } else {
        vstd::wrapping::u16_specs::wrapping_add(
            vstd::wrapping::u16_specs::wrapping_mul(spec_hash(bytes.drop_last(), suffix), 37),
            bytes.last() as u16,
        )
    }
}

/// The hash of `name`'s UTF-8 bytes for a hashed numeric tail.
pub fn hash(name: &str, suffix: u8) -> (h: u16)
    ensures
        h == spec_hash(vstd::utf8::encode_utf8(name@), suffix),
{
    let bytes = name.as_bytes();
    let mut hash = suffix as u16;
    let mut i: usize = 0;
    while i < bytes.len()
        invariant
            i <= bytes@.len(),
            bytes@ == vstd::utf8::encode_utf8(name@),
            hash == spec_hash(bytes@.take(i as int), suffix),
        decreases bytes@.len() - i,
    {
        proof {
            assert(bytes@.take(i + 1).drop_last() =~= bytes@.take(i as int));
        }
        hash = hash.wrapping_mul(37).wrapping_add(bytes[i] as u16);
        i += 1;
    }
    assert(bytes@.take(i as int) =~= bytes@);
    hash
}

/// The characters of `name`.
pub fn chars_of(name: &str) -> (v: Vec<char>)
    ensures
        v@ == name@,
{
    let mut v: Vec<char> = Vec::new();
    for ch in it: name.chars()
        invariant
            it.seq() == name@,
            v@ == name@.take(it.index() as int),
    {
        proof {
            assert(name@.take(it.index() + 1) =~= v@.push(ch));
        }
        v.push(ch);
    }
    assert(v@ =~= name@);
    v
}

/// Whether `ch` may not appear in a long name: a control character or one
/// of `"*/:<>?\|`.
pub open spec fn forbidden(ch: char) -> bool {
    let c = ch as u32;
    ||| c <= 0x1F
    ||| c == 0x22
    ||| c == 0x2A
    ||| c == 0x2F
    ||| c == 0x3A
    ||| c == 0x3C
    ||| c == 0x3E
    ||| c == 0x3F
    ||| c == 0x5C
    ||| c == 0x7C
}

/// Whether `name` is a valid long name: not empty, `.` or `..`, at most
/// 255 UTF-16 code units, and free of control characters and `"*/:<>?\|`.
pub open spec fn valid_long_name(name: Seq<char>) -> bool {
    &&& name.len() > 0
    &&& name != seq!['.']
    &&& name != seq!['.', '.']
    &&& encode(name).len() <= MAX_UNITS
    &&& forall|i: int| 0 <= i < name.len() ==> !forbidden(#[trigger] name[i])
}

/// Whether `name` is a valid long name: not empty, `.` or `..`, at most
/// 255 UTF-16 code units, and free of control characters and `"*/:<>?\|`.
pub fn is_valid_long_name(name: &str) -> (b: bool)
    ensures
        b == valid_long_name(name@),
{
    let chars = chars_of(name);
    let n = chars.len();
    if n == 0 {
        return false;
    }
    if n == 1 && chars[0] == '.' {
        assert(chars@ =~= seq!['.']);
        return false;
    }
    if n == 2 && chars[0] == '.' && chars[1] == '.' {
        assert(chars@ =~= seq!['.', '.']);
        return false;
    }
    assert(chars@ != seq!['.']) by {
        if chars@ == seq!['.'] {
            assert(chars@[0] == '.');
        }
    }
    assert(chars@ != seq!['.', '.']) by {
        if chars@ == seq!['.', '.'] {
            assert(chars@[0] == '.' && chars@[1] == '.');
        }
    }
    let mut units: usize = 0;
    let mut i: usize = 0;
    while i < n
        invariant
            n == chars@.len(),
            chars@ == name@,
            i <= n,
            units == encode(chars@.take(i as int)).len(),
            units <= MAX_UNITS,
            forall|j: int| 0 <= j < i ==> !forbidden(#[trigger] chars@[j]),
        decreases n - i,
    {
        let ch = chars[i];
        let c = ch as u32;
        if c <= 0x1F || c == 0x22 || c == 0x2A || c == 0x2F || c == 0x3A || c == 0x3C || c == 0x3E
            || c == 0x3F || c == 0x5C || c == 0x7C {
            assert(forbidden(chars@[i as int]));
            return false;
        }
        proof {
            assert(chars@.take(i + 1).drop_last() =~= chars@.take(i as int));
            assert(chars@.take(i + 1).last() == ch);
            assert(encode(chars@.take(i + 1)) == encode(chars@.take(i as int)) + char_units(ch));
        }
        let width: usize = if c < 0x1_0000 {
            1
        } else {
            2
        };
        if units + width > MAX_UNITS {
            proof {
                crate::utf16::lemma_encode_prefix_len(chars@, i + 1);
            }
            return false;
        }
        units += width;
        i += 1;
    }
    assert(chars@.take(n as int) =~= chars@);
    true
}

/// The index of the last `.` in `s`.
pub open spec fn last_dot(s: Seq<char>) -> Option<int>
    decreases s.len(),
{
    if s.len() == 0 {
        None
    } else if s.last() == '.' {
        Some(s.len() - 1)
    } else {
        last_dot(s.drop_last())
    }
}

/// Where [`last_dot`] finds a dot, there is one.
pub proof fn lemma_last_dot(s: Seq<char>)
    ensures
        last_dot(s) matches Some(k) ==> 0 <= k < s.len() && s[k] == '.' && forall|j: int|
            k < j < s.len() ==> s[j] != '.',
        last_dot(s) is None ==> forall|j: int| 0 <= j < s.len() ==> s[j] != '.',
    decreases s.len(),
{
    if s.len() > 0 && s.last() != '.' {
        lemma_last_dot(s.drop_last());
        assert forall|j: int| 0 <= j < s.len() - 1 implies s.drop_last()[j] == s[j] by {}
    }
}

/// The base name and extension of `name`: split at the last `.`, unless
/// that dot leads the name.
pub open spec fn split_name(name: Seq<char>) -> (Seq<char>, Seq<char>) {
    match last_dot(name) {
        Some(k) => if k > 0 {
            (name.take(k), name.skip(k + 1))
        } else {
            (name, Seq::empty())
        },
        None => (name, Seq::empty()),
    }
}

/// The index of the last `.` in `chars`.
pub fn find_last_dot(chars: &Vec<char>) -> (r: Option<usize>)
    ensures
        r is Some <==> last_dot(chars@) is Some,
        r matches Some(k) ==> last_dot(chars@) == Some(k as int) && k < chars@.len(),
{
    proof {
        lemma_last_dot(chars@);
    }
    let mut i = chars.len();
    assert(chars@.take(i as int) =~= chars@);
    while i > 0
        invariant
            i <= chars@.len(),
            last_dot(chars@) == last_dot(chars@.take(i as int)),
        decreases i,
    {
        proof {
            assert(chars@.take(i as int).drop_last() =~= chars@.take(i - 1));
        }
        if chars[i - 1] == '.' {
            return Some(i - 1);
        }
        i -= 1;
    }
    None
}

/// The number of dots in `s`.
pub open spec fn dot_count(s: Seq<char>) -> nat
    decreases s.len(),
{
    if s.len() == 0 {
        0
    } else {
        dot_count(s.drop_last()) + if s.last() == '.' {
            1nat
        } else {
            0nat
        }
    }
}

/// The bytes the characters of `s` become in a short name, dropped ones
/// left out.
pub open spec fn processed<C: OemCpConverter>(page: C, s: Seq<char>) -> Seq<u8>
    decreases s.len(),
{
    if s.len() == 0 {
        Seq::empty()
    } else {
        let b = spec_process(page, s.last());
        if b == 0 {
            processed(page, s.drop_last())
        } else {
            processed(page, s.drop_last()).push(b)
        }
    }
}

/// Processing a concatenation processes each part.
pub proof fn lemma_processed_append<C: OemCpConverter>(page: C, a: Seq<char>, b: Seq<char>)
    ensures
        processed(page, a + b) == processed(page, a) + processed(page, b),
    decreases b.len(),
{
    if b.len() == 0 {
        assert(a + b =~= a);
        assert(processed(page, a) + processed(page, b) =~= processed(page, a));
    } else {
        lemma_processed_append(page, a, b.drop_last());
        assert((a + b).drop_last() =~= a + b.drop_last());
        assert((a + b).last() == b.last());
        let x = spec_process(page, b.last());
        if x != 0 {
            assert(processed(page, a) + processed(page, b.drop_last()).push(x) =~= (processed(
                page,
                a,
            ) + processed(page, b.drop_last())).push(x));
        }
    }
}

/// What a prefix of `s` becomes is a prefix of what `s` becomes.
pub proof fn lemma_processed_prefix<C: OemCpConverter>(page: C, s: Seq<char>, i: int)
    requires
        0 <= i <= s.len(),
    ensures
        processed(page, s.take(i)).len() <= processed(page, s).len(),
        processed(page, s).take(processed(page, s.take(i)).len() as int) == processed(page, s.take(i)),
{
    lemma_processed_append(page, s.take(i), s.skip(i));
    assert(s.take(i) + s.skip(i) =~= s);
    assert((processed(page, s.take(i)) + processed(page, s.skip(i))).take(processed(page, s.take(i)).len() as int) =~= processed(page, s.take(i)));
}

/// Whether `ch` may stand in a short name alone: ASCII, and a letter, a
/// digit or allowed punctuation.
pub open spec fn short_char(ch: char) -> bool {
    let c = ch as u32;
    c < 0x80 && (ascii_alnum(c) || allowed_symbol(c as u8))
}

/// Whether part of a name is all lowercase (`Some(true)`), has no
/// lowercase letter (`Some(false)`), or cannot be stored in a short name
/// with a case bit (`None`): a character outside the short-name set, or
/// both cases.
pub open spec fn spec_part_lower(p: Seq<char>) -> Option<bool> {
    let lower = exists|i: int| 0 <= i < p.len() && ascii_lower(#[trigger] p[i] as u32);
    let upper = exists|i: int| 0 <= i < p.len() && ascii_upper(#[trigger] p[i] as u32);
    if exists|i: int| 0 <= i < p.len() && !short_char(#[trigger] p[i]) {
        None
    } else if lower && upper {
        None
    } else {
        Some(lower)
    }
}

/// [`spec_part_lower`] of `chars` from `from` up to `to`.
fn part_is_lower(chars: &Vec<char>, from: usize, to: usize) -> (r: Option<bool>)
    requires
        from <= to <= chars@.len(),
    ensures
        r == spec_part_lower(chars@.subrange(from as int, to as int)),
{
    let ghost p = chars@.subrange(from as int, to as int);
    let mut seen_lower = false;
    let mut seen_upper = false;
    let mut i = from;
    while i < to
        invariant
            from <= i <= to <= chars@.len(),
            p == chars@.subrange(from as int, to as int),
            forall|j: int| 0 <= j < i - from ==> short_char(#[trigger] p[j]),
            seen_lower == exists|j: int| 0 <= j < i - from && ascii_lower(#[trigger] p[j] as u32),
            seen_upper == exists|j: int| 0 <= j < i - from && ascii_upper(#[trigger] p[j] as u32),
        decreases to - i,
    {
        let c = chars[i] as u32;
        assert(p[i - from] == chars@[i as int]);
        if !(c < 0x80 && ((0x30 <= c && c <= 0x39) || (0x41 <= c && c <= 0x5A) || (0x61 <= c && c
            <= 0x7A) || is_allowed_symbol(c as u8))) {
            return None;
        }
        if 0x61 <= c && c <= 0x7A {
            seen_lower = true;
        }
        if 0x41 <= c && c <= 0x5A {
            seen_upper = true;
        }
        i += 1;
    }
    if seen_lower && seen_upper {
        return None;
    }
    Some(seen_lower)
}

/// The `DIR_NTRes` case bits that let `name` be stored as a short entry
/// alone, or `None`: an empty base, a base over 8 or an extension over 3
/// characters, several dots, mixed case within the base or extension, or
/// characters outside the short-name set.
pub open spec fn spec_case_bits(name: Seq<char>) -> Option<u8> {
    let (base, ext) = split_name(name);
    if base.len() == 0 || base.len() > 8 || ext.len() > 3 || dot_count(name) > 1 {
        None
    } else {
        match (spec_part_lower(base), spec_part_lower(ext)) {
            (Some(lower_base), Some(lower_ext)) => Some(
                ((if lower_base {
                    LOWER_BASE
                } else {
                    0
                }) + (if lower_ext {
                    LOWER_EXT
                } else {
                    0
                })) as u8,
            ),
            _ => None,
        }
    }
}

/// The `DIR_NTRes` case bits that let `name` be stored as a short entry
/// alone, or `None` when it needs LFN entries. An uppercase 8.3 name gives
/// `Some(0)`.
pub fn case_bits(name: &str) -> (r: Option<u8>)
    ensures
        r == spec_case_bits(name@),
{
    let chars = chars_of(name);
    let n = chars.len();
    let (base_end, ext_start) = match find_last_dot(&chars) {
        Some(pos) => if pos > 0 {
            (pos, pos + 1)
        } else {
            (n, n)
        },
        None => (n, n),
    };
    proof {
        lemma_last_dot(chars@);
        assert(chars@.subrange(0, base_end as int) == split_name(name@).0);
        assert(chars@.subrange(ext_start as int, n as int) == split_name(name@).1);
    }
    if base_end == 0 || base_end > 8 || n - ext_start > 3 {
        return None;
    }
    let mut dots: usize = 0;
    let mut i: usize = 0;
    while i < n
        invariant
            n == chars@.len(),
            i <= n,
            dots == dot_count(chars@.take(i as int)),
            dots <= i,
        decreases n - i,
    {
        proof {
            assert(chars@.take(i + 1).drop_last() =~= chars@.take(i as int));
        }
        if chars[i] == '.' {
            dots += 1;
        }
        i += 1;
    }
    assert(chars@.take(n as int) =~= chars@);
    if dots > 1 {
        return None;
    }
    let lower_base = match part_is_lower(&chars, 0, base_end) {
        Some(b) => b,
        None => return None,
    };
    let lower_ext = match part_is_lower(&chars, ext_start, n) {
        Some(b) => b,
        None => return None,
    };
    let mut bits: u8 = 0;
    if lower_base {
        bits = bits + LOWER_BASE;
    }
    if lower_ext {
        bits = bits + LOWER_EXT;
    }
    Some(bits)
}

/// The base name and extension a short name is made from: those of
/// [`split_name`], or the extension alone as the base when the base is all
/// dots and spaces.
pub open spec fn name_parts(name: Seq<char>) -> (Seq<char>, Seq<char>) {
    let (base, ext) = split_name(name);
    if ext.len() > 0 && forall|i: int| 0 <= i < base.len() ==> #[trigger] base[i] == '.' || base[i]
        == ' ' {
        (ext, Seq::empty())
    } else {
        (base, ext)
    }
}

/// The hexadecimal digit of `n`, uppercase.
pub open spec fn hex_digit(n: u16) -> u8 {
    if n < 10 {
        (0x30 + n) as u8
    } else {
        (0x41 + n - 10) as u8
    }
}

/// The numeric tail for `suffix` 1 through 4, `~1` to `~4`, and the
/// hashed `~HHHH` above that.
pub open spec fn numeric_tail(name: Seq<char>, suffix: u8) -> Seq<u8> {
    if suffix <= 4 {
        seq![0x7Eu8, (0x30 + suffix) as u8]
    } else {
        let h = spec_hash(vstd::utf8::encode_utf8(name), suffix);
        seq![
            0x7Eu8,
            hex_digit((h >> 12u16) & 0xF),
            hex_digit((h >> 8u16) & 0xF),
            hex_digit((h >> 4u16) & 0xF),
            hex_digit(h & 0xF),
        ]
    }
}

/// The first `n` of `s`, or all of it.
pub open spec fn at_most(s: Seq<u8>, n: int) -> Seq<u8> {
    if s.len() <= n {
        s
    } else {
        s.take(n)
    }
}

/// `s` padded with spaces to `n` bytes.
pub open spec fn padded(s: Seq<u8>, n: int) -> Seq<u8> {
    s + Seq::new((n - s.len()) as nat, |i: int| 0x20u8)
}

/// The 11-byte short name [`generate`] makes of `name` with `suffix`, or
/// `None` when nothing representable remains: the base's bytes, at most 8
/// without a tail, 6 before `~N` and 2 before `~HHHH`; then the
/// extension's first 3, each padded with spaces.
pub open spec fn spec_generate<C: OemCpConverter>(page: C, name: Seq<char>, suffix: u8) -> Option<
    Seq<u8>,
> {
    let (base, ext) = name_parts(name);
    let kept = if suffix == 0 {
        8
    } else if suffix <= 4 {
        6
    } else {
        2
    };
    let stem = if suffix == 0 {
        at_most(processed(page, base), kept)
    } else {
        at_most(processed(page, base), kept) + numeric_tail(name, suffix)
    };
    let extension = at_most(processed(page, ext), 3);
    if stem.len() == 0 && extension.len() == 0 {
        None
    } else {
        Some(padded(stem, 8) + padded(extension, 3))
    }
}

fn hex_digit_of(n: u16) -> (b: u8)
    requires
        n < 16,
    ensures
        b == hex_digit(n),
{
    if n < 10 {
        0x30 + n as u8
    } else {
        0x41 + n as u8 - 10
    }
}

/// Copies into `out` from `at` the bytes the characters of `chars` from
/// `from` up to `to` become, at most `limit` of them; returns how many.
fn put_processed<C: OemCpConverter>(
    chars: &Vec<char>,
    from: usize,
    to: usize,
    page: &C,
    out: &mut [u8; 11],
    at: usize,
    limit: usize,
) -> (n: usize)
    requires
        from <= to <= chars@.len(),
        at + limit <= 11,
    ensures
        n <= limit,
        final(out)@.subrange(at as int, at + n) == at_most(
            processed(*page, chars@.subrange(from as int, to as int)),
            limit as int,
        ),
        forall|j: int|
            0 <= j < 11 && !(at <= j < at + n) ==> #[trigger] final(out)@[j] == old(out)@[j],
{
    let ghost whole = chars@.subrange(from as int, to as int);
    let mut n: usize = 0;
    let mut i = from;
    while i < to && n < limit
        invariant
            from <= i <= to <= chars@.len(),
            whole == chars@.subrange(from as int, to as int),
            at + limit <= 11,
            n <= limit,
            out@.subrange(at as int, at + n) == processed(*page, whole.take(i - from)),
            forall|j: int| 0 <= j < 11 && !(at <= j < at + n) ==> #[trigger] out@[j] == old(out)@[j],
        decreases to - i,
    {
        proof {
            assert(whole.take(i + 1 - from).drop_last() =~= whole.take(i - from));
            assert(whole.take(i + 1 - from).last() == chars@[i as int]);
        }
        let byte = process_char(chars[i], page);
        if byte != 0 {
            let ghost before = out@;
            out[at + n] = byte;
            n += 1;
            assert(out@.subrange(at as int, at + n) =~= before.subrange(at as int, at + n - 1).push(
                byte,
            ));
        }
        i += 1;
    }
    proof {
        lemma_processed_prefix(*page, whole, i - from);
        if i >= to {
            assert(whole.take(i - from) =~= whole);
        } else {
            assert(processed(*page, whole).take(limit as int) =~= out@.subrange(at as int, at + n));
        }
    }
    n
}

/// Writes the numeric tail for `suffix` into `out` after the first
/// `base_len` bytes of the base, which it cuts to 6 before `~N` and to 2
/// before `~HHHH`; returns the length of base and tail.
fn put_tail(name: &str, suffix: u8, out: &mut [u8; 11], base_len: usize) -> (len: usize)
    requires
        suffix >= 1,
        base_len <= 6,
        forall|k: int| base_len <= k < 11 ==> old(out)@[k] == 0x20,
    ensures
        len <= 8,
        final(out)@.subrange(0, len as int) == at_most(
            old(out)@.subrange(0, base_len as int),
            if suffix <= 4 {
                6
            } else {
                2
            },
        ) + numeric_tail(name@, suffix),
        forall|k: int| len <= k < 11 ==> final(out)@[k] == 0x20,
{
    let ghost start = out@;
    if suffix <= 4 {
        out[base_len] = 0x7E;
        out[base_len + 1] = 0x30 + suffix;
        assert(out@.subrange(0, base_len + 2) =~= start.subrange(0, base_len as int) + numeric_tail(
            name@,
            suffix,
        ));
        assert(forall|k: int| base_len + 2 <= k < 11 ==> out@[k] == start[k]);
        base_len + 2
    } else {
        let h = hash(name, suffix);
        assert(forall|x: u16| #[trigger] (x & 0xF) < 16) by (bit_vector);
        let keep = if base_len < 2 {
            base_len
        } else {
            2
        };
        out[keep] = 0x7E;
        out[keep + 1] = hex_digit_of((h >> 12u16) & 0xF);
        out[keep + 2] = hex_digit_of((h >> 8u16) & 0xF);
        out[keep + 3] = hex_digit_of((h >> 4u16) & 0xF);
        out[keep + 4] = hex_digit_of(h & 0xF);
        let ghost tailed = out@;
        assert(tailed.subrange(keep as int, keep + 5) =~= numeric_tail(name@, suffix));
        assert(forall|k: int| 0 <= k < keep ==> tailed[k] == start[k]);
        assert(forall|k: int| 8 <= k < 11 ==> tailed[k] == start[k]);
        let mut j = keep + 5;
        while j < 8
            invariant
                keep + 5 <= j <= 8,
                out@.len() == 11,
                forall|k: int| keep + 5 <= k < j ==> out@[k] == 0x20,
                forall|k: int| 0 <= k < keep + 5 || 8 <= k < 11 ==> out@[k] == tailed[k],
            decreases 8 - j,
        {
            out[j] = 0x20;
            j += 1;
        }
        assert(out@.subrange(0, keep + 5) =~= start.subrange(0, keep as int) + numeric_tail(
            name@,
            suffix,
        ));
        assert(at_most(start.subrange(0, base_len as int), 2) =~= start.subrange(0, keep as int));
        assert(forall|k: int| keep + 5 <= k < 8 ==> out@[k] == 0x20);
        assert forall|k: int| 8 <= k < 11 implies out@[k] == 0x20 by {
            assert(out@[k] == tailed[k]);
            assert(tailed[k] == start[k]);
            assert(start[k] == old(out)@[k]);
        }
        keep + 5
    }
}

/// Generates the 11-byte short name for `name` with numeric tail `suffix`
/// (0 for none, `~1` to `~4` for 1 to 4, a hashed `~HHHH` above that).
/// Non-ASCII characters go through the code page `page`, and become `_`
/// when it has no byte for them. `None` when nothing representable
/// remains.
pub fn generate<C: OemCpConverter>(name: &str, suffix: u8, page: &C) -> (r: Option<[u8; 11]>)
    ensures
        r is Some <==> spec_generate(*page, name@, suffix) is Some,
        r matches Some(out) ==> out@ == spec_generate(*page, name@, suffix)->Some_0,
{
    let chars = chars_of(name);
    let n = chars.len();
    let (mut base_start, mut base_end, mut ext_start) = match find_last_dot(&chars) {
        Some(pos) => if pos > 0 {
            (0, pos, pos + 1)
        } else {
            (0, n, n)
        },
        None => (0, n, n),
    };
    proof {
        lemma_last_dot(chars@);
    }
    assert(chars@.subrange(base_start as int, base_end as int) == split_name(name@).0);
    assert(chars@.subrange(ext_start as int, n as int) == split_name(name@).1);
    if ext_start < n {
        let mut blank = true;
        let mut i = base_start;
        while i < base_end
            invariant
                base_start <= i <= base_end <= n,
                n == chars@.len(),
                blank == forall|j: int| base_start <= j < i ==> #[trigger] chars@[j] == '.'
                    || chars@[j] == ' ',
            decreases base_end - i,
        {
            if chars[i] != '.' && chars[i] != ' ' {
                blank = false;
            }
            i += 1;
        }
        assert(base_start == 0);
        proof {
            let b = split_name(name@).0;
            assert(b.len() == base_end);
            assert(forall|j: int| 0 <= j < b.len() ==> b[j] == chars@[j]);
            if !blank {
                let j = choose|j: int| 0 <= j < base_end && !(#[trigger] chars@[j] == '.' || chars@[j] == ' ');
                assert(!(b[j] == '.' || b[j] == ' '));
            }
        }
        if blank {
            base_start = ext_start;
            base_end = n;
            ext_start = n;
        }
    }
    let ghost parts = name_parts(name@);
    assert(chars@.subrange(base_start as int, base_end as int) == parts.0);
    assert(chars@.subrange(ext_start as int, n as int) == parts.1);
    let mut out = [0x20u8; 11];
    assert(forall|k: int| 0 <= k < 11 ==> out@[k] == 0x20);
    let limit: usize = if suffix > 0 {
        6
    } else {
        8
    };
    let mut base_len = put_processed(&chars, base_start, base_end, page, &mut out, 0, limit);
    let ghost pb = processed(*page, parts.0);
    let ghost stem = if suffix == 0 {
        at_most(pb, 8)
    } else if suffix <= 4 {
        at_most(pb, 6) + numeric_tail(name@, suffix)
    } else {
        at_most(pb, 2) + numeric_tail(name@, suffix)
    };
    assert(out@.subrange(0, base_len as int) == at_most(pb, limit as int));
    assert(forall|k: int| base_len <= k < 11 ==> out@[k] == 0x20);
    if suffix > 0 {
        let ghost before = out@.subrange(0, base_len as int);
        base_len = put_tail(name, suffix, &mut out, base_len);
        assert(at_most(before, if suffix <= 4 { 6 } else { 2 }) =~= at_most(pb, if suffix <= 4 { 6 } else { 2 }));
    }
    assert(out@.subrange(0, base_len as int) == stem);
    assert(forall|k: int| base_len <= k < 11 ==> out@[k] == 0x20);
    let ghost stemmed = out@;
    let ext_len = put_processed(&chars, ext_start, n, page, &mut out, 8, 3);
    let ghost extension = at_most(processed(*page, parts.1), 3);
    assert(out@.subrange(0, base_len as int) =~= stemmed.subrange(0, base_len as int));
    if base_len == 0 && ext_len == 0 {
        return None;
    }
    assert(out@ =~= padded(stem, 8) + padded(extension, 3)) by {
        assert forall|k: int| 0 <= k < 11 implies out@[k] == (padded(stem, 8) + padded(extension, 3))[k] by {
            if k < base_len {
                assert(out@[k] == out@.subrange(0, base_len as int)[k]);
            } else if k < 8 {
            } else if k < 8 + ext_len {
                assert(out@[k] == out@.subrange(8, 8 + ext_len)[k - 8]);
            } else {
            }
        }
    }
    Some(out)
}

/// `s` without its trailing spaces.
pub open spec fn trimmed(s: Seq<u8>) -> Seq<u8>
    decreases s.len(),
{
    if s.len() > 0 && s.last() == 0x20 {
        trimmed(s.drop_last())
    } else {
        s
    }
}

/// How a stored byte of a short name is shown: ASCII as itself, lowercased
/// when `lower` asks for it, other bytes through the code page.
pub open spec fn shown_char<C: OemCpConverter>(page: C, byte: u8, lower: bool) -> char {
    if byte < 0x80 {
        if lower && 0x41 <= byte <= 0x5A {
            ((byte + 0x20) as u8) as char
        } else {
            byte as char
        }
    } else {
        page.spec_decode(byte)
    }
}

/// How the stored bytes `bytes` are shown.
pub open spec fn shown<C: OemCpConverter>(page: C, bytes: Seq<u8>, lower: bool) -> Seq<char> {
    Seq::new(bytes.len(), |i: int| shown_char(page, bytes[i], lower))
}

/// The characters of the display form of the stored short name `stored`:
/// a leading `0x05` read as `0xE5`, padding dropped, a dot before a
/// non-empty extension, and the `DIR_NTRes` case bits applied.
pub open spec fn display_chars<C: OemCpConverter>(page: C, stored: Seq<u8>, nt_case: u8) -> Seq<char> {
    let name = if stored[0] == KANJI_LEAD {
        stored.update(0, DELETED)
    } else {
        stored
    };
    let base = trimmed(name.take(8));
    let ext = trimmed(name.subrange(8, 11));
    let body = shown(page, base, nt_case & LOWER_BASE != 0);
    if ext.len() == 0 {
        body
    } else {
        body + seq!['.'] + shown(page, ext, nt_case & LOWER_EXT != 0)
    }
}

/// Where the bytes of `name` from `from` up to `to` end once trailing
/// spaces are dropped.
pub(crate) fn trimmed_end(name: &[u8; 11], from: usize, to: usize) -> (e: usize)
    requires
        from <= to <= 11,
    ensures
        from <= e <= to,
        name@.subrange(from as int, e as int) == trimmed(name@.subrange(from as int, to as int)),
{
    let mut e = to;
    assert(name@.subrange(from as int, to as int) =~= name@.subrange(from as int, e as int));
    while e > from && name[e - 1] == 0x20
        invariant
            from <= e <= to <= 11,
            trimmed(name@.subrange(from as int, to as int)) == trimmed(name@.subrange(from as int, e as int)),
        decreases e,
    {
        assert(name@.subrange(from as int, e as int).drop_last() =~= name@.subrange(from as int, e - 1));
        e -= 1;
    }
    e
}

/// Writes into `out` at `at` the UTF-8 form of how the bytes of `name`
/// from `from` up to `to` are shown; returns its length.
fn put_shown<C: OemCpConverter>(
    name: &[u8; 11],
    from: usize,
    to: usize,
    lower: bool,
    page: &C,
    out: &mut [u8; DISPLAY_MAX],
    at: usize,
) -> (n: usize)
    requires
        from <= to <= 11,
        at + 4 * (to - from) <= DISPLAY_MAX,
    ensures
        n <= 4 * (to - from),
        final(out)@ == old(out)@.take(at as int) + encode_utf8(
            shown(*page, name@.subrange(from as int, to as int), lower),
        ) + old(out)@.skip(at + n),
{
    let ghost part = name@.subrange(from as int, to as int);
    let mut n: usize = 0;
    let mut i = from;
    assert(shown(*page, part.take(0), lower) =~= Seq::<char>::empty());
    assert(out@ =~= old(out)@.take(at as int) + encode_utf8(Seq::<char>::empty()) + old(out)@.skip(at + n));
    while i < to
        invariant
            from <= i <= to <= 11,
            at + 4 * (to - from) <= DISPLAY_MAX,
            part == name@.subrange(from as int, to as int),
            n <= 4 * (i - from),
            out@.len() == DISPLAY_MAX,
            out@ == old(out)@.take(at as int) + encode_utf8(shown(*page, part.take(i - from), lower))
                + old(out)@.skip(at + n),
        decreases to - i,
    {
        let b = name[i];
        let ch = if b < 0x80 {
            if lower && 0x41 <= b && b <= 0x5A {
                (b + 0x20) as char
            } else {
                b as char
            }
        } else {
            page.decode(b)
        };
        let ghost prefix = shown(*page, part.take(i - from), lower);
        proof {
            assert(shown(*page, part.take(i + 1 - from), lower) =~= prefix.push(ch));
            crate::name::lemma_encode_utf8_push(prefix, ch);
        }
        let w = crate::name::put_utf8(ch, out, at + n);
        proof {
            assert(out@ =~= old(out)@.take(at as int) + encode_utf8(prefix.push(ch)) + old(out)@.skip(at + n + w));
        }
        n = n + w;
        i += 1;
    }
    assert(part.take(to - from) =~= part);
    n
}

/// Writes the display form of a stored short name as UTF-8 and returns its
/// length: a leading `0x05` read as `0xE5`, padding dropped, the
/// `DIR_NTRes` case bits applied, and bytes above `0x7F` decoded with the
/// code page `page`.
#[verifier::rlimit(40)]
pub fn display<C: OemCpConverter>(
    stored: &[u8; 11],
    nt_case: u8,
    page: &C,
    out: &mut [u8; DISPLAY_MAX],
) -> (n: usize)
    ensures
        n == encode_utf8(display_chars(*page, stored@, nt_case)).len(),
        final(out)@ == encode_utf8(display_chars(*page, stored@, nt_case)) + old(out)@.skip(n as int),
{
    let mut name = *stored;
    from_disk(&mut name);
    let base_end = trimmed_end(&name, 0, 8);
    let ext_end = trimmed_end(&name, 8, 11);
    assert(name@.take(8) =~= name@.subrange(0, 8));
    let ghost body = shown(*page, name@.subrange(0, base_end as int), nt_case & LOWER_BASE != 0);
    let mut len = put_shown(&name, 0, base_end, nt_case & LOWER_BASE != 0, page, out, 0);
    assert(out@ =~= encode_utf8(body) + old(out)@.skip(len as int));
    if ext_end > 8 {
        let ghost dot_at = len;
        let w = crate::name::put_utf8('.', out, len);
        assert(out@ =~= encode_utf8(body) + encode_utf8(seq!['.']) + old(out)@.skip(len + w)) by {
            assert(encode_utf8(seq!['.']) =~= vstd::utf8::encode_scalar('.' as u32)) by {
                crate::name::lemma_encode_utf8_push(Seq::<char>::empty(), '.');
                assert(Seq::<char>::empty().push('.') =~= seq!['.']);
                assert(encode_utf8(Seq::<char>::empty()) =~= Seq::<u8>::empty());
            }
        }
        len = len + w;
        let ghost ext_chars = shown(*page, name@.subrange(8, ext_end as int), nt_case & LOWER_EXT != 0);
        let e = put_shown(&name, 8, ext_end, nt_case & LOWER_EXT != 0, page, out, len);
        proof {
            crate::name::lemma_encode_utf8_append(body, seq!['.']);
            crate::name::lemma_encode_utf8_append(body + seq!['.'], ext_chars);
            assert(out@ =~= encode_utf8(body + seq!['.'] + ext_chars) + old(out)@.skip(len + e));
        }
        len = len + e;
    }
    len
}

/// Appends to `out` how the bytes of `name` from `from` up to `to` are
/// shown.
fn push_shown<C: OemCpConverter>(
    name: &[u8; 11],
    from: usize,
    to: usize,
    lower: bool,
    page: &C,
    out: &mut Vec<char>,
)
    requires
        from <= to <= 11,
    ensures
        final(out)@ == old(out)@ + shown(*page, name@.subrange(from as int, to as int), lower),
{
    let ghost part = name@.subrange(from as int, to as int);
    let mut i = from;
    assert(old(out)@ + shown(*page, part.take(0), lower) =~= old(out)@);
    while i < to
        invariant
            from <= i <= to <= 11,
            part == name@.subrange(from as int, to as int),
            out@ == old(out)@ + shown(*page, part.take(i - from), lower),
        decreases to - i,
    {
        let b = name[i];
        let ch = if b < 0x80 {
            if lower && 0x41 <= b && b <= 0x5A {
                (b + 0x20) as char
            } else {
                b as char
            }
        } else {
            page.decode(b)
        };
        out.push(ch);
        assert(out@ =~= old(out)@ + shown(*page, part.take(i + 1 - from), lower));
        i += 1;
    }
    assert(part.take(to - from) =~= part);
}

/// The characters of the display form of the stored short name `stored`,
/// as [`display`] writes them in UTF-8.
pub fn display_chars_of<C: OemCpConverter>(stored: &[u8; 11], nt_case: u8, page: &C) -> (v: Vec<
    char,
>)
    ensures
        v@ == display_chars(*page, stored@, nt_case),
{
    let mut name = *stored;
    from_disk(&mut name);
    let base_end = trimmed_end(&name, 0, 8);
    let ext_end = trimmed_end(&name, 8, 11);
    assert(name@.take(8) =~= name@.subrange(0, 8));
    let mut v: Vec<char> = Vec::new();
    push_shown(&name, 0, base_end, nt_case & LOWER_BASE != 0, page, &mut v);
    assert(v@ =~= shown(*page, name@.subrange(0, base_end as int), nt_case & LOWER_BASE != 0));
    if ext_end > 8 {
        v.push('.');
        push_shown(&name, 8, ext_end, nt_case & LOWER_EXT != 0, page, &mut v);
    }
    v
}

/// Whether `page` gives each character outside ASCII a byte outside
/// ASCII, or none.
pub open spec fn high_page<C: OemCpConverter>(page: C) -> bool {
    forall|ch: char|
        (ch as u32) >= 0x80 ==> match #[trigger] page.spec_encode(ch) {
            Some(b) => b >= 0x80,
            None => true,
        }
}

/// Whether `b` may stand in a generated short name before its padding:
/// not a control byte, a space, a dot or a lowercase ASCII letter.
pub open spec fn name_byte(b: u8) -> bool {
    b > 0x20 && b != 0x2E && !(0x61 <= b <= 0x7A)
}

/// Whether `b` is an uppercase hexadecimal digit.
pub open spec fn hex_byte(b: u8) -> bool {
    0x30 <= b <= 0x39 || 0x41 <= b <= 0x46
}

/// Whether `s` is bytes that may stand in a short name, then spaces only.
pub open spec fn name_then_spaces(s: Seq<u8>) -> bool {
    &&& s == padded(trimmed(s), s.len() as int)
    &&& forall|i: int| 0 <= i < trimmed(s).len() ==> name_byte(#[trigger] trimmed(s)[i])
}

/// A character becomes no byte exactly when it is a space or a dot, and
/// otherwise a byte that may stand in a short name.
proof fn lemma_process_byte<C: OemCpConverter>(page: C, ch: char)
    requires
        high_page(page),
    ensures
        (spec_process(page, ch) == 0) == (ch == ' ' || ch == '.'),
        spec_process(page, ch) != 0 ==> name_byte(spec_process(page, ch)),
{
    let c = ch as u32;
    if c >= 0x80 {
        assert(match page.spec_encode(ch) {
            Some(b) => b >= 0x80,
            None => true,
        });
    }
}

/// Both code pages of this crate give characters outside ASCII bytes
/// outside ASCII, or none.
pub proof fn lemma_code_pages_are_high()
    ensures
        high_page(LossyAsciiOemCpConverter),
        high_page(Cp437OemCpConverter),
{
    assert forall|ch: char| (ch as u32) >= 0x80 implies match #[trigger] Cp437OemCpConverter.spec_encode(
        ch,
    ) {
        Some(b) => b >= 0x80,
        None => true,
    } by {
        lemma_index_from(CP437_HIGH@, ch, 0);
    }
}

/// What a part of a name becomes holds only bytes that may stand in a
/// short name, and is empty only when the part is all spaces and dots.
proof fn lemma_processed_bytes<C: OemCpConverter>(page: C, s: Seq<char>)
    requires
        high_page(page),
    ensures
        forall|i: int| 0 <= i < processed(page, s).len() ==> name_byte(#[trigger] processed(page, s)[i]),
        processed(page, s).len() == 0 ==> forall|i: int| 0 <= i < s.len() ==> #[trigger] s[i] == '.'
            || s[i] == ' ',
    decreases s.len(),
{
    if s.len() > 0 {
        let rest = s.drop_last();
        lemma_processed_bytes(page, rest);
        lemma_process_byte(page, s.last());
        if processed(page, s).len() == 0 {
            assert forall|i: int| 0 <= i < s.len() implies #[trigger] s[i] == '.' || s[i] == ' ' by {
                if i < rest.len() {
                    assert(rest[i] == s[i]);
                }
            }
        }
    }
}

/// Padding bytes whose last is not a space, then trimming, gives them back.
proof fn lemma_trimmed_padded(t: Seq<u8>, n: int)
    requires
        t.len() <= n,
        t.len() > 0 ==> t.last() != 0x20,
    ensures
        trimmed(padded(t, n)) == t,
    decreases n - t.len(),
{
    if n > t.len() {
        assert(padded(t, n).drop_last() =~= padded(t, n - 1));
        lemma_trimmed_padded(t, n - 1);
    } else {
        assert(padded(t, n) =~= t);
    }
}

/// Bytes that may stand in a short name, padded: they are what trimming
/// keeps, and the rest is spaces.
proof fn lemma_name_then_spaces(t: Seq<u8>, n: int)
    requires
        t.len() <= n,
        forall|i: int| 0 <= i < t.len() ==> name_byte(#[trigger] t[i]),
    ensures
        name_then_spaces(padded(t, n)),
        trimmed(padded(t, n)) == t,
{
    if t.len() > 0 {
        assert(name_byte(t[t.len() - 1]));
    }
    lemma_trimmed_padded(t, n);
}

/// The hexadecimal digit of a nibble is an uppercase hexadecimal digit.
proof fn lemma_hex_digit(h: u16, shift: u16)
    requires
        shift <= 12,
    ensures
        hex_byte(hex_digit((h >> shift) & 0xF)),
        h >> 0u16 == h,
{
    assert((h >> shift) & 0xF < 16 && h >> 0u16 == h) by (bit_vector);
}

/// What [`generate`] makes is a short name: with a numeric tail there is
/// always one; its first byte is not a space; the base and the extension
/// are each bytes that may stand in a short name (no control byte, space,
/// dot or lowercase letter) followed by spaces only; and the base ends in
/// `~N` for a suffix `N` from 1 to 4, or in `~` and four uppercase
/// hexadecimal digits above that. This holds for every code page that
/// gives characters outside ASCII bytes outside ASCII.
pub proof fn lemma_generated_short_name<C: OemCpConverter>(page: C, name: Seq<char>, suffix: u8)
    requires
        high_page(page),
    ensures
        suffix > 0 ==> spec_generate(page, name, suffix) is Some,
        spec_generate(page, name, suffix) matches Some(o) ==> {
            let base = trimmed(o.take(8));
            &&& o.len() == 11
            &&& o[0] != 0x20
            &&& name_then_spaces(o.take(8))
            &&& name_then_spaces(o.subrange(8, 11))
            &&& 1 <= suffix <= 4 ==> base.len() >= 2 && base[base.len() - 2] == 0x7E
                && base[base.len() - 1] == 0x30 + suffix
            &&& suffix >= 5 ==> base.len() >= 5 && base[base.len() - 5] == 0x7E && forall|
                j: int,
            | base.len() - 4 <= j < base.len() ==> hex_byte(#[trigger] base[j])
        },
{
    let (base, ext) = name_parts(name);
    let (b0, e0) = split_name(name);
    let pb = processed(page, base);
    let pe = processed(page, ext);
    lemma_processed_bytes(page, base);
    lemma_processed_bytes(page, ext);
    let kept: int = if suffix == 0 {
        8
    } else if suffix <= 4 {
        6
    } else {
        2
    };
    let tail = numeric_tail(name, suffix);
    let h = spec_hash(vstd::utf8::encode_utf8(name), suffix);
    if suffix >= 5 {
        lemma_hex_digit(h, 12);
        lemma_hex_digit(h, 8);
        lemma_hex_digit(h, 4);
        lemma_hex_digit(h, 0);
    }
    let stem = if suffix == 0 {
        at_most(pb, kept)
    } else {
        at_most(pb, kept) + tail
    };
    let extension = at_most(pe, 3);
    assert forall|i: int| 0 <= i < stem.len() implies name_byte(#[trigger] stem[i]) by {
        if i < at_most(pb, kept).len() {
            assert(stem[i] == pb[i]);
        } else {
            assert(stem[i] == tail[i - at_most(pb, kept).len()]);
        }
    }
    assert forall|i: int| 0 <= i < extension.len() implies name_byte(#[trigger] extension[i]) by {
        assert(extension[i] == pe[i]);
    }
    if suffix == 0 && stem.len() == 0 && extension.len() != 0 {
        assert(pb.len() == 0);
        if e0.len() > 0 && forall|i: int| 0 <= i < b0.len() ==> #[trigger] b0[i] == '.' || b0[i] == ' ' {
            assert(ext.len() == 0);
        } else if e0.len() > 0 {
            let j = choose|j: int| 0 <= j < b0.len() && !(#[trigger] b0[j] == '.' || b0[j] == ' ');
            assert(base[j] == b0[j]);
        }
        assert(false);
    }
    if spec_generate(page, name, suffix) is Some {
        let o = padded(stem, 8) + padded(extension, 3);
        lemma_name_then_spaces(stem, 8);
        lemma_name_then_spaces(extension, 3);
        assert(o.take(8) =~= padded(stem, 8));
        assert(o.subrange(8, 11) =~= padded(extension, 3));
        assert(o[0] == padded(stem, 8)[0]);
        if stem.len() > 0 {
            assert(padded(stem, 8)[0] == stem[0]);
        }
        if suffix > 0 {
            let front = at_most(pb, kept);
            assert(stem.len() == front.len() + tail.len());
            assert forall|j: int| 0 <= j < tail.len() implies stem[front.len() + j] == tail[j] by {}
        }
    }
}

/// A character that may stand in a short name alone is shown back as
/// itself from the byte it becomes, lowercased where the case bit says so.
proof fn lemma_short_char_shown<C: OemCpConverter, D: OemCpConverter>(
    page: C,
    show: D,
    ch: char,
    lower: bool,
)
    requires
        short_char(ch),
        ascii_lower(ch as u32) ==> lower,
        ascii_upper(ch as u32) ==> !lower,
    ensures
        spec_process(page, ch) > 0x20,
        shown_char(show, spec_process(page, ch), lower) == ch,
{
    let c = ch as u32;
    let b = spec_process(page, ch);
    if ascii_lower(c) {
        assert(b == (c - 0x20) as u8);
        assert(((b + 0x20) as u8) as u32 == c);
    } else {
        assert(b == c as u8);
        assert(b as u32 == c);
    }
}

/// What a part of a name made of characters that may stand in a short
/// name alone becomes: one byte for each character.
proof fn lemma_processed_short<C: OemCpConverter>(page: C, p: Seq<char>)
    requires
        forall|i: int| 0 <= i < p.len() ==> short_char(#[trigger] p[i]),
    ensures
        processed(page, p) == Seq::new(p.len(), |i: int| spec_process(page, p[i])),
    decreases p.len(),
{
    if p.len() > 0 {
        let rest = p.drop_last();
        assert forall|i: int| 0 <= i < rest.len() implies short_char(#[trigger] rest[i]) by {
            assert(rest[i] == p[i]);
        }
        lemma_processed_short(page, rest);
        lemma_short_char_shown(page, page, p.last(), ascii_lower(p.last() as u32));
        assert(processed(page, p) =~= Seq::new(p.len(), |i: int| spec_process(page, p[i])));
    }
}

/// A part of a name whose case [`spec_part_lower`] settles is shown back
/// as itself from the bytes it becomes.
proof fn lemma_part_shown<C: OemCpConverter, D: OemCpConverter>(
    page: C,
    show: D,
    p: Seq<char>,
    lower: bool,
)
    requires
        spec_part_lower(p) == Some(lower),
    ensures
        forall|i: int| 0 <= i < p.len() ==> short_char(#[trigger] p[i]),
        processed(page, p).len() == p.len(),
        forall|i: int| 0 <= i < p.len() ==> #[trigger] processed(page, p)[i] > 0x20,
        shown(show, processed(page, p), lower) == p,
{
    assert forall|i: int| 0 <= i < p.len() implies short_char(#[trigger] p[i]) by {
        if !short_char(p[i]) {
            assert(exists|j: int| 0 <= j < p.len() && !short_char(#[trigger] p[j]));
        }
    }
    lemma_processed_short(page, p);
    assert forall|i: int| 0 <= i < p.len() implies #[trigger] processed(page, p)[i] > 0x20
        && shown_char(show, processed(page, p)[i], lower) == p[i] by {
        if ascii_lower(p[i] as u32) {
            assert(exists|j: int| 0 <= j < p.len() && ascii_lower(#[trigger] p[j] as u32));
        }
        if ascii_upper(p[i] as u32) {
            assert(exists|j: int| 0 <= j < p.len() && ascii_upper(#[trigger] p[j] as u32));
        }
        lemma_short_char_shown(page, show, p[i], lower);
    }
    assert(shown(show, processed(page, p), lower) =~= p);
}

/// A name a short entry can hold alone, and that does not end in a dot,
/// shows back exactly: [`generate`] without a tail stores it, and
/// [`display`] with its [`case_bits`] gives the name again. This holds
/// whatever the code page `page` it is stored with and the code page
/// `show` it is shown with.
pub proof fn lemma_short_name_round_trip<C: OemCpConverter, D: OemCpConverter>(
    page: C,
    show: D,
    name: Seq<char>,
)
    requires
        spec_case_bits(name) is Some,
        name.len() > 0 ==> name.last() != '.',
    ensures
        spec_generate(page, name, 0) matches Some(o) && display_chars(
            show,
            o,
            spec_case_bits(name)->Some_0,
        ) == name,
{
    let (b0, e0) = split_name(name);
    let lb = spec_part_lower(b0)->Some_0;
    let le = spec_part_lower(e0)->Some_0;
    let bits = spec_case_bits(name)->Some_0;
    lemma_last_dot(name);
    lemma_part_shown(page, show, b0, lb);
    lemma_part_shown(page, show, e0, le);
    assert(name_parts(name) == (b0, e0)) by {
        if e0.len() > 0 {
            assert(!(b0[0] == '.' || b0[0] == ' '));
        }
    }
    let pb = processed(page, b0);
    let pe = processed(page, e0);
    assert(at_most(pb, 8) == pb);
    assert(at_most(pe, 3) == pe);
    let o = padded(pb, 8) + padded(pe, 3);
    assert(spec_generate(page, name, 0) == Some(o));
    lemma_trimmed_padded(pb, 8);
    lemma_trimmed_padded(pe, 3);
    assert(o.take(8) =~= padded(pb, 8));
    assert(o.subrange(8, 11) =~= padded(pe, 3));
    assert(o[0] == pb[0]);
    let lower_base: u8 = if lb { LOWER_BASE } else { 0 };
    let lower_ext: u8 = if le { LOWER_EXT } else { 0 };
    assert(bits == (lower_base + lower_ext) as u8);
    assert((bits & LOWER_BASE != 0) == lb && (bits & LOWER_EXT != 0) == le) by (bit_vector)
        requires
            bits == (lower_base + lower_ext) as u8,
            lower_base == (if lb { 0x08u8 } else { 0u8 }),
            lower_ext == (if le { 0x10u8 } else { 0u8 }),
            LOWER_BASE == 0x08u8,
            LOWER_EXT == 0x10u8,
    ;
    match last_dot(name) {
        Some(k) => {
            if k == 0 {
                assert(b0[0] == '.');
                assert(false);
            }
            assert(e0.len() > 0);
            assert(name =~= b0 + seq!['.'] + e0);
        },
        None => {
            assert(b0 == name);
        },
    }
}

/// Whether `ch` is one of the punctuation characters a short name allows:
/// `$ % ' - _ @ ~ ` ! ( ) { } ^ # &`.
pub open spec fn short_punctuation(ch: char) -> bool {
    ||| ch == '$'
    ||| ch == '%'
    ||| ch == '\''
    ||| ch == '-'
    ||| ch == '_'
    ||| ch == '@'
    ||| ch == '~'
    ||| ch == '`'
    ||| ch == '!'
    ||| ch == '('
    ||| ch == ')'
    ||| ch == '{'
    ||| ch == '}'
    ||| ch == '^'
    ||| ch == '#'
    ||| ch == '&'
}

/// How each ASCII character fares in a short name, whatever the code
/// page: letters uppercased and digits kept; the punctuation short names
/// allow, `$ % ' - _ @ ~ ` ! ( ) { } ^ # &`, kept as itself; spaces and
/// dots dropped; anything else `_`. Letters, digits and that punctuation
/// are exactly the ASCII characters a short entry can hold alone.
pub proof fn lemma_ascii_in_short_names<C: OemCpConverter>(page: C, ch: char)
    requires
        (ch as u32) < 0x80,
    ensures
        ('a' <= ch <= 'z') ==> spec_process(page, ch) == (ch as u32 - 0x20) as u8,
        ('A' <= ch <= 'Z' || '0' <= ch <= '9') ==> spec_process(page, ch) == ch as u32 as u8,
        short_punctuation(ch) ==> spec_process(page, ch) == ch as u32 as u8,
        (ch == ' ' || ch == '.') ==> spec_process(page, ch) == 0,
        !('a' <= ch <= 'z' || 'A' <= ch <= 'Z' || '0' <= ch <= '9' || short_punctuation(ch) || ch
            == ' ' || ch == '.') ==> spec_process(page, ch) == 0x5F,
        short_char(ch) == ('a' <= ch <= 'z' || 'A' <= ch <= 'Z' || '0' <= ch <= '9'
            || short_punctuation(ch)),
{
}

} // verus!
