//! Name comparison, and UTF-16 and UTF-8 conversion of name characters.

use vstd::prelude::*;
use vstd::utf8::{encode_scalar, encode_utf8, is_scalar};
use crate::utf16::{decode, is_high, is_low, pair_value};

verus! {

/// `char::from_u32`: the character of code `i`, or `None` when `i` is not
/// a Unicode scalar value (a surrogate, or above U+10FFFF).
pub assume_specification[char::from_u32](i: u32) -> (r: Option<char>)
    ensures
        r == (if is_scalar(i) {
            Some(i as char)
        } else {
            None::<char>
        }),
;

/// The first two characters of the uppercase mapping of `ch`, as
/// `char::to_uppercase` gives them.
pub uninterp spec fn uppercase_of(ch: char) -> (Option<char>, Option<char>);

/// Calls `char::to_uppercase` and takes the first two characters of the
/// mapping it yields. The mapping comes from the Unicode tables of the
/// standard library; nothing here states them.
#[verifier::external_body]
fn uppercase_pair(ch: char) -> (r: (Option<char>, Option<char>))
    ensures
        r == uppercase_of(ch),
{
    let mut upper = ch.to_uppercase();
    let first = upper.next();
    (first, upper.next())
}

/// `String::from_iter` over characters: the text made of `chars`, in
/// order, as the standard library documents collecting characters into a
/// `String`.
#[verifier::external_body]
pub(crate) fn string_of(chars: Vec<char>) -> (text: String)
    ensures
        text@ == chars@,
{
    String::from_iter(chars)
}

/// Whether `ch` is ASCII.
pub open spec fn is_ascii_char(ch: char) -> bool {
    (ch as u32) < 0x80
}

/// `ch` with an ASCII lowercase letter made uppercase.
pub open spec fn ascii_upper_char(ch: char) -> char {
    if 0x61 <= ch as u32 <= 0x7A {
        ((ch as u32) - 0x20) as char
    } else {
        ch
    }
}

/// The case folding lookups use: ASCII uppercased, otherwise the
/// one-character uppercase mapping, or the character itself when its
/// uppercase form has several characters.
pub open spec fn spec_fold(ch: char) -> char {
    if is_ascii_char(ch) {
        ascii_upper_char(ch)
    } else {
        match uppercase_of(ch) {
            (Some(single), None) => single,
            _ => ch,
        }
    }
}

/// The case folding lookups use: the one-character uppercase mapping, or
/// the character itself when its uppercase form has several characters.
pub fn fold(ch: char) -> (r: char)
    ensures
        r == spec_fold(ch),
{
    let c = ch as u32;
    if c < 0x80 {
        if 0x61 <= c && c <= 0x7A {
            return ((c - 0x20) as u8) as char;
        }
        return ch;
    }
    match uppercase_pair(ch) {
        (Some(single), None) => single,
        _ => ch,
    }
}

/// Whether two names are equal after [`fold`], character by character.
pub open spec fn spec_eq_ignore_case(a: Seq<char>, b: Seq<char>) -> bool {
    &&& a.len() == b.len()
    &&& forall|i: int| 0 <= i < a.len() ==> spec_fold(#[trigger] a[i]) == spec_fold(b[i])
}

/// Whether two names are equal after [`fold`].
pub fn eq_ignore_case(a: &str, b: &str) -> (r: bool)
    ensures
        r == spec_eq_ignore_case(a@, b@),
{
    let ca = crate::short_name::chars_of(a);
    let cb = crate::short_name::chars_of(b);
    if ca.len() != cb.len() {
        return false;
    }
    let mut i: usize = 0;
    while i < ca.len()
        invariant
            ca@ == a@,
            cb@ == b@,
            ca@.len() == cb@.len(),
            i <= ca@.len(),
            forall|j: int| 0 <= j < i ==> spec_fold(#[trigger] ca@[j]) == spec_fold(cb@[j]),
        decreases ca@.len() - i,
    {
        if fold(ca[i]) != fold(cb[i]) {
            assert(spec_fold(ca@[i as int]) != spec_fold(cb@[i as int]));
            return false;
        }
        i += 1;
    }
    true
}

/// The fold of an ASCII character: each lowercase letter `a` to `z`
/// becomes its uppercase letter, 0x20 below it, and every other ASCII
/// character stays as it is.
pub proof fn lemma_fold_ascii(ch: char)
    requires
        (ch as u32) < 0x80,
    ensures
        0x61 <= ch as u32 <= 0x7A ==> spec_fold(ch) as u32 == ch as u32 - 0x20,
        !(0x61 <= ch as u32 <= 0x7A) ==> spec_fold(ch) == ch,
        spec_fold(spec_fold(ch)) == spec_fold(ch),
{
}

/// Names that differ only in the case of ASCII letters compare equal:
/// where the characters differ, one is a lowercase letter `a` to `z` and
/// the other its uppercase letter.
pub proof fn lemma_eq_ignore_ascii_case(a: Seq<char>, b: Seq<char>)
    requires
        a.len() == b.len(),
        forall|i: int|
            0 <= i < a.len() ==> {
                ||| a[i] == b[i]
                ||| 0x61 <= a[i] as u32 <= 0x7A && b[i] as u32 == a[i] as u32 - 0x20
                ||| 0x61 <= b[i] as u32 <= 0x7A && a[i] as u32 == b[i] as u32 - 0x20
            },
    ensures
        spec_eq_ignore_case(a, b),
{
    assert forall|i: int| 0 <= i < a.len() implies spec_fold(#[trigger] a[i]) == spec_fold(b[i]) by {
        if a[i] != b[i] {
            lemma_fold_ascii(a[i]);
            lemma_fold_ascii(b[i]);
        }
    }
}

/// A name compares equal to itself, and comparing is symmetric.
pub proof fn lemma_eq_ignore_case_reflexive_symmetric(a: Seq<char>, b: Seq<char>)
    ensures
        spec_eq_ignore_case(a, a),
        spec_eq_ignore_case(a, b) == spec_eq_ignore_case(b, a),
{
}

/// The characters of UTF-16 code units, with unpaired surrogates replaced
/// by U+FFFD.
pub fn utf16_chars(units: &[u16]) -> (v: Vec<char>)
    ensures
        v@ == decode(units@),
{
    let n = units.len();
    let mut v: Vec<char> = Vec::new();
    let mut i: usize = 0;
    assert(units@.skip(0) =~= units@);
    assert(v@ + decode(units@) =~= decode(units@));
    while i < n
        invariant
            n == units@.len(),
            i <= n,
            decode(units@) == v@ + decode(units@.skip(i as int)),
        decreases n - i,
    {
        let ghost rest = units@.skip(i as int);
        let u = units[i];
        if 0xD800 <= u && u < 0xDC00 && i + 1 < n && 0xDC00 <= units[i + 1] && units[i + 1] < 0xE000 {
            let lo = units[i + 1];
            let value = 0x1_0000 + ((u - 0xD800) as u32) * 0x400 + (lo - 0xDC00) as u32;
            assert(value == pair_value(u, lo));
            let ch = match char::from_u32(value) {
                Some(ch) => ch,
                None => '\u{FFFD}',
            };
            proof {
                assert(rest[0] == u && rest[1] == lo);
                assert(rest.skip(2) =~= units@.skip(i + 2));
                assert(decode(rest) == seq![ch] + decode(rest.skip(2)));
                assert(v@.push(ch) + decode(units@.skip(i + 2)) =~= v@ + (seq![ch] + decode(
                    units@.skip(i + 2),
                )));
            }
            v.push(ch);
            i += 2;
        } else {
            let ch = if 0xD800 <= u && u < 0xE000 {
                '\u{FFFD}'
            } else {
                match char::from_u32(u as u32) {
                    Some(ch) => ch,
                    None => '\u{FFFD}',
                }
            };
            proof {
                assert(rest[0] == u);
                assert(rest.skip(1) =~= units@.skip(i + 1));
                if !(0xD800 <= u && u < 0xE000) {
                    assert(ch == (u as u32) as char);
                }
                assert(decode(rest) == seq![ch] + decode(rest.skip(1)));
                assert(v@.push(ch) + decode(units@.skip(i + 1)) =~= v@ + (seq![ch] + decode(
                    units@.skip(i + 1),
                )));
            }
            v.push(ch);
            i += 1;
        }
    }
    assert(decode(units@.skip(i as int)) =~= Seq::<char>::empty());
    assert(v@ + Seq::<char>::empty() =~= v@);
    v
}

/// The UTF-8 encoding of a concatenation is the concatenation of the
/// encodings.
pub proof fn lemma_encode_utf8_append(a: Seq<char>, b: Seq<char>)
    ensures
        encode_utf8(a + b) == encode_utf8(a) + encode_utf8(b),
    decreases a.len(),
{
    if a.len() == 0 {
        assert(a + b =~= b);
        assert(encode_utf8(a) + encode_utf8(b) =~= encode_utf8(b));
    } else {
        lemma_encode_utf8_append(a.drop_first(), b);
        assert((a + b).drop_first() =~= a.drop_first() + b);
        assert((a + b)[0] == a[0]);
        assert(encode_scalar(a[0] as u32) + (encode_utf8(a.drop_first()) + encode_utf8(b))
            =~= encode_scalar(a[0] as u32) + encode_utf8(a.drop_first()) + encode_utf8(b));
    }
}

/// Encoding one more character appends its scalar's encoding.
pub proof fn lemma_encode_utf8_push(s: Seq<char>, c: char)
    ensures
        encode_utf8(s.push(c)) == encode_utf8(s) + encode_scalar(c as u32),
{
    lemma_encode_utf8_append(s, seq![c]);
    assert(s + seq![c] =~= s.push(c));
    assert(seq![c].drop_first() =~= Seq::<char>::empty());
    assert(encode_scalar(c as u32) + encode_utf8(Seq::<char>::empty()) =~= encode_scalar(c as u32));
}

/// Writes the UTF-8 encoding of `ch` into `out` at `at` and returns its
/// length.
pub fn put_utf8(ch: char, out: &mut [u8], at: usize) -> (n: usize)
    requires
        at + encode_scalar(ch as u32).len() <= old(out)@.len(),
    ensures
        n == encode_scalar(ch as u32).len(),
        1 <= n <= 4,
        final(out)@.len() == old(out)@.len(),
        final(out)@.subrange(at as int, at + n) == encode_scalar(ch as u32),
        forall|j: int|
            0 <= j < old(out)@.len() && !(at <= j < at + n) ==> #[trigger] final(out)@[j] == old(
                out,
            )@[j],
{
    let scalar = ch as u32;
    proof {
        vstd::utf8::char_is_scalar(ch);
    }
    let ghost start = out@;
    if scalar <= 0x7F {
        out[at] = (scalar & 0x7F) as u8;
        assert(out@.subrange(at as int, at + 1) =~= encode_scalar(scalar));
        1
    } else if scalar <= 0x7FF {
        out[at] = 0xC0 | ((scalar >> 6u32) & 0x1F) as u8;
        out[at + 1] = 0x80 | (scalar & 0x3F) as u8;
        assert(out@.subrange(at as int, at + 2) =~= encode_scalar(scalar));
        2
    } else if scalar <= 0xFFFF {
        out[at] = 0xE0 | ((scalar >> 12u32) & 0x0F) as u8;
        out[at + 1] = 0x80 | ((scalar >> 6u32) & 0x3F) as u8;
        out[at + 2] = 0x80 | (scalar & 0x3F) as u8;
        assert(out@.subrange(at as int, at + 3) =~= encode_scalar(scalar));
        3
    } else {
        out[at] = 0xF0 | ((scalar >> 18u32) & 0x7) as u8;
        out[at + 1] = 0x80 | ((scalar >> 12u32) & 0x3F) as u8;
        out[at + 2] = 0x80 | ((scalar >> 6u32) & 0x3F) as u8;
        out[at + 3] = 0x80 | (scalar & 0x3F) as u8;
        assert(out@.subrange(at as int, at + 4) =~= encode_scalar(scalar));
        4
    }
}

/// The UTF-8 length of `ch`.
pub fn utf8_len(ch: char) -> (n: usize)
    ensures
        n == encode_scalar(ch as u32).len(),
{
    let c = ch as u32;
    if c <= 0x7F {
        1
    } else if c <= 0x7FF {
        2
    } else if c <= 0xFFFF {
        proof {
            vstd::utf8::char_is_scalar(ch);
        }
        3
    } else {
        4
    }
}

/// How many of the first characters of `cs` fit, UTF-8 encoded, in `cap`
/// bytes.
pub open spec fn fitting(cs: Seq<char>, cap: int) -> nat
    decreases cs.len(),
{
    if encode_utf8(cs).len() <= cap || cs.len() == 0 {
        cs.len()
    } else {
        fitting(cs.drop_last(), cap)
    }
}

/// A prefix of `cs` encodes to a prefix of what `cs` encodes to.
pub proof fn lemma_encode_utf8_prefix(cs: Seq<char>, i: int)
    requires
        0 <= i <= cs.len(),
    ensures
        encode_utf8(cs.take(i)).len() <= encode_utf8(cs).len(),
        encode_utf8(cs).take(encode_utf8(cs.take(i)).len() as int) == encode_utf8(cs.take(i)),
{
    lemma_encode_utf8_append(cs.take(i), cs.skip(i));
    assert(cs.take(i) + cs.skip(i) =~= cs);
    assert((encode_utf8(cs.take(i)) + encode_utf8(cs.skip(i))).take(encode_utf8(cs.take(i)).len() as int)
        =~= encode_utf8(cs.take(i)));
}

/// When the first `k` characters fit and the first `k + 1` do not, `k` is
/// how many fit.
pub proof fn lemma_fitting(cs: Seq<char>, cap: int, k: int)
    requires
        0 <= k < cs.len(),
        encode_utf8(cs.take(k)).len() <= cap,
        encode_utf8(cs.take(k + 1)).len() > cap,
    ensures
        fitting(cs, cap) == k,
    decreases cs.len(),
{
    lemma_encode_utf8_prefix(cs, k + 1);
    let d = cs.drop_last();
    assert(encode_utf8(cs).len() > cap);
    assert(fitting(cs, cap) == fitting(d, cap));
    if cs.len() == k + 1 {
        assert(d =~= cs.take(k));
        assert(fitting(d, cap) == k);
    } else {
        assert(d.take(k) =~= cs.take(k));
        assert(d.take(k + 1) =~= cs.take(k + 1));
        lemma_fitting(d, cap, k);
    }
}

/// Writes `units` as UTF-8 into `out` and returns the length, or `None`
/// when `out` is too small; then `out` holds the characters that fit.
pub fn utf16_to_utf8(units: &[u16], out: &mut [u8]) -> (r: Option<usize>)
    ensures
        ({
            let cs = decode(units@);
            let written = encode_utf8(cs.take(fitting(cs, old(out)@.len() as int) as int));
            &&& r == (if encode_utf8(cs).len() <= old(out)@.len() {
                Some(encode_utf8(cs).len() as usize)
            } else {
                None::<usize>
            })
            &&& final(out)@ == written + old(out)@.skip(written.len() as int)
        }),
{
    let chars = utf16_chars(units);
    let ghost cs = chars@;
    let cap = out.len();
    let mut len: usize = 0;
    let mut k: usize = 0;
    assert(cs.take(0) =~= Seq::<char>::empty());
    assert(out@ =~= encode_utf8(cs.take(0)) + old(out)@.skip(0));
    while k < chars.len()
        invariant
            cs == chars@,
            cs == decode(units@),
            cap == old(out)@.len(),
            out@.len() == cap,
            k <= cs.len(),
            len == encode_utf8(cs.take(k as int)).len(),
            len <= cap,
            out@ == encode_utf8(cs.take(k as int)) + old(out)@.skip(len as int),
        decreases cs.len() - k,
    {
        let ch = chars[k];
        proof {
            assert(cs.take(k + 1) =~= cs.take(k as int).push(ch));
            lemma_encode_utf8_push(cs.take(k as int), ch);
        }
        let width = utf8_len(ch);
        if width > cap - len {
            proof {
                assert(encode_utf8(cs.take(k + 1)).len() == len + width);
                lemma_fitting(cs, cap as int, k as int);
                lemma_encode_utf8_prefix(cs, k + 1);
            }
            return None;
        }
        let ghost before = out@;
        let n = put_utf8(ch, out, len);
        proof {
            assert(out@ =~= encode_utf8(cs.take(k + 1)) + old(out)@.skip(len + n));
        }
        len = len + n;
        k = k + 1;
    }
    assert(cs.take(k as int) =~= cs);
    Some(len)
}

} // verus!
