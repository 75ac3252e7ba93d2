//! exFAT: little-endian field access, entry sets, the formatter's layout
//! and what `check` reports.

use vstd::prelude::*;
use crate::bytes::{get16, get32, get64, read16, read32};

pub mod findings;
pub mod set;
pub mod mkfs;
pub mod options;
pub mod upcase;
pub mod boot;
pub mod format;
pub mod check;
pub mod embedded;
pub mod raw;

verus! {

/// Reads a little-endian `u16` at `at`.
pub fn le16(bytes: &[u8], at: usize) -> (v: u16)
    requires
        at + 2 <= bytes@.len(),
    ensures
        v == get16(bytes@, at as int),
{
    read16(bytes, at)
}

/// Reads a little-endian `u32` at `at`.
pub fn le32(bytes: &[u8], at: usize) -> (v: u32)
    requires
        at + 4 <= bytes@.len(),
    ensures
        v == get32(bytes@, at as int),
{
    read32(bytes, at)
}

/// Reads a little-endian `u64` at `at`.
pub fn le64(bytes: &[u8], at: usize) -> (v: u64)
    requires
        at + 8 <= bytes@.len(),
    ensures
        v == get64(bytes@, at as int),
{
    let len = bytes.len();
    assert(at + 8 <= len);
    let lo = le32(bytes, at);
    let hi = le32(bytes, at + 4);
    lo as u64 | ((hi as u64) << 32u64)
}

} // verus!
