//! Native-endian integer encodings, as std's `from_ne_bytes` / `to_ne_bytes`
//! define them. The byte order is the target's, so the decoded values are
//! named rather than spelled out.
use vstd::prelude::*;

verus! {

/// Width in bytes of `usize` (and of `size_t`) on this target.
pub open spec fn usize_width() -> nat {
    (usize::BITS / 8) as nat
}

/// `usize::BITS / 8`, computed.
pub fn usize_width_exec() -> (w: usize)
    ensures
        w == usize_width(),
        w == 4 || w == 8,
{
    (usize::BITS / 8) as usize
}

/// What `usize::from_ne_bytes` returns for these bytes.
pub uninterp spec fn spec_usize_from_ne_bytes(bytes: Seq<u8>) -> usize;

/// What `i32::from_ne_bytes` returns for these bytes.
pub uninterp spec fn spec_i32_from_ne_bytes(bytes: Seq<u8>) -> i32;

/// What `u32::from_ne_bytes` returns for these bytes.
pub uninterp spec fn spec_u32_from_ne_bytes(bytes: Seq<u8>) -> u32;

/// What `usize::to_ne_bytes` returns for `x`.
pub uninterp spec fn spec_usize_to_ne_bytes(x: usize) -> Seq<u8>;

/// What `i32::to_ne_bytes` returns for `x`.
pub uninterp spec fn spec_i32_to_ne_bytes(x: i32) -> Seq<u8>;

/// What `u32::to_ne_bytes` returns for `x`.
pub uninterp spec fn spec_u32_to_ne_bytes(x: u32) -> Seq<u8>;

/// Calls `usize::from_ne_bytes` on `bytes[offset..offset + size_of::<usize>()]`.
/// Claims only that the result is that function's value on those bytes.
#[verifier::external_body]
pub fn usize_from_ne_at(bytes: &[u8], offset: usize) -> (r: usize)
    requires
        offset + usize_width() <= bytes@.len(),
    ensures
        r == spec_usize_from_ne_bytes(bytes@.subrange(offset as int, offset + usize_width())),
{
    usize::from_ne_bytes(bytes[offset..offset + core::mem::size_of::<usize>()].try_into().unwrap())
}

/// Calls `i32::from_ne_bytes` on `bytes[offset..offset + 4]`.
/// Claims only that the result is that function's value on those bytes.
#[verifier::external_body]
pub fn i32_from_ne_at(bytes: &[u8], offset: usize) -> (r: i32)
    requires
        offset + 4 <= bytes@.len(),
    ensures
        r == spec_i32_from_ne_bytes(bytes@.subrange(offset as int, offset + 4)),
{
    i32::from_ne_bytes(bytes[offset..offset + 4].try_into().unwrap())
}

/// Calls `u32::from_ne_bytes` on `bytes[offset..offset + 4]`.
/// Claims only that the result is that function's value on those bytes.
#[verifier::external_body]
pub fn u32_from_ne_at(bytes: &[u8], offset: usize) -> (r: u32)
    requires
        offset + 4 <= bytes@.len(),
    ensures
        r == spec_u32_from_ne_bytes(bytes@.subrange(offset as int, offset + 4)),
{
    u32::from_ne_bytes(bytes[offset..offset + 4].try_into().unwrap())
}

/// Calls `usize::to_ne_bytes`. Claims that the result is that function's
/// value on `x`, and the documented facts: it has `size_of::<usize>()` bytes,
/// which `usize::from_ne_bytes` maps back to `x`.
#[verifier::external_body]
pub fn usize_to_ne(x: usize) -> (r: Vec<u8>)
    ensures
        r@ == spec_usize_to_ne_bytes(x),
        r@.len() == usize_width(),
        spec_usize_from_ne_bytes(r@) == x,
{
    x.to_ne_bytes().to_vec()
}

/// Calls `i32::to_ne_bytes`. Claims that the result is that function's value
/// on `x`, and the documented facts: four bytes, which `i32::from_ne_bytes`
/// maps back to `x`.
#[verifier::external_body]
pub fn i32_to_ne(x: i32) -> (r: Vec<u8>)
    ensures
        r@ == spec_i32_to_ne_bytes(x),
        r@.len() == 4,
        spec_i32_from_ne_bytes(r@) == x,
{
    x.to_ne_bytes().to_vec()
}

/// Calls `u32::to_ne_bytes`. Claims that the result is that function's value
/// on `x`, and the documented facts: four bytes, which `u32::from_ne_bytes`
/// maps back to `x`.
#[verifier::external_body]
pub fn u32_to_ne(x: u32) -> (r: Vec<u8>)
    ensures
        r@ == spec_u32_to_ne_bytes(x),
        r@.len() == 4,
        spec_u32_from_ne_bytes(r@) == x,
{
    x.to_ne_bytes().to_vec()
}

} // verus!
