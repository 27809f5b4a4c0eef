//! Sizes and shape of control messages on the running platform.
//!
//! The platform's `cmsghdr` and its `CMSG_ALIGN` / `CMSG_LEN` / `CMSG_SPACE`
//! rules arrive as plain numbers in a [`CmsgLayout`]: where each header field
//! stands, how large the header is, and the alignment payloads are padded to.
use vstd::prelude::*;

use crate::bytes::{usize_width, usize_width_exec};

verus! {

/// The shape of a control-message header on one platform.
#[derive(Debug, Clone, Copy, PartialEq, Eq, Structural)]
pub struct CmsgLayout {
    /// `size_of::<cmsghdr>()`.
    pub header_size: usize,
    /// `CMSG_LEN(0)`: the header rounded up to the alignment.
    pub header_len: usize,
    /// `CMSG_SPACE(1) - CMSG_SPACE(0)`: the alignment of payloads.
    pub align: usize,
    /// Offset of `cmsg_len` in the header.
    pub len_offset: usize,
    /// Width of `cmsg_len`: 4 for a `socklen_t`, the word for a `size_t`.
    pub len_width: usize,
    /// Offset of `cmsg_level` (a `c_int`).
    pub level_offset: usize,
    /// Offset of `cmsg_type` (a `c_int`).
    pub kind_offset: usize,
}

impl CmsgLayout {
    /// A header of three fields in order, `cmsg_len` (four bytes or a word),
    /// `cmsg_level`, `cmsg_type`, inside a header of at most 4096 bytes,
    /// with a 4- or 8-byte payload alignment.
    pub open spec fn wf(self) -> bool {
        &&& self.align == 4 || self.align == 8
        &&& self.len_width == 4 || self.len_width == usize_width()
        &&& self.len_offset + self.len_width <= self.level_offset
        &&& self.level_offset + 4 <= self.kind_offset
        &&& self.kind_offset + 4 <= self.header_size
        &&& self.header_size <= self.header_len <= 4096
    }

    /// Whether this layout is [`wf`](Self::wf).
    pub fn is_valid(&self) -> (r: bool)
        ensures
            r == self.wf(),
    {
        let w = usize_width_exec();
        (self.align == 4 || self.align == 8) && (self.len_width == 4 || self.len_width == w)
            && self.len_offset <= self.level_offset && self.len_width <= self.level_offset
            - self.len_offset && self.level_offset <= self.kind_offset && 4 <= self.kind_offset
            - self.level_offset && self.kind_offset <= self.header_size && 4 <= self.header_size
            - self.kind_offset && self.header_size <= self.header_len && self.header_len <= 4096
    }
}

/// `n` rounded up to a multiple of `a` (`CMSG_ALIGN`).
pub open spec fn align_up(n: nat, a: nat) -> nat {
    ((n + a - 1) / (a as int) * (a as int)) as nat
}

/// `CMSG_SPACE(payload)`: a header and the padded payload.
pub open spec fn space_for(payload: nat, l: CmsgLayout) -> nat {
    (l.header_len + align_up(payload, l.align as nat)) as nat
}

/// Whether `space_for(payload, l)` is computed without overflowing `usize`.
pub open spec fn space_fits(payload: nat, l: CmsgLayout) -> bool {
    &&& payload + l.align - 1 <= usize::MAX
    &&& space_for(payload, l) <= usize::MAX
}

/// Rounding up stays within one alignment step and is a multiple of it.
pub proof fn lemma_align_up(n: nat, a: nat)
    requires
        a > 0,
    ensures
        n <= align_up(n, a),
        align_up(n, a) < n + a,
        align_up(n, a) % a == 0,
{
    let a = a as int;
    let q = (n + a - 1) / a;
    assert(q * a <= n + a - 1 && n + a - 1 < q * a + a) by (nonlinear_arith)
        requires
            a > 0,
            q == (n + a - 1) / a,
    ;
    assert((q * a) % a == 0) by (nonlinear_arith)
        requires
            a > 0,
    ;
}

/// Rounding up is monotone.
pub proof fn lemma_align_up_monotone(m: nat, n: nat, a: nat)
    requires
        m <= n,
        a > 0,
    ensures
        align_up(m, a) <= align_up(n, a),
{
    let a = a as int;
    assert((m + a - 1) / a <= (n + a - 1) / a) by (nonlinear_arith)
        requires
            a > 0,
            m <= n,
    ;
    assert(((m + a - 1) / a) * a <= ((n + a - 1) / a) * a) by (nonlinear_arith)
        requires
            a > 0,
            (m + a - 1) / a <= (n + a - 1) / a,
    ;
}

/// Every padded message is at least a header long.
pub proof fn lemma_space_for(payload: nat, l: CmsgLayout)
    requires
        l.wf(),
    ensures
        space_for(payload, l) >= l.header_len,
        space_for(payload, l) >= payload + l.header_len,
        l.header_len >= 12,
{
    lemma_align_up(payload, l.align as nat);
}

/// `CMSG_SPACE(payload_len)` in checked arithmetic: `None` where the sum
/// overflows `usize`.
pub fn cmsg_space(payload_len: usize, l: CmsgLayout) -> (r: Option<usize>)
    requires
        l.wf(),
    ensures
        r == (if space_fits(payload_len as nat, l) {
            Some(space_for(payload_len as nat, l) as usize)
        } else {
            None::<usize>
        }),
{
    let alignment = l.align;
    let bumped = match payload_len.checked_add(alignment - 1) {
        Some(b) => b,
        None => return None,
    };
    proof {
        lemma_align_up(payload_len as nat, alignment as nat);
    }
    let padded = bumped / alignment * alignment;
    assert(padded == align_up(payload_len as nat, alignment as nat));
    l.header_len.checked_add(padded)
}

} // verus!
