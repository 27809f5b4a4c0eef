//! Receive budgets and close-on-exec planning.
use vstd::prelude::*;

use crate::ancillary::{rights_flat, SocketAncillary};

verus! {

/// Upper bound (2^20) of the budget derived from `RLIMIT_NOFILE`.
pub const HARD_CEILING: usize = 1048576;

/// Lower bound of the budget derived from `RLIMIT_NOFILE`.
pub const HARD_FLOOR: usize = 253;

/// Reads `libc::RLIM_INFINITY`, widened to `u64`. Claims that it is at
/// least `HARD_CEILING`: libc gives it as `!0` on most Linux targets, as
/// `0x7fffffff` on Linux MIPS and SPARC, and as `0x7fff_ffff_ffff_ffff` on
/// Apple targets and the BSDs.
#[verifier::external_body]
fn rlim_infinity() -> (r: u64)
    ensures
        r >= HARD_CEILING,
{
    #[allow(clippy::unnecessary_cast)]
    let r = libc::RLIM_INFINITY as u64;
    r
}

/// The budget for a current `RLIMIT_NOFILE` value `cur`, in
/// `[HARD_FLOOR, HARD_CEILING]`.
pub open spec fn spec_clamp_nofile(cur: u64) -> usize {
    if cur <= HARD_FLOOR {
        HARD_FLOOR
    } else if cur >= HARD_CEILING {
        HARD_CEILING
    } else {
        cur as usize
    }
}

/// The budget from `RLIMIT_NOFILE` is the limit itself inside
/// `[HARD_FLOOR, HARD_CEILING]`, the nearer bound outside it, and grows
/// with the limit.
pub proof fn lemma_clamp_nofile_is_a_clamp(cur: u64, other: u64)
    ensures
        HARD_FLOOR <= cur <= HARD_CEILING ==> spec_clamp_nofile(cur) == cur,
        cur < HARD_FLOOR ==> spec_clamp_nofile(cur) == HARD_FLOOR,
        cur > HARD_CEILING ==> spec_clamp_nofile(cur) == HARD_CEILING,
        cur <= other ==> spec_clamp_nofile(cur) <= spec_clamp_nofile(other),
        HARD_FLOOR <= spec_clamp_nofile(cur) <= HARD_CEILING,
        spec_max_recv_fds(false, Some(cur)) == spec_clamp_nofile(cur),
{
}

/// Clamp a raw `RLIMIT_NOFILE` current value into `[HARD_FLOOR,
/// HARD_CEILING]`, mapping `RLIM_INFINITY` and values that `usize` cannot
/// hold to the ceiling.
pub fn clamp_nofile(cur: u64) -> (n: usize)
    ensures
        n == spec_clamp_nofile(cur),
        HARD_FLOOR <= n <= HARD_CEILING,
        HARD_FLOOR <= cur <= HARD_CEILING ==> n == cur,
{
    let n: usize = if cur == rlim_infinity() {
        HARD_CEILING
    } else if cur > usize::MAX as u64 {
        HARD_CEILING
    } else {
        cur as usize
    };
    if n < HARD_FLOOR {
        HARD_FLOOR
    } else if n > HARD_CEILING {
        HARD_CEILING
    } else {
        n
    }
}

/// The receive budget: how many descriptors a convenience receive makes
/// room for. Where the kernel marks received descriptors close-on-exec
/// itself (`MSG_CMSG_CLOEXEC`: Linux, Android and the BSDs) it is 253,
/// Linux's `SCM_MAX_FD`. Elsewhere it is the current `RLIMIT_NOFILE`
/// clamped by [`clamp_nofile`], or `HARD_CEILING` where `getrlimit` failed.
pub open spec fn spec_max_recv_fds(kernel_sets_cloexec: bool, nofile: Option<u64>) -> usize {
    if kernel_sets_cloexec {
        253
    } else {
        match nofile {
            Some(cur) => spec_clamp_nofile(cur),
            None => HARD_CEILING,
        }
    }
}

/// Receive budget for one `SCM_RIGHTS` message. `kernel_sets_cloexec` says
/// whether the platform's `recvmsg` takes `MSG_CMSG_CLOEXEC`; `nofile` is the
/// current `RLIMIT_NOFILE` as `getrlimit` gave it, or `None` where it failed.
pub fn max_recv_fds(kernel_sets_cloexec: bool, nofile: Option<u64>) -> (n: usize)
    ensures
        n == spec_max_recv_fds(kernel_sets_cloexec, nofile),
        HARD_FLOOR <= n <= HARD_CEILING,
{
    if kernel_sets_cloexec {
        253
    } else {
        match nofile {
            Some(cur) => clamp_nofile(cur),
            None => HARD_CEILING,
        }
    }
}

/// The descriptors of a received batch that a platform without
/// `MSG_CMSG_CLOEXEC` marks close-on-exec, in the order it marks them: every
/// descriptor delivered, credentials aside. The caller stops at the first
/// failure and closes the whole batch.
pub fn cloexec_received(received: &SocketAncillary) -> (fds: Vec<i32>)
    ensures
        fds@ == rights_flat(received.pending()),
{
    received.pending_fds()
}

} // verus!
