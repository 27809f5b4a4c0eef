//! Peer credentials carried as `SCM_CREDENTIALS` control messages (Linux).
//!
//! The kernel validates credentials on send: an unprivileged sender may only
//! claim its own pid and its real, effective or saved uid and gid. A received
//! value is therefore trustworthy in a way the payload is not.
use vstd::prelude::*;

use crate::bytes::{
    i32_from_ne_at, i32_to_ne, spec_i32_from_ne_bytes, spec_i32_to_ne_bytes, spec_u32_from_ne_bytes,
    spec_u32_to_ne_bytes, u32_from_ne_at, u32_to_ne,
};

verus! {

/// Bytes of a `ucred` payload: `pid: i32`, `uid: u32`, `gid: u32`, in that order.
pub const CREDENTIALS_SIZE: usize = 12;

/// The values of a set of credentials.
pub struct CredentialsView {
    pub pid: i32,
    pub uid: u32,
    pub gid: u32,
}

/// Credentials of the process that sent a message.
#[derive(Debug, Clone, Copy, PartialEq, Eq, Structural)]
pub struct ScmCredentials {
    pid: i32,
    uid: u32,
    gid: u32,
}

impl View for ScmCredentials {
    type V = CredentialsView;

    closed spec fn view(&self) -> CredentialsView {
        CredentialsView { pid: self.pid, uid: self.uid, gid: self.gid }
    }
}

/// The credentials that a `ucred` payload holds: its first twelve bytes,
/// read as pid, uid and gid in native byte order.
pub open spec fn credentials_of(data: Seq<u8>) -> CredentialsView {
    CredentialsView {
        pid: spec_i32_from_ne_bytes(data.subrange(0, 4)),
        uid: spec_u32_from_ne_bytes(data.subrange(4, 8)),
        gid: spec_u32_from_ne_bytes(data.subrange(8, 12)),
    }
}

/// The `ucred` payload for credentials `c`: pid, uid and gid, each in
/// native byte order.
pub open spec fn ucred_bytes(c: CredentialsView) -> Seq<u8> {
    spec_i32_to_ne_bytes(c.pid) + spec_u32_to_ne_bytes(c.uid) + spec_u32_to_ne_bytes(c.gid)
}

/// The kernel's `struct ucred` layout, read side: in a payload, the pid is
/// the `i32` at bytes 0..4, the uid the `u32` at bytes 4..8 and the gid the
/// `u32` at bytes 8..12, each in native byte order; later bytes are ignored.
pub proof fn lemma_ucred_fields_at_fixed_offsets(data: Seq<u8>, extra: Seq<u8>)
    requires
        data.len() == CREDENTIALS_SIZE,
    ensures
        credentials_of(data).pid == spec_i32_from_ne_bytes(data.subrange(0, 4)),
        credentials_of(data).uid == spec_u32_from_ne_bytes(data.subrange(4, 8)),
        credentials_of(data).gid == spec_u32_from_ne_bytes(data.subrange(8, 12)),
        credentials_of(data + extra) == credentials_of(data),
{
    assert((data + extra).subrange(0, 4) =~= data.subrange(0, 4));
    assert((data + extra).subrange(4, 8) =~= data.subrange(4, 8));
    assert((data + extra).subrange(8, 12) =~= data.subrange(8, 12));
}

/// The kernel's `struct ucred` layout, write side: the payload for `c` is
/// the pid's four bytes, then the uid's, then the gid's, in native byte
/// order.
pub proof fn lemma_ucred_bytes_field_order(c: CredentialsView)
    ensures
        ucred_bytes(c) == spec_i32_to_ne_bytes(c.pid) + spec_u32_to_ne_bytes(c.uid)
            + spec_u32_to_ne_bytes(c.gid),
{
}

impl ScmCredentials {
    /// Claim specific values. Nothing is validated here; the kernel checks
    /// the claim on send and fails it with `EPERM` where it is not allowed.
    pub fn new(pid: i32, uid: u32, gid: u32) -> (c: Self)
        ensures
            c@ == (CredentialsView { pid, uid, gid }),
    {
        ScmCredentials { pid, uid, gid }
    }

    /// Process id of the sender. Zero when the sender is in a pid namespace
    /// the receiver cannot translate.
    pub fn pid(&self) -> (p: i32)
        ensures
            p == self@.pid,
    {
        self.pid
    }

    /// User id of the sender.
    pub fn uid(&self) -> (u: u32)
        ensures
            u == self@.uid,
    {
        self.uid
    }

    /// Group id of the sender.
    pub fn gid(&self) -> (g: u32)
        ensures
            g == self@.gid,
    {
        self.gid
    }

    /// The credentials in a `ucred` payload: pid, uid and gid in native
    /// byte order from the first twelve bytes of `data`.
    pub fn from_ucred_bytes(data: &[u8]) -> (c: Self)
        requires
            data@.len() >= CREDENTIALS_SIZE,
        ensures
            c@ == credentials_of(data@),
            c@.pid == spec_i32_from_ne_bytes(data@.subrange(0, 4)),
            c@.uid == spec_u32_from_ne_bytes(data@.subrange(4, 8)),
            c@.gid == spec_u32_from_ne_bytes(data@.subrange(8, 12)),
    {
        let pid = i32_from_ne_at(data, 0);
        let uid = u32_from_ne_at(data, 4);
        let gid = u32_from_ne_at(data, 8);
        ScmCredentials { pid, uid, gid }
    }

    /// The `ucred` payload for these credentials: twelve bytes that
    /// [`from_ucred_bytes`](Self::from_ucred_bytes) reads back unchanged.
    pub fn to_ucred_bytes(&self) -> (data: Vec<u8>)
        ensures
            data@ == ucred_bytes(self@),
            data@.len() == CREDENTIALS_SIZE,
            credentials_of(data@) == self@,
            data@.subrange(0, 4) == spec_i32_to_ne_bytes(self@.pid),
            data@.subrange(4, 8) == spec_u32_to_ne_bytes(self@.uid),
            data@.subrange(8, 12) == spec_u32_to_ne_bytes(self@.gid),
    {
        let mut data = i32_to_ne(self.pid);
        let mut u = u32_to_ne(self.uid);
        let mut g = u32_to_ne(self.gid);
        let ghost (pv, uv, gv) = (data@, u@, g@);
        data.append(&mut u);
        data.append(&mut g);
        assert(data@.subrange(0, 4) =~= pv);
        assert(data@.subrange(4, 8) =~= uv);
        assert(data@.subrange(8, 12) =~= gv);
        data
    }
}

} // verus!
