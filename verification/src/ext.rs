//! The decisions of the convenience send and receive operations: what a
//! stream send needs, which received descriptors are kept, and how a
//! complete send proceeds.
use vstd::prelude::*;

use crate::ancillary::{rights_size_fits, CmsgCodes, SocketAncillary};
use crate::credentials::CREDENTIALS_SIZE;
use crate::error::{spec_error_kind, FdError, FdErrorKind};
use crate::layout::{space_for, CmsgLayout};

verus! {

/// Descriptors over a Unix stream need at least one ordinary payload byte.
pub fn validate_stream_send(data: &[u8], fd_count: usize) -> (r: Result<(), FdError>)
    ensures
        r == (if data@.len() == 0 && fd_count != 0 {
            Err(FdError::EmptyStreamPayload)
        } else {
            Ok::<(), FdError>(())
        }),
{
    validate_stream_send_len(data.len(), fd_count)
}

/// [`validate_stream_send`] for a payload given by its total length, as a
/// vectored send has it: the rule applies to the total across all buffers.
pub fn validate_stream_send_len(payload_len: usize, fd_count: usize) -> (r: Result<(), FdError>)
    ensures
        r == (if payload_len == 0 && fd_count != 0 {
            Err(FdError::EmptyStreamPayload)
        } else {
            Ok::<(), FdError>(())
        }),
{
    if payload_len == 0 && fd_count != 0 {
        Err(FdError::EmptyStreamPayload)
    } else {
        Ok(())
    }
}

/// The larger of the requested count and the receive budget.
pub open spec fn recv_capacity(wanted: nat, budget: nat) -> nat {
    if wanted >= budget {
        wanted
    } else {
        budget
    }
}

/// Room for the credentials message a platform that passes credentials may
/// attach on its own; none where it does not.
pub open spec fn credentials_room(codes: CmsgCodes, l: CmsgLayout) -> nat {
    if codes.scm_credentials is Some {
        space_for(CREDENTIALS_SIZE as nat, l)
    } else {
        0
    }
}

/// Whether [`convenience_control_size`] is representable.
pub open spec fn convenience_size_fits(
    wanted: nat,
    budget: nat,
    codes: CmsgCodes,
    l: CmsgLayout,
) -> bool {
    &&& rights_size_fits(recv_capacity(wanted, budget), l)
    &&& space_for(recv_capacity(wanted, budget) * 4, l) + credentials_room(codes, l) <= usize::MAX
}

/// Control-buffer size of a convenience receive of up to `wanted`
/// descriptors: room for one message of the larger of `wanted` and the
/// receive budget (see [`crate::platform::max_recv_fds`]), plus
/// [`credentials_room`].
pub fn convenience_control_size(
    wanted: usize,
    budget: usize,
    codes: CmsgCodes,
    layout: CmsgLayout,
) -> (n: usize)
    requires
        layout.wf(),
        convenience_size_fits(wanted as nat, budget as nat, codes, layout),
    ensures
        n == space_for(recv_capacity(wanted as nat, budget as nat) * 4, layout) + credentials_room(
            codes,
            layout,
        ),
{
    let cap = if wanted >= budget {
        wanted
    } else {
        budget
    };
    let rights = SocketAncillary::buffer_size_for_rights(cap, layout);
    match codes.scm_credentials {
        Some(_) => rights + SocketAncillary::buffer_size_for_credentials(layout),
        None => rights,
    }
}

/// What a convenience receive answers: an error, or how many of the
/// delivered descriptors the caller keeps. Ancillary truncation is checked
/// first, then payload truncation, then (for a strict receive) the count.
pub open spec fn recv_verdict(
    fd_count: nat,
    ancillary_truncated: bool,
    data_truncated: bool,
    wanted: nat,
    exact: bool,
) -> Result<nat, FdError> {
    if ancillary_truncated {
        Err(FdError::AncillaryTruncated)
    } else if data_truncated {
        Err(FdError::PayloadTruncated)
    } else if exact && fd_count != wanted {
        Err(FdError::DescriptorCountMismatch)
    } else if fd_count <= wanted {
        Ok(fd_count)
    } else {
        Ok(wanted)
    }
}

/// What a convenience receive answers, case by case: control-data
/// truncation is refused first; otherwise a truncated payload is refused
/// whatever descriptors came with it; otherwise a strict receive refuses a
/// count other than the one wanted; otherwise the caller keeps the smaller
/// of the count delivered and the count wanted.
pub proof fn lemma_recv_verdict_cases(
    fd_count: nat,
    ancillary_truncated: bool,
    data_truncated: bool,
    wanted: nat,
    exact: bool,
)
    ensures
        ancillary_truncated ==> recv_verdict(
            fd_count,
            ancillary_truncated,
            data_truncated,
            wanted,
            exact,
        ) == Err::<nat, FdError>(FdError::AncillaryTruncated),
        !ancillary_truncated && data_truncated ==> recv_verdict(
            fd_count,
            ancillary_truncated,
            data_truncated,
            wanted,
            exact,
        ) == Err::<nat, FdError>(FdError::PayloadTruncated),
        !ancillary_truncated && !data_truncated && exact && fd_count != wanted ==> recv_verdict(
            fd_count,
            ancillary_truncated,
            data_truncated,
            wanted,
            exact,
        ) == Err::<nat, FdError>(FdError::DescriptorCountMismatch),
        !ancillary_truncated && !data_truncated && (!exact || fd_count == wanted) ==> recv_verdict(
            fd_count,
            ancillary_truncated,
            data_truncated,
            wanted,
            exact,
        ) == Ok::<nat, FdError>(if fd_count <= wanted { fd_count } else { wanted }),
{
}

/// Every refusal of a convenience receive is `InvalidData`.
pub proof fn lemma_receive_refusals_are_invalid_data(
    fd_count: nat,
    ancillary_truncated: bool,
    data_truncated: bool,
    wanted: nat,
    exact: bool,
)
    ensures
        recv_verdict(fd_count, ancillary_truncated, data_truncated, wanted, exact) matches Err(e)
            ==> spec_error_kind(e) == FdErrorKind::InvalidData,
        recv_verdict(fd_count, ancillary_truncated, data_truncated, wanted, exact) matches Ok(k)
            ==> k <= wanted && k <= fd_count && (exact ==> k == fd_count),
{
}

/// Decide a convenience receive that delivered `bytes_read` bytes and the
/// descriptors `fds`: on success the first descriptors, up to `wanted`, go
/// to the caller; every other delivered descriptor is returned for closing.
/// On an error all of them are. No descriptor is lost or handed out twice.
pub fn recv_fds_outcome(
    bytes_read: usize,
    fds: Vec<i32>,
    ancillary_truncated: bool,
    data_truncated: bool,
    wanted: usize,
    exact: bool,
) -> (r: (Result<(usize, Vec<i32>), FdError>, Vec<i32>))
    ensures
        match recv_verdict(fds@.len(), ancillary_truncated, data_truncated, wanted as nat, exact) {
            Ok(k) => r.0 is Ok && r.0.unwrap().0 == bytes_read && r.0.unwrap().1@ == fds@.take(
                k as int,
            ) && r.1@ == fds@.skip(k as int),
            Err(e) => r.0 == Err::<(usize, Vec<i32>), FdError>(e) && r.1@ == fds@,
        },
        match r.0 {
            Ok((_, kept)) => kept@ + r.1@ == fds@,
            Err(_) => r.1@ == fds@,
        },
        ancillary_truncated ==> r.0 == Err::<(usize, Vec<i32>), FdError>(
            FdError::AncillaryTruncated,
        ),
        !ancillary_truncated && data_truncated ==> r.0 == Err::<(usize, Vec<i32>), FdError>(
            FdError::PayloadTruncated,
        ),
{
    if ancillary_truncated {
        return (Err(FdError::AncillaryTruncated), fds);
    }
    if data_truncated {
        return (Err(FdError::PayloadTruncated), fds);
    }
    if exact && fds.len() != wanted {
        return (Err(FdError::DescriptorCountMismatch), fds);
    }
    let keep = if fds.len() <= wanted {
        fds.len()
    } else {
        wanted
    };
    let mut kept: Vec<i32> = Vec::new();
    let mut surplus: Vec<i32> = Vec::new();
    let mut i: usize = 0;
    while i < fds.len()
        invariant
            keep <= fds@.len(),
            i <= fds@.len(),
            i <= keep ==> kept@ == fds@.take(i as int) && surplus@ == Seq::<i32>::empty(),
            i > keep ==> kept@ == fds@.take(keep as int) && surplus@ == fds@.subrange(
                keep as int,
                i as int,
            ),
        decreases fds@.len() - i,
    {
        if i < keep {
            kept.push(fds[i]);
            assert(kept@ =~= fds@.take(i + 1));
        } else {
            surplus.push(fds[i]);
            assert(surplus@ =~= fds@.subrange(keep as int, i + 1));
        }
        i = i + 1;
    }
    assert(fds@.subrange(keep as int, fds@.len() as int) =~= fds@.skip(keep as int));
    if keep == fds.len() {
        assert(fds@.take(keep as int) =~= fds@);
        assert(fds@.skip(keep as int) =~= Seq::<i32>::empty());
    }
    assert(fds@.take(keep as int) + fds@.skip(keep as int) =~= fds@);
    (Ok((bytes_read, kept)), surplus)
}

/// Progress of a send that attaches descriptors once and then completes
/// the payload.
#[derive(Debug, Clone, Copy, PartialEq, Eq, Structural)]
pub struct SendAllState {
    /// Length of the whole payload.
    pub data_len: usize,
    /// Payload bytes the socket has accepted so far.
    pub sent: usize,
    /// Whether the descriptors still ride on the next send.
    pub fds_pending: bool,
}

/// The next thing a complete send does.
#[derive(Debug, Clone, Copy, PartialEq, Eq, Structural)]
pub enum SendAllAction {
    /// Send the whole payload with the descriptors attached.
    SendWithFds,
    /// Send the payload from this offset, without descriptors.
    SendBytes(usize),
    /// The whole payload has been accepted.
    Finished,
    /// Stop with this error.
    Failed(FdError),
}

/// The start of a complete stream send of `data_len` bytes with
/// `fd_count` descriptors: the descriptors ride on the first send, which
/// needs at least one payload byte; without descriptors the payload is
/// sent from offset 0.
pub open spec fn spec_send_all_begin(data_len: usize, fd_count: usize) -> (SendAllState, SendAllAction) {
    let state = SendAllState { data_len, sent: 0, fds_pending: fd_count != 0 };
    if data_len == 0 && fd_count != 0 {
        (state, SendAllAction::Failed(FdError::EmptyStreamPayload))
    } else if fd_count != 0 {
        (state, SendAllAction::SendWithFds)
    } else if data_len != 0 {
        (state, SendAllAction::SendBytes(0))
    } else {
        (state, SendAllAction::Finished)
    }
}

/// One step of a complete send after a send accepted `accepted` bytes: no
/// progress fails with `WriteZero`; otherwise the rest of the payload is
/// sent without descriptors until all of it has been accepted.
pub open spec fn spec_send_all_step(state: SendAllState, accepted: usize) -> (SendAllState, SendAllAction) {
    if accepted == 0 {
        (
            state,
            SendAllAction::Failed(
                if state.fds_pending {
                    FdError::DescriptorPayloadNotSent
                } else {
                    FdError::ShortWrite
                },
            ),
        )
    } else {
        let sent = if state.sent + accepted >= state.data_len {
            state.data_len
        } else {
            (state.sent + accepted) as usize
        };
        let next = SendAllState { data_len: state.data_len, sent, fds_pending: false };
        if sent < state.data_len {
            (next, SendAllAction::SendBytes(sent))
        } else {
            (next, SendAllAction::Finished)
        }
    }
}

/// Whether an action is a send, after which the caller reports how many
/// bytes were accepted.
pub open spec fn is_send(a: SendAllAction) -> bool {
    a == SendAllAction::SendWithFds || a is SendBytes
}

/// The state and action reached by reporting `accepted[0]`, `accepted[1]`,
/// ... after each send, until the operation finishes or fails.
pub open spec fn send_all_run(
    state: SendAllState,
    action: SendAllAction,
    accepted: Seq<usize>,
) -> (SendAllState, SendAllAction)
    decreases accepted.len(),
{
    if accepted.len() == 0 || !is_send(action) {
        (state, action)
    } else {
        let (s, a) = spec_send_all_step(state, accepted[0]);
        send_all_run(s, a, accepted.skip(1))
    }
}

/// How many sends in that run carry the descriptors.
pub open spec fn fd_sends_in_run(
    state: SendAllState,
    action: SendAllAction,
    accepted: Seq<usize>,
) -> nat
    decreases accepted.len(),
{
    let here: nat = if action == SendAllAction::SendWithFds {
        1
    } else {
        0
    };
    if accepted.len() == 0 || !is_send(action) {
        here
    } else {
        let (s, a) = spec_send_all_step(state, accepted[0]);
        here + fd_sends_in_run(s, a, accepted.skip(1))
    }
}

/// The machine's invariant: no more sent than the payload, and a send is
/// only asked for while bytes remain.
pub open spec fn send_all_inv(state: SendAllState, action: SendAllAction) -> bool {
    &&& state.sent <= state.data_len
    &&& is_send(action) ==> state.sent < state.data_len
    &&& action == SendAllAction::Finished ==> state.sent == state.data_len
    &&& action == SendAllAction::SendWithFds ==> state.fds_pending
    &&& action matches SendAllAction::SendBytes(off) ==> off == state.sent
}

proof fn lemma_send_all_run_from(state: SendAllState, action: SendAllAction, accepted: Seq<usize>)
    requires
        send_all_inv(state, action),
    ensures
        send_all_inv(send_all_run(state, action, accepted).0, send_all_run(state, action, accepted).1),
        action != SendAllAction::SendWithFds ==> fd_sends_in_run(state, action, accepted) == 0,
        fd_sends_in_run(state, action, accepted) <= 1,
        send_all_run(state, action, accepted).0.data_len == state.data_len,
    decreases accepted.len(),
{
    if accepted.len() == 0 || !is_send(action) {
    } else {
        let (s, a) = spec_send_all_step(state, accepted[0]);
        assert(send_all_inv(s, a));
        assert(a != SendAllAction::SendWithFds);
        lemma_send_all_run_from(s, a, accepted.skip(1));
    }
}

/// A complete send attaches the descriptors to at most one send, and to
/// none when there are none; whatever the socket accepts at each step, it
/// never asks for more than the payload, and it finishes only once the
/// whole payload has been accepted.
pub proof fn lemma_send_all_attaches_fds_once(data_len: usize, fd_count: usize, accepted: Seq<usize>)
    ensures
        ({
            let (s0, a0) = spec_send_all_begin(data_len, fd_count);
            let (s, a) = send_all_run(s0, a0, accepted);
            &&& fd_sends_in_run(s0, a0, accepted) <= 1
            &&& fd_count == 0 ==> fd_sends_in_run(s0, a0, accepted) == 0
            &&& s.sent <= data_len
            &&& a == SendAllAction::Finished ==> s.sent == data_len
            &&& is_send(a) ==> s.sent < data_len
        }),
{
    let (s0, a0) = spec_send_all_begin(data_len, fd_count);
    assert(send_all_inv(s0, a0));
    lemma_send_all_run_from(s0, a0, accepted);
}

/// How a complete send starts and how often it attaches the descriptors:
/// with descriptors and a payload, the first send carries the descriptors,
/// and every run, whatever the socket accepts, attaches them exactly once;
/// with descriptors and no payload it fails before sending; without
/// descriptors it sends the payload from offset 0 (or finishes at once for
/// an empty one) and never attaches any.
pub proof fn lemma_send_all_begin_cases(data_len: usize, fd_count: usize, accepted: Seq<usize>)
    ensures
        ({
            let (s0, a0) = spec_send_all_begin(data_len, fd_count);
            &&& s0.sent == 0 && s0.data_len == data_len
            &&& fd_count != 0 && data_len != 0 ==> a0 == SendAllAction::SendWithFds
            &&& fd_count != 0 && data_len != 0 ==> fd_sends_in_run(s0, a0, accepted) == 1
            &&& fd_count != 0 && data_len == 0 ==> a0 == SendAllAction::Failed(
                FdError::EmptyStreamPayload,
            )
            &&& fd_count == 0 && data_len != 0 ==> a0 == SendAllAction::SendBytes(0)
            &&& fd_count == 0 && data_len == 0 ==> a0 == SendAllAction::Finished
            &&& fd_count == 0 ==> fd_sends_in_run(s0, a0, accepted) == 0
        }),
{
    let (s0, a0) = spec_send_all_begin(data_len, fd_count);
    assert(send_all_inv(s0, a0));
    lemma_send_all_run_from(s0, a0, accepted);
    if fd_count != 0 && data_len != 0 && accepted.len() > 0 {
        let (s, a) = spec_send_all_step(s0, accepted[0]);
        assert(send_all_inv(s, a));
        lemma_send_all_run_from(s, a, accepted.skip(1));
    }
}

/// Start a complete stream send of `data_len` bytes with `fd_count`
/// descriptors.
pub fn send_all_begin(data_len: usize, fd_count: usize) -> (r: (SendAllState, SendAllAction))
    ensures
        r == spec_send_all_begin(data_len, fd_count),
{
    let state = SendAllState { data_len, sent: 0, fds_pending: fd_count != 0 };
    match validate_stream_send_len(data_len, fd_count) {
        Err(e) => (state, SendAllAction::Failed(e)),
        Ok(()) => {
            if fd_count != 0 {
                (state, SendAllAction::SendWithFds)
            } else if data_len != 0 {
                (state, SendAllAction::SendBytes(0))
            } else {
                (state, SendAllAction::Finished)
            }
        },
    }
}

/// Record that the last send accepted `accepted` bytes, and decide what
/// comes next. Descriptors are never attached again, and a send that makes
/// no progress ends the operation with `WriteZero`.
pub fn send_all_step(state: SendAllState, accepted: usize) -> (r: (SendAllState, SendAllAction))
    requires
        state.sent < state.data_len,
    ensures
        r == spec_send_all_step(state, accepted),
        r.1 != SendAllAction::SendWithFds,
        accepted > 0 ==> state.sent < r.0.sent <= r.0.data_len,
{
    if accepted == 0 {
        let e = if state.fds_pending {
            FdError::DescriptorPayloadNotSent
        } else {
            FdError::ShortWrite
        };
        return (state, SendAllAction::Failed(e));
    }
    let remaining = state.data_len - state.sent;
    let sent = if accepted >= remaining {
        state.data_len
    } else {
        state.sent + accepted
    };
    let next = SendAllState { data_len: state.data_len, sent, fds_pending: false };
    if sent < state.data_len {
        (next, SendAllAction::SendBytes(sent))
    } else {
        (next, SendAllAction::Finished)
    }
}

} // verus!
