//! Ancillary data (`SCM_RIGHTS`, `SCM_CREDENTIALS`) for Unix sockets.
use vstd::prelude::*;

pub mod ancillary;
pub mod bytes;
pub mod codec;
pub mod credentials;
pub mod error;
pub mod ext;
pub mod layout;
pub mod platform;

pub use ancillary::{AncillaryData, CmsgCodes, Messages, ScmRights, SocketAncillary};
pub use layout::CmsgLayout;
pub use codec::__fuzz_parse;
pub use credentials::ScmCredentials;
pub use error::{AncillaryError, FdError, FdErrorKind};
pub use ext::{
    convenience_control_size, recv_fds_outcome, send_all_begin, send_all_step, validate_stream_send,
    validate_stream_send_len, SendAllAction, SendAllState,
};
pub use platform::{clamp_nofile, cloexec_received, max_recv_fds};

verus! {

/// Result of a receive with ancillary data.
#[derive(Debug, Clone, Copy)]
#[non_exhaustive]
pub struct RecvResult {
    /// Bytes written into the data buffers.
    pub bytes_read: usize,
    /// `true` if `MSG_CTRUNC` was set: the control data did not fit.
    pub truncated: bool,
    /// `true` if `MSG_TRUNC` was set: the datagram payload did not fit the
    /// data buffers. Stream sockets never set this.
    pub data_truncated: bool,
}

} // verus!
