//! Errors of the library, in plain values. Each carries the
//! `std::io::ErrorKind` it stands for.
use vstd::prelude::*;

verus! {

/// The ancillary buffer is too small, or must be cleared before building a send.
#[derive(Debug, Clone, Copy, PartialEq, Eq, Structural)]
pub struct AncillaryError;

impl AncillaryError {
    /// The error's text.
    pub fn message(&self) -> (m: &'static str)
        ensures
            m@ == "ancillary buffer too small or not cleared after receive"@,
    {
        "ancillary buffer too small or not cleared after receive"
    }
}

/// The `std::io::ErrorKind` that an [`FdError`] stands for.
#[derive(Debug, Clone, Copy, PartialEq, Eq, Structural)]
pub enum FdErrorKind {
    InvalidInput,
    InvalidData,
    WriteZero,
}

/// Why a descriptor-passing operation was refused.
#[derive(Debug, Clone, Copy, PartialEq, Eq, Structural)]
pub enum FdError {
    /// Descriptors over a stream need at least one payload byte.
    EmptyStreamPayload,
    /// A receive buffer was used for a send before being cleared.
    ReceiveBufferNotCleared,
    /// The kernel truncated the control data (`MSG_CTRUNC`).
    AncillaryTruncated,
    /// The kernel truncated a datagram's payload (`MSG_TRUNC`).
    PayloadTruncated,
    /// A strict receive got a different number of descriptors than asked.
    DescriptorCountMismatch,
    /// The send that carries the descriptors accepted no byte.
    DescriptorPayloadNotSent,
    /// A later send of ordinary bytes accepted no byte.
    ShortWrite,
}

/// The kind of each error.
pub open spec fn spec_error_kind(e: FdError) -> FdErrorKind {
    match e {
        FdError::EmptyStreamPayload => FdErrorKind::InvalidInput,
        FdError::ReceiveBufferNotCleared => FdErrorKind::InvalidInput,
        FdError::AncillaryTruncated => FdErrorKind::InvalidData,
        FdError::PayloadTruncated => FdErrorKind::InvalidData,
        FdError::DescriptorCountMismatch => FdErrorKind::InvalidData,
        FdError::DescriptorPayloadNotSent => FdErrorKind::WriteZero,
        FdError::ShortWrite => FdErrorKind::WriteZero,
    }
}

impl FdError {
    /// The `std::io::ErrorKind` this error stands for.
    pub fn kind(&self) -> (k: FdErrorKind)
        ensures
            k == spec_error_kind(*self),
    {
        match self {
            FdError::EmptyStreamPayload => FdErrorKind::InvalidInput,
            FdError::ReceiveBufferNotCleared => FdErrorKind::InvalidInput,
            FdError::AncillaryTruncated => FdErrorKind::InvalidData,
            FdError::PayloadTruncated => FdErrorKind::InvalidData,
            FdError::DescriptorCountMismatch => FdErrorKind::InvalidData,
            FdError::DescriptorPayloadNotSent => FdErrorKind::WriteZero,
            FdError::ShortWrite => FdErrorKind::WriteZero,
        }
    }

    /// The error's text.
    pub fn message(&self) -> (m: &'static str)
        ensures
            m@ == spec_error_message(*self)@,
    {
        match self {
            FdError::EmptyStreamPayload => "SCM_RIGHTS over a Unix stream requires at least one payload byte",
            FdError::ReceiveBufferNotCleared => "clear the receive buffer before building a send",
            FdError::AncillaryTruncated => "ancillary data truncated; delivered descriptors were closed",
            FdError::PayloadTruncated => "datagram payload truncated by the receive buffer",
            FdError::DescriptorCountMismatch => "received descriptor count differs from the count required",
            FdError::DescriptorPayloadNotSent => "failed to send fd payload byte",
            FdError::ShortWrite => "short write",
        }
    }
}

/// The text of each error.
pub open spec fn spec_error_message(e: FdError) -> &'static str {
    match e {
        FdError::EmptyStreamPayload => "SCM_RIGHTS over a Unix stream requires at least one payload byte",
        FdError::ReceiveBufferNotCleared => "clear the receive buffer before building a send",
        FdError::AncillaryTruncated => "ancillary data truncated; delivered descriptors were closed",
        FdError::PayloadTruncated => "datagram payload truncated by the receive buffer",
        FdError::DescriptorCountMismatch => "received descriptor count differs from the count required",
        FdError::DescriptorPayloadNotSent => "failed to send fd payload byte",
        FdError::ShortWrite => "short write",
    }
}

} // verus!
