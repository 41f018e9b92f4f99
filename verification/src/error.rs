//! Error values: what the USB transport reports, and what this library makes of it.

use vstd::prelude::*;

verus! {

/// A failure reported by the USB transport, one variant per transport error code.
#[derive(Debug, Clone, Copy, PartialEq, Eq, Structural)]
pub enum TransportError {
    /// Input/output error.
    Io,
    /// Invalid parameter.
    InvalidParam,
    /// Access denied.
    Access,
    /// The device is gone.
    NoDevice,
    /// Entity not found.
    NotFound,
    /// Resource busy.
    Busy,
    /// The operation timed out.
    Timeout,
    /// The device offered more data than fits.
    Overflow,
    /// The endpoint halted, or the request is not supported by the device.
    Pipe,
    /// A system call was interrupted.
    Interrupted,
    /// Out of memory.
    NoMem,
    /// Not supported on this platform.
    NotSupported,
    /// The device sent a malformed descriptor.
    BadDescriptor,
    /// Anything else.
    Other,
}

/// Why a transfer did not deliver its data.
///
/// A timeout and a stall are told apart from every other failure: a caller may
/// treat "nothing to report in time" as harmless, while a stall points at an
/// endpoint that is not set up as the caller believes.
#[derive(Debug, Clone, Copy, PartialEq, Eq, Structural)]
pub enum TransferError {
    /// The transfer did not finish within its timeout.
    Timeout,
    /// The endpoint stalled.
    Stall,
    /// Any other transport failure, handed on unchanged.
    Transport(TransportError),
}

impl TransferError {
    /// The transfer failure that stands for a transport failure.
    pub open spec fn of(error: TransportError) -> TransferError {
        match error {
            TransportError::Timeout => TransferError::Timeout,
            TransportError::Pipe => TransferError::Stall,
            _ => TransferError::Transport(error),
        }
    }

    /// The transport failure behind a transfer failure.
    pub open spec fn source(self) -> TransportError {
        match self {
            TransferError::Timeout => TransportError::Timeout,
            TransferError::Stall => TransportError::Pipe,
            TransferError::Transport(error) => error,
        }
    }

    /// Whether this value is one that `classify` produces: `Transport` never
    /// wraps a timeout or a stall.
    pub open spec fn canonical(self) -> bool {
        match self {
            TransferError::Transport(error) => error != TransportError::Timeout && error
                != TransportError::Pipe,
            _ => true,
        }
    }

    /// Sorts a transport failure into timeout, stall, or anything else.
    pub fn classify(error: TransportError) -> (r: TransferError)
        ensures
            r == TransferError::of(error),
            r is Timeout <==> error == TransportError::Timeout,
            r is Stall <==> error == TransportError::Pipe,
            r.canonical(),
            r.source() == error,
    {
        match error {
            TransportError::Timeout => TransferError::Timeout,
            TransportError::Pipe => TransferError::Stall,
            _ => TransferError::Transport(error),
        }
    }

    /// Gives back the transport failure that was classified.
    pub fn transport_error(&self) -> (r: TransportError)
        ensures
            r == self.source(),
    {
        match self {
            TransferError::Timeout => TransportError::Timeout,
            TransferError::Stall => TransportError::Pipe,
            TransferError::Transport(error) => *error,
        }
    }
}

/// Classifying loses nothing: the transport failure can be read back from the
/// transfer failure, and two different transport failures never classify alike.
pub proof fn lemma_classify_is_faithful(a: TransportError, b: TransportError)
    ensures
        TransferError::of(a).source() == a,
        TransferError::of(a) == TransferError::of(b) ==> a == b,
{
}

/// A canonical transfer failure is the class of its own source.
pub proof fn lemma_canonical_round_trip(e: TransferError)
    requires
        e.canonical(),
    ensures
        TransferError::of(e.source()) == e,
{
}

/// Why a session could not do what it was opened for.
#[derive(Debug, Clone, Copy, PartialEq, Eq, Structural)]
pub enum SessionError {
    /// No attached device has the wanted identity, or none of them could be opened.
    DeviceNotFound,
    /// The device exposes no endpoint of the wanted direction and transfer type.
    NoEndpoint,
    /// The interface could not be claimed; the transport's reason is kept.
    InterfaceUnavailable(TransportError),
    /// The interface was claimed, and released again, but the caller's
    /// transfers failed.
    TransferFailed(TransferError),
}

} // verus!
