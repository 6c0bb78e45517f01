//! The error taxonomy: address errors, transport errors, handshake
//! protocol errors, data-path errors, and wire-format errors.

use vstd::prelude::*;

verus! {

#[derive(Clone, Copy, Debug, PartialEq, Eq, Structural)]
pub enum SCTPError {
    /// Setting up an association failed.
    AssociationSetupError,
    /// Terminating an association failed.
    AssociationTerminationError,
    /// Binding the local address to a socket failed.
    SocketBindError,
    /// Connecting to the remote address failed.
    SocketConnectError,
    /// Sending data to the remote address failed.
    SocketSendError,
    /// Receiving data from the remote address failed.
    SocketRecvError,
    /// The remote address or port is invalid.
    InvalidRemoteAddress,
    /// The local address or port is invalid.
    InvalidLocalAddress,
    /// The socket listener failed.
    SocketListenerError,
    /// An InitAck arrived without a state cookie parameter.
    NoCookieError,
    /// An echoed cookie did not match the issued one.
    CookieMismatchError,
    /// The handshake retries were exhausted without an acknowledgment.
    HandshakeFailedError,
    /// The remote receiver window is exhausted.
    RemoteBufferFull,
    /// The effective send window admits no more data.
    WindowExhausted,
    /// A buffer could not be decoded as a packet or chunk.
    InvalidSCTPPacket,
    /// A buffer is too short to hold the structure it declares.
    TruncatedPacket,
    /// A declared chunk length is out of range for its buffer.
    InvalidChunkLength,
    /// The packet checksum did not validate on decode.
    ChecksumMismatch,
}

impl SCTPError {
    /// A short description of the error.
    pub fn message(&self) -> (r: &'static str)
        ensures
            r@.len() > 0,
    {
        let r: &'static str = match self {
            SCTPError::AssociationSetupError => "error setting up an association",
            SCTPError::AssociationTerminationError => "error terminating association",
            SCTPError::SocketBindError => "error binding local addr to socket",
            SCTPError::SocketConnectError => "error connecting to remote addr",
            SCTPError::SocketSendError => "error sending data to remote addr",
            SCTPError::SocketRecvError => "error recving data from remote addr",
            SCTPError::InvalidRemoteAddress => "invalid remote address/port",
            SCTPError::InvalidLocalAddress => "invalid local address/port",
            SCTPError::SocketListenerError => "listener error",
            SCTPError::NoCookieError => "init ack carried no state cookie",
            SCTPError::CookieMismatchError => "echoed cookie does not match",
            SCTPError::HandshakeFailedError => "handshake retries exhausted",
            SCTPError::RemoteBufferFull => "remote receiver window is zero",
            SCTPError::WindowExhausted => "send window exhausted",
            SCTPError::InvalidSCTPPacket => "buffer is not a valid packet",
            SCTPError::TruncatedPacket => "buffer too short",
            SCTPError::InvalidChunkLength => "chunk length out of range",
            SCTPError::ChecksumMismatch => "packet checksum mismatch",
        };
        proof {
            reveal_strlit("error setting up an association");
            reveal_strlit("error terminating association");
            reveal_strlit("error binding local addr to socket");
            reveal_strlit("error connecting to remote addr");
            reveal_strlit("error sending data to remote addr");
            reveal_strlit("error recving data from remote addr");
            reveal_strlit("invalid remote address/port");
            reveal_strlit("invalid local address/port");
            reveal_strlit("listener error");
            reveal_strlit("init ack carried no state cookie");
            reveal_strlit("echoed cookie does not match");
            reveal_strlit("handshake retries exhausted");
            reveal_strlit("remote receiver window is zero");
            reveal_strlit("send window exhausted");
            reveal_strlit("buffer is not a valid packet");
            reveal_strlit("buffer too short");
            reveal_strlit("chunk length out of range");
            reveal_strlit("packet checksum mismatch");
        }
        r
    }
}

} // verus!
