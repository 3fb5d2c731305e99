//! Errors of the request/response protocol, one type per stage of an exchange.
use vstd::prelude::*;

use crate::sdcp::SdcpFrame;

verus! {

/// An I/O failure reported by the transport, carried through as it is.
#[verifier::external_type_specification]
#[verifier::external_body]
pub struct ExIoError(std::io::Error);

/// Failure of a whole client request.
pub enum RequestError {
    Recv(RecvError),
    Send(SendError),
    Io(std::io::Error),
    InvalidPacket,
    InvalidFrame(FrameError),
}

/// Failure of a device's parameter exchange.
pub enum NetError {
    Recv(RecvError),
    Send(SendError),
    Io(std::io::Error),
}

/// Failure to establish a connection.
pub enum ConnError {
    Io(std::io::Error),
}

/// Failure to send a packet.
pub enum SendError {
    Io(std::io::Error),
}

/// Failure to receive a packet: the transport failed, the payload is not
/// UTF-8, or the envelope is malformed.
pub enum RecvError {
    Io(std::io::Error),
    BadEncoding,
    InvalidPacket,
}

/// Failure to obtain a frame from a received payload.
pub enum FrameError {
    Recv(RecvError),
    InvalidPacket,
    Io(std::io::Error),
}

pub type RequestResult = Result<SdcpFrame, RequestError>;

pub type SendResult = Result<(), SendError>;

pub type RecvResult = Result<String, RecvError>;

pub type FrameResult = Result<SdcpFrame, FrameError>;

} // verus!
