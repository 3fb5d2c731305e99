//! Errors of the telemetry protocol.
use vstd::prelude::*;

use crate::sdcpu::SdcpuFrame;

verus! {

/// Failure to receive a datagram.
pub enum RecvError {
    Io(std::io::Error),
    BadEncoding,
}

/// Failure to obtain a frame from a datagram.
pub enum FrameError {
    Recv(RecvError),
    InvalidStructure,
    EncodingError(std::str::Utf8Error),
}

pub type FrameResult = Result<SdcpuFrame, FrameError>;

} // verus!
