//! Types exchanged with an audio backend. The backend itself (device
//! enumeration, stream start and stop) lives outside the engine; it hands
//! buffers to the executor from its device callback.

use vstd::prelude::*;

verus! {

/// The result of polling a backend for stream errors.
pub enum PollStatus<E> {
    /// The stream is healthy.
    Running,
    /// The stream reported an error; `can_close_gracefully` says whether
    /// an orderly shutdown is still possible.
    Error { msg: E, can_close_gracefully: bool },
}

/// What a backend reports after successfully starting a stream.
pub struct StartStreamResult<S> {
    pub stream_handle: S,
    pub num_input_channels: usize,
    pub num_output_channels: usize,
}

/// A description of an audio device offered by a backend.
#[derive(Debug, Clone, PartialEq, Eq)]
pub struct DeviceInfo {
    pub name: String,
    pub num_channels: u16,
    pub is_default: bool,
}

} // verus!
