//! The stream client's decision logic: what the background read loop does
//! after each exact-length socket read, and the cooperative-shutdown handle
//! it is cancelled through. The socket reads themselves happen outside the
//! library; every choice between delivering, signalling a graceful close
//! and stopping is made here.

use vstd::prelude::*;

use crate::codec::be32;
use crate::codec::decode;
use crate::codec::decode_spec;
use crate::codec::DecodeError;
use crate::screen::Frame;

verus! {

/// How many undelivered frames the client's delivery channel buffers
/// before the read loop's send suspends: bounded backpressure, never an
/// unbounded queue and never a dropped frame.
pub const DELIVERY_CAPACITY: usize = 10;

/// What a `connect` attempt can fail with: address resolution or the
/// initial socket connect (`ConnectionError`), or a failed read on an
/// established connection (`ReceiveError`).
#[derive(Debug, Clone, Copy, PartialEq, Eq, Structural)]
pub enum ReceiverError {
    ConnectionError,
    ReceiveError,
}

/// The result of one exact-length socket read, as the read loop sees it:
/// the requested bytes, end of stream, or any other I/O failure.
pub enum ReadOutcome {
    Bytes(Vec<u8>),
    Eof,
    Failed,
}

/// What the read loop does after the four-byte length prefix: read that
/// many payload bytes, forward the graceful-close sentinel and stop, or
/// stop silently.
pub enum LengthStep {
    ReadPayload(u32),
    CloseWithSentinel,
    Stop,
}

/// What the read loop does after the payload: deliver a decoded frame,
/// forward the graceful-close sentinel and stop, or stop silently.
pub enum PayloadStep {
    Deliver(Frame),
    CloseWithSentinel,
    Stop,
}

/// The read loop's policy at a record boundary, after the length prefix was
/// read. Cancellation is checked first and wins; end of stream here is a
/// graceful remote close, so the sentinel is forwarded; any other read
/// failure stops the loop silently.
pub fn on_length_read(cancelled: bool, outcome: ReadOutcome) -> (r: LengthStep)
    requires
        outcome matches ReadOutcome::Bytes(b) ==> b@.len() == 4,
    ensures
        cancelled ==> r == LengthStep::Stop,
        !cancelled ==> match outcome {
            ReadOutcome::Bytes(b) => r == LengthStep::ReadPayload(
                be32(b@[0], b@[1], b@[2], b@[3]),
            ),
            ReadOutcome::Eof => r == LengthStep::CloseWithSentinel,
            ReadOutcome::Failed => r == LengthStep::Stop,
        },
{
    if cancelled {
        return LengthStep::Stop;
    }
    match outcome {
        ReadOutcome::Bytes(b) => {
            let n = ((b[0] as u32) << 24) | ((b[1] as u32) << 16) | ((b[2] as u32) << 8)
                | (b[3] as u32);
            LengthStep::ReadPayload(n)
        }
        ReadOutcome::Eof => LengthStep::CloseWithSentinel,
        ReadOutcome::Failed => LengthStep::Stop,
    }
}

/// The read loop's policy after the payload read. A payload that decodes is
/// delivered; a decode failure is fatal to this connection and stops the
/// loop; end of stream mid-record still counts as a remote close and
/// forwards the sentinel; any other failure stops the loop silently.
pub fn on_payload_read(outcome: ReadOutcome) -> (r: PayloadStep)
    ensures
        match outcome {
            ReadOutcome::Bytes(b) => match decode_spec(b@) {
                Some(decoded) => r matches PayloadStep::Deliver(f) && f.width == decoded.0
                    && f.height == decoded.1 && f.data@ == decoded.2 && f.wf(),
                None => r == PayloadStep::Stop,
            },
            ReadOutcome::Eof => r == PayloadStep::CloseWithSentinel,
            ReadOutcome::Failed => r == PayloadStep::Stop,
        },
{
    match outcome {
        ReadOutcome::Bytes(b) => match decode(b.as_slice()) {
            Ok(f) => PayloadStep::Deliver(f),
            Err(DecodeError::Truncated) => PayloadStep::Stop,
            Err(DecodeError::LengthMismatch) => PayloadStep::Stop,
        },
        ReadOutcome::Eof => PayloadStep::CloseWithSentinel,
        ReadOutcome::Failed => PayloadStep::Stop,
    }
}

#[verifier::external_type_specification]
#[verifier::external_body]
#[verifier::reject_recursive_types(T)]
pub struct ExWatchSender<T>(tokio::sync::watch::Sender<T>);

/// Relies on tokio::sync::watch::Sender's Clone impl: cloning yields
/// another sending handle to the same channel. Nothing more is claimed.
pub assume_specification<T>[ <tokio::sync::watch::Sender<T> as core::clone::Clone>::clone ](
    tx: &tokio::sync::watch::Sender<T>,
) -> tokio::sync::watch::Sender<T>;

/// Relies on tokio::sync::watch::Sender::send: it replaces the watched
/// value with the one given and returns Ok exactly when a receiver is
/// still open; here the value sent is the cancellation flag set to true.
#[verifier::external_body]
fn send_shutdown(tx: &tokio::sync::watch::Sender<bool>) -> (r: bool) {
    tx.send(true).is_ok()
}

/// The handle `connect` returns for cooperative shutdown of the background
/// read task.
#[derive(Clone)]
pub struct DisconnectHandle {
    pub shutdown_tx: tokio::sync::watch::Sender<bool>,
}

impl DisconnectHandle {
    /// Signals the read loop's cancellation flag. Advisory: it does not
    /// block, and takes effect at the loop's next record boundary.
    pub fn disconnect(self) {
        let _delivered = send_shutdown(&self.shutdown_tx);
    }
}

} // verus!
