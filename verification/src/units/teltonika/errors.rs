//! Why an AVL frame was not accepted.
use vstd::prelude::*;

use crate::error::IoError;
use crate::units::teltonika::validations::FutureTimestampError;

verus! {

/// An AVL frame that could not be decoded, or that was decoded and discarded.
#[derive(Debug, Clone, PartialEq, Eq)]
pub enum TeltonikaFrameError {
    /// The frame is malformed; it is not acknowledged.
    Parse(IoError),
    /// The frame is well formed but refused; it is still acknowledged with
    /// `ack_record_count` records so that the device drops it.
    Discarded { ack_record_count: u8, reason: DiscardReason },
}

/// Why a well-formed frame was refused.
#[derive(Debug, Clone, Copy, PartialEq, Eq, Structural)]
pub enum DiscardReason {
    FutureTimestamp(FutureTimestampError),
}

impl TeltonikaFrameError {
    pub open spec fn spec_ack_record_count(&self) -> Option<u8> {
        match self {
            TeltonikaFrameError::Parse(_) => None,
            TeltonikaFrameError::Discarded { ack_record_count, .. } => Some(*ack_record_count),
        }
    }

    /// The record count with which a discarded frame is acknowledged;
    /// `None` for a malformed frame.
    pub fn ack_record_count(&self) -> (r: Option<u8>)
        ensures
            r == self.spec_ack_record_count(),
    {
        match self {
            TeltonikaFrameError::Parse(_) => None,
            TeltonikaFrameError::Discarded { ack_record_count, .. } => Some(*ack_record_count),
        }
    }
}

} // verus!
