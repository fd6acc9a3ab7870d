//! A receiver: the consumer-side endpoint that a producer sends frames to.

use crate::producer::ReceiverStatus;
use vstd::prelude::*;

verus! {

/// One entry of the receiver directory.
pub struct Receiver {
    /// Identifier, unique within a directory.
    pub id: usize,
    /// Network address in the form `host:port`.
    pub addr: String,
    /// Whether frames may still be sent here.
    pub status: ReceiverStatus,
}

impl Receiver {
    /// A receiver that is available.
    pub fn new(id: usize, addr: String) -> (receiver: Self)
        ensures
            receiver.id == id,
            receiver.addr == addr,
            receiver.status == ReceiverStatus::Available,
    {
        Self { id, addr, status: ReceiverStatus::Available }
    }
}

} // verus!
