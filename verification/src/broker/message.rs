//! What a broker queue holds and what a broker answers.

use vstd::prelude::*;

verus! {

/// A payload with the id that its queue gave it.
pub struct Message<T> {
    pub id: usize,
    pub payload: T,
}

/// The answer of a broker to what it was handed.
#[derive(Debug, Clone, Copy, PartialEq, Eq, Structural)]
pub enum Response {
    ACK,
    FAILED,
}

} // verus!
