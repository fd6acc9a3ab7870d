//! The consumer side: what a worker makes of the bytes of one connection,
//! which status it answers with, and how accepted connections are spread
//! over the workers.

use crate::frame::{decode, parse, FrameError, FramePart};
use crate::message::{MessageStatus, MessageStatusError};
use vstd::prelude::*;
use vstd::std_specs::convert::FromSpecImpl;

verus! {

/// Number of workers of a consumer.
pub const NB_WORKERS: usize = 4;

/// Why a connection got no `Ack`.
#[derive(Debug)]
pub enum ConsumerError {
    /// Reading from or writing to the connection failed; the text says how.
    IO(String),
    /// The topic bytes are not UTF-8.
    InvalidUTF8Error,
    /// The buffer ends before `part` does: `expected` bytes are needed up
    /// to the end of `part`, `got` are there.
    InvalidMessageFormat { part: FramePart, expected: u64, got: u64 },
    /// The frame was well formed but was not taken.
    InvalidMessage(MessageStatusError),
    /// The payload could not be read from its bytes; the text says how.
    BinaryConversionError(String),
}

/// How a consumer reports that a buffer is not a frame.
pub open spec fn frame_refusal(error: FrameError) -> ConsumerError {
    match error {
        FrameError::Malformed { part, expected, got } => ConsumerError::InvalidMessageFormat {
            part,
            expected,
            got,
        },
        FrameError::InvalidUtf8 => ConsumerError::InvalidUTF8Error,
    }
}

impl From<FrameError> for ConsumerError {
    fn from(error: FrameError) -> (e: ConsumerError) {
        match error {
            FrameError::Malformed { part, expected, got } => ConsumerError::InvalidMessageFormat {
                part,
                expected,
                got,
            },
            FrameError::InvalidUtf8 => ConsumerError::InvalidUTF8Error,
        }
    }
}

impl FromSpecImpl<FrameError> for ConsumerError {
    open spec fn obeys_from_spec() -> bool {
        true
    }

    open spec fn from_spec(error: FrameError) -> ConsumerError {
        frame_refusal(error)
    }
}

/// The status that a worker answers with after `outcome`, if it answers at
/// all: `Ack` where the handler took the payload, `Unknown` where the topic
/// is not known, `Failed` for a frame that is malformed and for a payload or
/// a handler that failed. A connection that failed gets no answer.
pub open spec fn spec_response(outcome: Result<(), ConsumerError>) -> Option<MessageStatus> {
    match outcome {
        Ok(_) => Some(MessageStatus::Ack),
        Err(ConsumerError::InvalidMessage(MessageStatusError::UnknownTopic(_))) => Some(
            MessageStatus::Unknown,
        ),
        Err(ConsumerError::InvalidMessage(MessageStatusError::Failed(_))) => Some(
            MessageStatus::Failed,
        ),
        Err(ConsumerError::InvalidUTF8Error) => Some(MessageStatus::Failed),
        Err(ConsumerError::InvalidMessageFormat { .. }) => Some(MessageStatus::Failed),
        Err(ConsumerError::BinaryConversionError(_)) => Some(MessageStatus::Failed),
        Err(ConsumerError::IO(_)) => None,
    }
}

/// The status that a worker answers with after `outcome`, if it answers at all.
pub fn response(outcome: &Result<(), ConsumerError>) -> (status: Option<MessageStatus>)
    ensures
        status == spec_response(*outcome),
{
    match outcome {
        Ok(_) => Some(MessageStatus::Ack),
        Err(ConsumerError::InvalidMessage(MessageStatusError::UnknownTopic(_))) => Some(
            MessageStatus::Unknown,
        ),
        Err(ConsumerError::InvalidMessage(MessageStatusError::Failed(_))) => Some(
            MessageStatus::Failed,
        ),
        Err(ConsumerError::InvalidUTF8Error) => Some(MessageStatus::Failed),
        Err(ConsumerError::InvalidMessageFormat { .. }) => Some(MessageStatus::Failed),
        Err(ConsumerError::BinaryConversionError(_)) => Some(MessageStatus::Failed),
        Err(ConsumerError::IO(_)) => None,
    }
}

/// What the bytes of a connection ask for: the topic and the payload, or why
/// they are not a frame.
pub fn request<'a>(buf: &'a [u8]) -> (asked: Result<(&'a str, &'a [u8]), ConsumerError>)
    ensures
        match (asked, parse(buf@)) {
            (Ok((topic, payload)), Ok((t, p))) => topic@ == t && payload@ == p,
            (Err(e), Err(f)) => e == frame_refusal(f),
            _ => false,
        },
{
    match decode(buf) {
        Ok(frame) => Ok(frame),
        Err(error) => Err(ConsumerError::from(error)),
    }
}

/// The topic that a frame is for, given what its name resolved to: the
/// resolved topic, or the refusal that names the unknown topic.
pub fn routed<T>(name: &str, resolved: Option<T>) -> (topic: Result<T, ConsumerError>)
    ensures
        match resolved {
            Some(t) => topic == Ok::<T, ConsumerError>(t),
            None => topic matches Err(ConsumerError::InvalidMessage(MessageStatusError::UnknownTopic(n)))
                && n@ == name@,
        },
{
    match resolved {
        Some(topic) => Ok(topic),
        None => Err(ConsumerError::InvalidMessage(MessageStatusError::UnknownTopic(name.to_owned()))),
    }
}

/// A consumer of messages on the topics `T`.
pub trait Consumer<T>: Sized {
    /// The topic that `name` stands for, if it stands for one.
    fn resolve(&self, name: &str) -> Option<T>;

    /// Hands `payload` to the handler of `topic`.
    fn dispatch(&self, topic: T, payload: &[u8]) -> Result<(), ConsumerError>;

    /// Takes the bytes of one connection: parses the frame, resolves its
    /// topic and dispatches its payload. A buffer that is no frame is
    /// refused as the frame codec refuses it. The topic of a frame is handed
    /// to `resolve`; where it resolves to nothing the frame is refused for
    /// its unknown topic and the handler is not reached, else the payload
    /// goes to `dispatch` with the topic that came back, and what `dispatch`
    /// gives is the outcome.
    fn accept(&self, buf: &[u8]) -> (outcome: Result<(), ConsumerError>)
        ensures
            match parse(buf@) {
                Err(e) => outcome == Err::<(), _>(frame_refusal(e)),
                Ok((t, p)) => exists|name: &str, resolved: Option<T>|
                    {
                        &&& name@ == t
                        &&& #[trigger] call_ensures(Self::resolve, (self, name), resolved)
                        &&& match resolved {
                            Some(topic) => exists|payload: &[u8]|
                                payload@ == p && #[trigger] call_ensures(
                                    Self::dispatch,
                                    (self, topic, payload),
                                    outcome,
                                ),
                            None => outcome matches Err(
                                ConsumerError::InvalidMessage(MessageStatusError::UnknownTopic(n)),
                            ) && n@ == t,
                        }
                    },
            },
    {
        match request(buf) {
            Ok((name, payload)) => match routed(name, self.resolve(name)) {
                Ok(topic) => self.dispatch(topic, payload),
                Err(refusal) => Err(refusal),
            },
            Err(refusal) => Err(refusal),
        }
    }

    /// Takes the bytes of one connection and says what to answer: the
    /// status that `response` gives for the outcome of `accept`.
    fn worker(&self, buf: &[u8]) -> (status: Option<MessageStatus>)
        ensures
            exists|outcome: Result<(), ConsumerError>|
                #[trigger] call_ensures(Self::accept, (self, buf), outcome) && status
                    == spec_response(outcome),
            parse(buf@) is Err ==> status == Some(MessageStatus::Failed),
    {
        let outcome = self.accept(buf);
        response(&outcome)
    }
}


/// Whether worker `i` is the one that the next connection goes to: none has
/// less in flight, and none before it has as little.
pub open spec fn is_least_loaded(loads: Seq<usize>, i: int) -> bool {
    &&& 0 <= i < loads.len()
    &&& forall|j: int| 0 <= j < loads.len() ==> loads[i] <= #[trigger] loads[j]
    &&& forall|j: int| 0 <= j < i ==> loads[i] < #[trigger] loads[j]
}

/// The worker that the next connection goes to.
pub open spec fn spec_least_loaded(loads: Seq<usize>) -> int {
    if loads.len() == 0 {
        0
    } else {
        choose|i: int| is_least_loaded(loads, i)
    }
}

/// Only one worker is the first among the least loaded.
pub proof fn lemma_least_loaded_unique(loads: Seq<usize>, i: int, j: int)
    requires
        is_least_loaded(loads, i),
        is_least_loaded(loads, j),
    ensures
        i == j,
{
    if i < j {
        assert(loads[j] < loads[i]);
    } else if j < i {
        assert(loads[i] < loads[j]);
    }
}

/// The worker that the next connection goes to, given how many connections
/// each worker has in flight: the first of those with the fewest. Zero where
/// there is no worker.
pub fn least_loaded(loads: &[usize]) -> (worker: usize)
    ensures
        worker == spec_least_loaded(loads@),
        loads@.len() > 0 ==> is_least_loaded(loads@, worker as int),
{
    if loads.len() == 0 {
        return 0;
    }
    let mut best: usize = 0;
    let mut i: usize = 1;
    while i < loads.len()
        invariant
            1 <= i <= loads@.len(),
            is_least_loaded(loads@.take(i as int), best as int),
        decreases loads@.len() - i,
    {
        let ghost seen = loads@.take(i as int);
        let ghost upto = loads@.take(i + 1);
        if loads[i] < loads[best] {
            best = i;
        }
        proof {
            assert forall|j: int| 0 <= j < upto.len() implies upto[best as int] <= #[trigger] upto[j] by {
                if j < i {
                    assert(seen[j] == upto[j]);
                }
            }
            assert forall|j: int| 0 <= j < best implies upto[best as int] < #[trigger] upto[j] by {
                assert(seen[j] == upto[j]);
            }
        }
        i += 1;
    }
    proof {
        assert(loads@.take(loads@.len() as int) =~= loads@);
        lemma_least_loaded_unique(loads@, best as int, spec_least_loaded(loads@));
    }
    best
}

/// What the accept loop finds when it looks up.
#[derive(Debug, Clone, Copy, PartialEq, Eq, Structural)]
pub enum AcceptEvent {
    /// The shutdown flag is set.
    Shutdown,
    /// A connection came in.
    Connection,
    /// No connection is waiting.
    WouldBlock,
    /// Accepting failed for another reason.
    Failed,
    /// The worker that a connection was routed to takes no more connections.
    WorkerGone,
}

/// What the accept loop does next.
#[derive(Debug, Clone, Copy, PartialEq, Eq, Structural)]
pub enum AcceptAction {
    /// Leave the loop: no further connection is accepted.
    Stop,
    /// Hand the connection to this worker, then look again.
    Route(usize),
    /// Look again.
    Poll,
    /// Report the failure, then look again.
    Report,
}

/// What the accept loop does on `event`, given how many connections each
/// worker has in flight.
pub open spec fn spec_accept_step(event: AcceptEvent, loads: Seq<usize>) -> AcceptAction {
    match event {
        AcceptEvent::Shutdown => AcceptAction::Stop,
        AcceptEvent::WorkerGone => AcceptAction::Stop,
        AcceptEvent::Connection => AcceptAction::Route(spec_least_loaded(loads) as usize),
        AcceptEvent::WouldBlock => AcceptAction::Poll,
        AcceptEvent::Failed => AcceptAction::Report,
    }
}

/// What the accept loop does on `event`: once shutdown is observed it stops
/// whatever else is the case; a connection goes to the least loaded worker;
/// a failure to accept is reported and never ends the loop.
pub fn accept_step(event: AcceptEvent, loads: &[usize]) -> (action: AcceptAction)
    ensures
        action == spec_accept_step(event, loads@),
{
    match event {
        AcceptEvent::Shutdown => AcceptAction::Stop,
        AcceptEvent::WorkerGone => AcceptAction::Stop,
        AcceptEvent::Connection => AcceptAction::Route(least_loaded(loads)),
        AcceptEvent::WouldBlock => AcceptAction::Poll,
        AcceptEvent::Failed => AcceptAction::Report,
    }
}

/// No worker has more than one connection in flight beyond any other.
pub open spec fn balanced(loads: Seq<usize>) -> bool {
    forall|i: int, j: int|
        0 <= i < loads.len() && 0 <= j < loads.len() ==> #[trigger] loads[i] <= #[trigger] loads[j]
            + 1
}

/// The loads once the next connection is in flight at the worker it was
/// routed to.
pub open spec fn after_route(loads: Seq<usize>) -> Seq<usize> {
    if loads.len() == 0 {
        loads
    } else {
        loads.update(spec_least_loaded(loads), (loads[spec_least_loaded(loads)] + 1) as usize)
    }
}

/// The loads once `n` connections were routed one after the other and none
/// of them is done.
pub open spec fn after_burst(loads: Seq<usize>, n: nat) -> Seq<usize>
    decreases n,
{
    if n == 0 {
        loads
    } else {
        after_route(after_burst(loads, (n - 1) as nat))
    }
}

/// Some worker is the first among the least loaded.
pub proof fn lemma_least_loaded_exists(loads: Seq<usize>)
    requires
        loads.len() > 0,
    ensures
        is_least_loaded(loads, spec_least_loaded(loads)),
    decreases loads.len(),
{
    if loads.len() == 1 {
        assert(is_least_loaded(loads, 0));
    } else {
        let front = loads.drop_last();
        lemma_least_loaded_exists(front);
        let b = spec_least_loaded(front);
        let last = loads.len() - 1;
        if loads[last] < front[b] {
            assert forall|j: int| 0 <= j < last implies loads[last] < #[trigger] loads[j] by {
                assert(front[b] <= front[j]);
            }
            assert(is_least_loaded(loads, last));
        } else {
            assert forall|j: int| 0 <= j < loads.len() implies loads[b] <= #[trigger] loads[j] by {
                if j < last {
                    assert(front[b] <= front[j]);
                }
            }
            assert forall|j: int| 0 <= j < b implies loads[b] < #[trigger] loads[j] by {
                assert(front[b] < front[j]);
            }
            assert(is_least_loaded(loads, b));
        }
    }
}

/// Load distribution: routing a connection to the least loaded worker keeps
/// the loads balanced.
pub proof fn lemma_route_keeps_balance(loads: Seq<usize>)
    requires
        balanced(loads),
        forall|i: int| 0 <= i < loads.len() ==> #[trigger] loads[i] < usize::MAX,
    ensures
        balanced(after_route(loads)),
        after_route(loads).len() == loads.len(),
{
    if loads.len() > 0 {
        lemma_least_loaded_exists(loads);
        let w = spec_least_loaded(loads);
        let after = after_route(loads);
        assert forall|i: int, j: int| 0 <= i < after.len() && 0 <= j < after.len() implies #[trigger] after[i]
            <= #[trigger] after[j] + 1 by {
            assert(loads[w] <= loads[j]);
            assert(loads[i] <= loads[w] + 1);
        }
    }
}

/// Load distribution: over a burst of connections that come in faster than
/// they are done, no worker ever has more than one connection in flight
/// beyond any other, if that was so before the burst.
pub proof fn lemma_burst_keeps_balance(loads: Seq<usize>, n: nat)
    requires
        balanced(loads),
        forall|i: int| 0 <= i < loads.len() ==> #[trigger] loads[i] + n <= usize::MAX,
    ensures
        balanced(after_burst(loads, n)),
        after_burst(loads, n).len() == loads.len(),
        forall|i: int| 0 <= i < loads.len() ==> loads[i] <= #[trigger] after_burst(loads, n)[i] <= loads[i] + n,
    decreases n,
{
    if n > 0 {
        let before = after_burst(loads, (n - 1) as nat);
        lemma_burst_keeps_balance(loads, (n - 1) as nat);
        lemma_route_keeps_balance(before);
        if loads.len() > 0 {
            lemma_least_loaded_exists(before);
        }
    }
}

} // verus!
