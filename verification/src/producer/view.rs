//! The producer manager as contracts see it: a plain record of topics and
//! receivers, and the states that the operations lead to.

use crate::producer::config::ReceiverConfig;
use crate::producer::ReceiverStatus;
use vstd::prelude::*;

verus! {

/// A directory entry as contracts see it.
pub struct ReceiverView {
    pub addr: Seq<char>,
    pub status: ReceiverStatus,
}

/// A topic as contracts see it.
#[verifier::ext_equal]
pub struct TopicView {
    pub name: Seq<char>,
    pub subscribers: Seq<usize>,
    pub pending: Map<usize, Seq<Seq<u8>>>,
}

/// A producer manager as contracts see it.
#[verifier::ext_equal]
pub struct ProducerView {
    pub producer_id: usize,
    /// The id that the next message gets.
    pub next_id: usize,
    /// The declared topics, in the order of their declaration.
    pub topics: Seq<TopicView>,
    /// The receiver directory.
    pub receivers: Map<usize, ReceiverView>,
}

/// The id that follows `id`; after the largest one the count starts again at zero.
pub open spec fn following_id(id: usize) -> usize {
    if id == usize::MAX {
        0
    } else {
        (id + 1) as usize
    }
}

/// Whether `id` is in the directory and available.
pub open spec fn is_available(receivers: Map<usize, ReceiverView>, id: usize) -> bool {
    receivers.contains_key(id) && receivers[id].status == ReceiverStatus::Available
}

/// The first of `subscribers` that is available, if any is.
pub open spec fn first_available(
    subscribers: Seq<usize>,
    receivers: Map<usize, ReceiverView>,
) -> Option<usize>
    decreases subscribers.len(),
{
    if subscribers.len() == 0 {
        None
    } else if is_available(receivers, subscribers[0]) {
        Some(subscribers[0])
    } else {
        first_available(subscribers.drop_first(), receivers)
    }
}

/// How often `name` occurs in `names`.
pub open spec fn occurrences(names: Seq<Seq<char>>, name: Seq<char>) -> nat
    decreases names.len(),
{
    if names.len() == 0 {
        0
    } else {
        occurrences(names.drop_last(), name) + if names.last() == name {
            1nat
        } else {
            0nat
        }
    }
}

/// `names` without repetitions: each name stays where it came first.
pub open spec fn distinct(names: Seq<Seq<char>>) -> Seq<Seq<char>>
    decreases names.len(),
{
    if names.len() == 0 {
        Seq::empty()
    } else if distinct(names.drop_last()).contains(names.last()) {
        distinct(names.drop_last())
    } else {
        distinct(names.drop_last()).push(names.last())
    }
}

/// The characters of each of `names`.
pub open spec fn texts(names: Seq<String>) -> Seq<Seq<char>> {
    Seq::new(names.len(), |i: int| names[i]@)
}

/// A topic that nobody subscribed to and that has nothing pending.
pub open spec fn fresh_topic(name: Seq<char>) -> TopicView {
    TopicView { name, subscribers: Seq::empty(), pending: Map::empty() }
}

/// The state of a manager that was just made for `names`.
pub open spec fn initial_state(id: usize, names: Seq<Seq<char>>) -> ProducerView {
    ProducerView {
        producer_id: id,
        next_id: 0,
        topics: distinct(names).map_values(|name: Seq<char>| fresh_topic(name)),
        receivers: Map::empty(),
    }
}

/// The state after each of `receivers` was registered in turn.
pub open spec fn registered_all(state: ProducerView, receivers: Seq<ReceiverConfig>) -> ProducerView
    decreases receivers.len(),
{
    if receivers.len() == 0 {
        state
    } else {
        registered_all(state, receivers.drop_last()).registered(
            receivers.last().id,
            receivers.last().addr@,
            texts(receivers.last().topics@),
        )
    }
}

/// Whether every topic that a receiver of `receivers` subscribes to is among `names`.
pub open spec fn covers(names: Seq<Seq<char>>, receivers: Seq<ReceiverConfig>) -> bool {
    forall|i: int, j: int|
        0 <= i < receivers.len() && 0 <= j < receivers[i].topics@.len() ==> names.contains(
            #[trigger] receivers[i].topics@[j]@,
        )
}

impl ProducerView {
    /// Whether a topic of that name is declared.
    pub open spec fn declares(self, name: Seq<char>) -> bool {
        exists|i: int| 0 <= i < self.topics.len() && #[trigger] self.topics[i].name == name
    }

    /// Where the topic of that name stands among the declared topics.
    pub open spec fn position(self, name: Seq<char>) -> int {
        choose|i: int| 0 <= i < self.topics.len() && #[trigger] self.topics[i].name == name
    }

    /// No two topics share a name, and every subscriber is in the directory.
    pub open spec fn wf(self) -> bool {
        &&& forall|i: int, j: int|
            0 <= i < j < self.topics.len() ==> #[trigger] self.topics[i].name
                != #[trigger] self.topics[j].name
        &&& forall|i: int, k: int|
            0 <= i < self.topics.len() && 0 <= k < self.topics[i].subscribers.len()
                ==> self.receivers.contains_key(#[trigger] self.topics[i].subscribers[k])
    }

    /// The receiver that a message on `name` goes to: the first subscriber of
    /// the topic that is available. None where the topic is not declared,
    /// has no subscriber, or has none that is available.
    pub open spec fn select(self, name: Seq<char>) -> Option<usize> {
        if self.declares(name) {
            first_available(self.topics[self.position(name)].subscribers, self.receivers)
        } else {
            None
        }
    }

    /// The state once a message id has been handed out.
    pub open spec fn advanced(self) -> ProducerView {
        ProducerView { next_id: following_id(self.next_id), ..self }
    }

    /// The state once receiver `id` is marked down.
    pub open spec fn marked_down(self, id: usize) -> ProducerView {
        ProducerView {
            receivers: self.receivers.insert(
                id,
                ReceiverView { addr: self.receivers[id].addr, status: ReceiverStatus::Down },
            ),
            ..self
        }
    }

    /// The state once `frame` is recorded for `message_id` on the topic at
    /// `position`: appended to what is pending for that id, or pending alone.
    pub open spec fn recorded(self, position: int, message_id: usize, frame: Seq<u8>) -> ProducerView {
        let topic = self.topics[position];
        ProducerView {
            topics: self.topics.update(
                position,
                TopicView {
                    pending: topic.pending.insert(
                        message_id,
                        if topic.pending.contains_key(message_id) {
                            topic.pending[message_id].push(frame)
                        } else {
                            seq![frame]
                        },
                    ),
                    ..topic
                },
            ),
            ..self
        }
    }

    /// The state once nothing is pending any more for `message_id` on the
    /// topic at `position`.
    pub open spec fn validated(self, position: int, message_id: usize) -> ProducerView {
        let topic = self.topics[position];
        ProducerView {
            topics: self.topics.update(
                position,
                TopicView { pending: topic.pending.remove(message_id), ..topic },
            ),
            ..self
        }
    }

    /// The state once receiver `id` is registered at `addr` for `topics`:
    /// the directory entry is new or replaced and available, and each topic
    /// lists `id` once more for each time that `topics` names it.
    pub open spec fn registered(self, id: usize, addr: Seq<char>, topics: Seq<Seq<char>>) -> ProducerView {
        ProducerView {
            topics: Seq::new(
                self.topics.len(),
                |i: int|
                    TopicView {
                        subscribers: self.topics[i].subscribers + Seq::new(
                            occurrences(topics, self.topics[i].name),
                            |k: int| id,
                        ),
                        ..self.topics[i]
                    },
            ),
            receivers: self.receivers.insert(
                id,
                ReceiverView { addr, status: ReceiverStatus::Available },
            ),
            ..self
        }
    }
}

} // verus!
