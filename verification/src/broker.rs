//! An in-process broker: one queue for each topic name.

use crate::text::same_text;
use std::collections::VecDeque;
use vstd::prelude::*;

pub mod message;
pub mod topic;

verus! {

/// The id that every message of a partition carries.
pub const PARTITION_MESSAGE_ID: usize = 10;

/// Marks what may be handed to a broker.
pub trait Sendable {

}

/// What a partition holds for one thing that was handed to the broker.
pub struct Message<T: Sendable> {
    pub id: usize,
    pub message: T,
}

/// The queue of one topic.
struct Partition<T: Sendable> {
    topic: String,
    queue: VecDeque<Message<T>>,
}

/// Keeps what it is handed in one queue for each topic.
pub struct Broker<T: Sendable> {
    topic_queues: Vec<Partition<T>>,
}

impl<T: Sendable> Broker<T> {
    /// The queue of `topic`, oldest first; empty where nothing was ever
    /// added to that topic.
    pub closed spec fn queue(&self, topic: Seq<char>) -> Seq<Message<T>> {
        if self.holds(topic) {
            self.topic_queues@[self.position(topic)].queue@
        } else {
            Seq::empty()
        }
    }

    /// Whether the broker has a queue for `topic`.
    pub closed spec fn holds(&self, topic: Seq<char>) -> bool {
        exists|i: int| 0 <= i < self.topic_queues@.len() && (#[trigger] self.topic_queues@[i]).topic@ == topic
    }

    /// Where the queue of `topic` stands.
    closed spec fn position(&self, topic: Seq<char>) -> int {
        choose|i: int| 0 <= i < self.topic_queues@.len() && (#[trigger] self.topic_queues@[i]).topic@ == topic
    }

    /// No two queues are for the same topic.
    pub closed spec fn wf(&self) -> bool {
        forall|i: int, j: int|
            0 <= i < j < self.topic_queues@.len() ==> (#[trigger] self.topic_queues@[i]).topic@ != (
            #[trigger] self.topic_queues@[j]).topic@
    }

    /// A broker without queues.
    pub fn new() -> (broker: Self)
        ensures
            broker.wf(),
            forall|topic: Seq<char>| !broker.holds(topic),
    {
        Self { topic_queues: Vec::new() }
    }

    /// Adds `message` at the back of the queue of `topic`, which is made
    /// where it is not there yet.
    pub fn add_partition(&mut self, topic: String, message: T)
        requires
            old(self).wf(),
        ensures
            final(self).wf(),
            final(self).holds(topic@),
            final(self).queue(topic@) == old(self).queue(topic@).push(
                Message { id: PARTITION_MESSAGE_ID, message },
            ),
            forall|other: Seq<char>|
                other != topic@ ==> final(self).holds(other) == old(self).holds(other)
                    && final(self).queue(other) == old(self).queue(other),
    {
        let mut i: usize = 0;
        while i < self.topic_queues.len() && !same_text(
            self.topic_queues[i].topic.as_str(),
            topic.as_str(),
        )
            invariant
                i <= self.topic_queues@.len(),
                forall|j: int| 0 <= j < i ==> (#[trigger] self.topic_queues@[j]).topic@ != topic@,
                self.topic_queues == old(self).topic_queues,
            decreases self.topic_queues@.len() - i,
        {
            i += 1;
        }
        if i == self.topic_queues.len() {
            self.topic_queues.push(Partition { topic, queue: VecDeque::new() });
        }
        assert(self.topic_queues@[i as int].topic@ == topic@);
        assert(self.holds(topic@) && self.position(topic@) == i) by {
            assert(self.topic_queues@[i as int].topic@ == topic@);
        }
        let ghost before = *self;
        let ghost earlier = old(self).queue(topic@);
        assert(before.queue(topic@) == earlier) by {
            if old(self).holds(topic@) {
                assert(old(self).position(topic@) == i);
            }
        }
        self.topic_queues[i].queue.push_back(Message { id: PARTITION_MESSAGE_ID, message });
        proof {
            assert(self.topic_queues@[i as int].topic@ == topic@);
            assert(self.position(topic@) == i);
            assert forall|other: Seq<char>| other != topic@ implies self.holds(other) == old(
                self,
            ).holds(other) && self.queue(other) == old(self).queue(other) by {
                if old(self).holds(other) {
                    let p = old(self).position(other);
                    assert(self.topic_queues@[p].topic@ == other);
                    assert(self.position(other) == p);
                }
                if self.holds(other) {
                    let p = self.position(other);
                    assert(p != i);
                    assert(old(self).topic_queues@[p].topic@ == other);
                    assert(old(self).position(other) == p);
                }
            }
        }
    }
}

} // verus!
