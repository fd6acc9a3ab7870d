//! A named queue of messages, numbered in the order of their arrival.

use crate::broker::message::Message;
use std::collections::VecDeque;
use vstd::prelude::*;

verus! {

/// A queue of payloads of one kind, first in, first out.
pub struct Topic<T> {
    pub name: String,
    pub queue: VecDeque<Message<T>>,
    /// The id that the next published message gets.
    pub next_id: usize,
}

impl<T> Topic<T> {
    /// Every queued message has an id below the next one, and ids grow
    /// towards the back of the queue.
    pub open spec fn wf(&self) -> bool {
        &&& forall|i: int| 0 <= i < self.queue@.len() ==> (#[trigger] self.queue@[i]).id < self.next_id
        &&& forall|i: int, j: int|
            0 <= i < j < self.queue@.len() ==> (#[trigger] self.queue@[i]).id < (
            #[trigger] self.queue@[j]).id
    }

    /// An empty queue named `name`.
    pub fn new(name: &str) -> (topic: Self)
        ensures
            topic.name@ == name@,
            topic.queue@ == Seq::<Message<T>>::empty(),
            topic.next_id == 0,
            topic.wf(),
    {
        Self { name: name.to_owned(), queue: VecDeque::new(), next_id: 0 }
    }

    /// Queues `payload` behind what is there, under the next id.
    pub fn publish(&mut self, payload: T)
        requires
            old(self).next_id < usize::MAX,
        ensures
            final(self).name == old(self).name,
            final(self).queue@ == old(self).queue@.push(
                Message { id: old(self).next_id, payload },
            ),
            final(self).next_id == old(self).next_id + 1,
            old(self).wf() ==> final(self).wf(),
    {
        let id = self.next_id;
        self.next_id += 1;
        self.queue.push_back(Message { id, payload });
    }

    /// Takes the oldest message out of the queue, if there is one.
    pub fn consume(&mut self) -> (message: Option<Message<T>>)
        ensures
            final(self).name == old(self).name,
            final(self).next_id == old(self).next_id,
            match message {
                Some(m) => old(self).queue@.len() > 0 && m == old(self).queue@[0]
                    && final(self).queue@ == old(self).queue@.drop_first(),
                None => old(self).queue@.len() == 0 && final(self).queue@ == old(self).queue@,
            },
            old(self).wf() ==> final(self).wf(),
    {
        self.queue.pop_front()
    }
}

} // verus!
