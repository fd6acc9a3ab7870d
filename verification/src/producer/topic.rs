//! What one topic keeps: its subscribers, and the frames that wait for
//! their confirmation in a table of 64 shards.

use std::collections::HashMap;
use vstd::prelude::*;

verus! {

/// Number of shards of a pending table.
pub const SHARD_COUNT: usize = 64;

/// The shard that holds message `message_id`.
pub open spec fn spec_shard_index(message_id: usize) -> usize {
    (message_id % SHARD_COUNT) as usize
}

/// The shard that holds message `message_id`.
#[verifier::when_used_as_spec(spec_shard_index)]
pub fn shard_index(message_id: usize) -> (shard: usize)
    ensures
        shard == message_id % SHARD_COUNT,
        shard < SHARD_COUNT,
{
    message_id % SHARD_COUNT
}

/// The bytes of each frame of a list of frames.
pub open spec fn frames_view(frames: Seq<Vec<u8>>) -> Seq<Seq<u8>> {
    Seq::new(frames.len(), |i: int| frames[i]@)
}

/// What one topic keeps: its subscribers in the order they came, and the
/// frames sent on it that wait for confirmation, by message id.
pub struct TopicManager {
    receivers: Vec<usize>,
    messages_to_validate: Vec<HashMap<usize, Vec<Vec<u8>>>>,
}

impl TopicManager {
    /// The subscribed receiver ids, oldest first. An id is listed once for
    /// each time it subscribed.
    pub closed spec fn subscribers(&self) -> Seq<usize> {
        self.receivers@
    }

    /// The pending entries that shard `i` holds: for each message id the
    /// frames recorded for it, oldest first.
    pub closed spec fn shard(&self, i: int) -> Map<usize, Seq<Seq<u8>>> {
        Map::new(
            |k: usize| self.messages_to_validate@[i]@.contains_key(k),
            |k: usize| frames_view(self.messages_to_validate@[i]@[k]@),
        )
    }

    /// All pending entries: message `k` is looked up in shard `k mod 64`.
    pub open spec fn pending(&self) -> Map<usize, Seq<Seq<u8>>> {
        Map::new(
            |k: usize| self.shard(spec_shard_index(k) as int).contains_key(k),
            |k: usize| self.shard(spec_shard_index(k) as int)[k],
        )
    }

    /// There are `SHARD_COUNT` shards.
    pub closed spec fn sharded(&self) -> bool {
        self.messages_to_validate@.len() == SHARD_COUNT
    }

    /// The shards are all there and each holds only message ids of its own:
    /// whatever is pending for message `k` is in shard `k mod 64`.
    pub open spec fn wf(&self) -> bool {
        &&& self.sharded()
        &&& forall|i: int, k: usize|
            0 <= i < SHARD_COUNT && #[trigger] self.shard(i).contains_key(k) ==> spec_shard_index(k)
                == i
    }

    /// A topic without subscribers and with nothing pending.
    pub fn new() -> (manager: Self)
        ensures
            manager.wf(),
            manager.subscribers() == Seq::<usize>::empty(),
            forall|i: int| 0 <= i < SHARD_COUNT ==> manager.shard(i) == Map::<
                usize,
                Seq<Seq<u8>>,
            >::empty(),
            manager.pending() == Map::<usize, Seq<Seq<u8>>>::empty(),
    {
        let mut shards: Vec<HashMap<usize, Vec<Vec<u8>>>> = Vec::new();
        let mut i: usize = 0;
        while i < SHARD_COUNT
            invariant
                i <= SHARD_COUNT,
                shards@.len() == i,
                forall|j: int| 0 <= j < i ==> (#[trigger] shards@[j])@ == Map::<
                    usize,
                    Vec<Vec<u8>>,
                >::empty(),
            decreases SHARD_COUNT - i,
        {
            shards.push(HashMap::new());
            i += 1;
        }
        let manager = Self { receivers: Vec::new(), messages_to_validate: shards };
        assert forall|i: int| 0 <= i < SHARD_COUNT implies manager.shard(i) == Map::<
            usize,
            Seq<Seq<u8>>,
        >::empty() by {
            assert(manager.messages_to_validate@[i]@ == Map::<usize, Vec<Vec<u8>>>::empty());
            assert(manager.shard(i) =~= Map::<usize, Seq<Seq<u8>>>::empty());
        }
        assert(manager.pending() =~= Map::<usize, Seq<Seq<u8>>>::empty());
        manager
    }

    /// Appends `id` to the subscribers.
    pub fn subscribe(&mut self, id: usize)
        ensures
            final(self).subscribers() == old(self).subscribers().push(id),
            forall|i: int| final(self).shard(i) == old(self).shard(i),
            final(self).pending() == old(self).pending(),
            old(self).wf() ==> final(self).wf(),
    {
        self.receivers.push(id);
        assert(forall|i: int| self.shard(i) == old(self).shard(i));
    }

    /// Records `message` as one more frame sent for `message_id`, in the
    /// shard of that id and in no other.
    pub fn add_message_to_validate(&mut self, message_id: usize, message: Vec<u8>)
        requires
            old(self).wf(),
        ensures
            final(self).wf(),
            final(self).subscribers() == old(self).subscribers(),
            final(self).shard(spec_shard_index(message_id) as int) == old(self).shard(
                spec_shard_index(message_id) as int,
            ).insert(
                message_id,
                if old(self).pending().contains_key(message_id) {
                    old(self).pending()[message_id].push(message@)
                } else {
                    seq![message@]
                },
            ),
            forall|i: int|
                0 <= i < SHARD_COUNT && i != spec_shard_index(message_id) ==> final(self).shard(i)
                    == old(self).shard(i),
            final(self).pending() == old(self).pending().insert(
                message_id,
                if old(self).pending().contains_key(message_id) {
                    old(self).pending()[message_id].push(message@)
                } else {
                    seq![message@]
                },
            ),
    {
        let shard = shard_index(message_id);
        let ghost before = self.messages_to_validate@[shard as int]@;
        let mut attempts = match self.messages_to_validate[shard].remove(&message_id) {
            Some(attempts) => attempts,
            None => Vec::new(),
        };
        let ghost earlier = frames_view(attempts@);
        attempts.push(message);
        assert(frames_view(attempts@) =~= earlier.push(message@));
        self.messages_to_validate[shard].insert(message_id, attempts);
        proof {
            let entry = if old(self).pending().contains_key(message_id) {
                old(self).pending()[message_id].push(message@)
            } else {
                seq![message@]
            };
            assert(earlier.push(message@) =~= entry);
            assert(self.messages_to_validate@[shard as int]@ == before.remove(message_id).insert(
                message_id,
                attempts,
            ));
            assert(self.shard(shard as int) =~= old(self).shard(shard as int).insert(
                message_id,
                entry,
            ));
            assert forall|i: int| 0 <= i < SHARD_COUNT && i != shard implies self.shard(i) == old(
                self,
            ).shard(i) by {
                assert(self.messages_to_validate@[i] == old(self).messages_to_validate@[i]);
            }
            assert(self.pending() =~= old(self).pending().insert(message_id, entry));
        }
    }

    /// Takes out what is pending for `message_id`, if anything is.
    pub fn validate_message(&mut self, message_id: usize) -> (attempts: Option<Vec<Vec<u8>>>)
        requires
            old(self).wf(),
        ensures
            final(self).wf(),
            final(self).subscribers() == old(self).subscribers(),
            final(self).pending() == old(self).pending().remove(message_id),
            final(self).shard(spec_shard_index(message_id) as int) == old(self).shard(
                spec_shard_index(message_id) as int,
            ).remove(message_id),
            forall|i: int|
                0 <= i < SHARD_COUNT && i != spec_shard_index(message_id) ==> final(self).shard(i)
                    == old(self).shard(i),
            match attempts {
                Some(frames) => old(self).pending().contains_key(message_id)
                    && frames_view(frames@) == old(self).pending()[message_id],
                None => !old(self).pending().contains_key(message_id),
            },
    {
        let shard = shard_index(message_id);
        let attempts = self.messages_to_validate[shard].remove(&message_id);
        proof {
            assert(self.shard(shard as int) =~= old(self).shard(shard as int).remove(message_id));
            assert forall|i: int| 0 <= i < SHARD_COUNT && i != shard implies self.shard(i) == old(
                self,
            ).shard(i) by {
                assert(self.messages_to_validate@[i] == old(self).messages_to_validate@[i]);
            }
            assert(self.pending() =~= old(self).pending().remove(message_id));
        }
        attempts
    }

    /// The subscribed receiver ids, oldest first.
    pub fn receivers(&self) -> (ids: &Vec<usize>)
        ensures
            ids@ == self.subscribers(),
    {
        &self.receivers
    }

    /// Whether anything is pending for `message_id`.
    pub fn is_pending(&self, message_id: usize) -> (pending: bool)
        requires
            self.wf(),
        ensures
            pending == self.pending().contains_key(message_id),
    {
        self.messages_to_validate[shard_index(message_id)].contains_key(&message_id)
    }

    /// For how many message ids shard `shard` holds something; zero where
    /// there is no such shard.
    pub fn shard_len(&self, shard: usize) -> (n: usize)
        requires
            self.wf(),
        ensures
            shard < SHARD_COUNT ==> n == self.shard(shard as int).dom().len(),
            shard >= SHARD_COUNT ==> n == 0,
    {
        if shard < SHARD_COUNT {
            assert(self.shard(shard as int).dom() =~= self.messages_to_validate@[shard as int]@.dom());
            self.messages_to_validate[shard].len()
        } else {
            0
        }
    }

    /// Shard determinism: what is pending for message `k` is in shard
    /// `k mod 64` and in no other.
    pub proof fn lemma_shard_of(&self, k: usize)
        requires
            self.wf(),
        ensures
            self.pending().contains_key(k) <==> self.shard(k as int % 64).contains_key(k),
            self.pending().contains_key(k) ==> self.pending()[k] == self.shard(k as int % 64)[k],
            forall|i: int| 0 <= i < SHARD_COUNT && i != k % 64 ==> !self.shard(i).contains_key(k),
    {
    }
}

} // verus!
