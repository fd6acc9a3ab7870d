//! The producer side: who is subscribed to what, who is healthy, and which
//! messages still wait for their confirmation.

use crate::frame::{encode, frame_bytes};
use crate::producer::config::{ProducerConfig, ReceiverConfig};
use crate::producer::laws::{lemma_distinct_contains, lemma_first_available_skip};
use crate::receiver::Receiver;
use crate::text::same_text;
use std::collections::HashMap;
use vstd::prelude::*;
use vstd::string::StringSliceAdditionalSpecFns;

pub mod config;
pub mod laws;
pub mod topic;
pub mod view;

pub use crate::producer::topic::{
    frames_view, shard_index, spec_shard_index, TopicManager, SHARD_COUNT,
};
pub use crate::producer::view::{
    covers, distinct, first_available, following_id, fresh_topic, initial_state, is_available,
    occurrences, registered_all, texts, ProducerView, ReceiverView, TopicView,
};

verus! {

/// Health of a receiver. It goes from `Available` to `Down` and not back,
/// unless the receiver is registered anew.
#[derive(Debug, Clone, Copy, PartialEq, Eq, Structural)]
pub enum ReceiverStatus {
    Available,
    Down,
}

/// What went wrong while a message was on its way out.
#[derive(Debug)]
pub enum ProducerError {
    /// Connecting or writing failed; the text says how.
    IO(String),
    /// The payload could not be turned into bytes.
    BinaryConversionError(String),
    /// The topic has no subscriber that is available.
    NoReceiverAvailable,
    /// The listener could not be told to stop.
    SendError(String),
}

/// A frame that is ready to be written, and where to.
pub struct Outbound {
    /// The topic that the message is on.
    pub topic: String,
    /// The receiver that was selected.
    pub receiver_id: usize,
    /// Its address.
    pub addr: String,
    /// The id under which the frame will wait for confirmation.
    pub message_id: usize,
    /// The bytes to write.
    pub frame: Vec<u8>,
}

/// A closed set of topics: the kinds of message that a producer sends.
pub trait TopicContainer: Sized {
    /// Every topic of the set. A set that does not say otherwise has none.
    fn get_topics() -> (topics: Vec<Self>)
        default_ensures
            topics@ == Seq::<Self>::empty(),
    {
        Vec::new()
    }

    /// The name under which the topic goes on the wire.
    fn name(&self) -> String;
}

/// A declared topic and what it keeps.
struct TopicSlot {
    name: String,
    manager: TopicManager,
}

/// Routes messages to receivers and keeps the books: the topics with their
/// subscribers and pending frames, the receiver directory, and the counter
/// that message ids come from.
pub struct ProducerManager {
    count: usize,
    producer_id: usize,
    topics: Vec<TopicSlot>,
    receivers: HashMap<usize, Receiver>,
}

impl View for ProducerManager {
    type V = ProducerView;

    closed spec fn view(&self) -> ProducerView {
        ProducerView {
            producer_id: self.producer_id,
            next_id: self.count,
            topics: Seq::new(
                self.topics@.len(),
                |i: int|
                    TopicView {
                        name: self.topics@[i].name@,
                        subscribers: self.topics@[i].manager.subscribers(),
                        pending: self.topics@[i].manager.pending(),
                    },
            ),
            receivers: Map::new(
                |k: usize| self.receivers@.contains_key(k),
                |k: usize|
                    ReceiverView {
                        addr: self.receivers@[k].addr@,
                        status: self.receivers@[k].status,
                    },
            ),
        }
    }
}

/// One more occurrence of `id` behind `n` of them.
proof fn lemma_repeat_push(id: usize, n: nat)
    ensures
        Seq::new(n, |k: int| id).push(id) == Seq::new(n + 1, |k: int| id),
{
    assert(Seq::new(n, |k: int| id).push(id) =~= Seq::new(n + 1, |k: int| id));
}

impl ProducerManager {
    /// Every topic's pending table is well sharded and every directory entry
    /// sits under its own id.
    pub closed spec fn inv(&self) -> bool {
        &&& forall|i: int| 0 <= i < self.topics@.len() ==> (#[trigger] self.topics@[i]).manager.wf()
        &&& forall|k: usize|
            self.receivers@.contains_key(k) ==> (#[trigger] self.receivers@[k]).id == k
    }

    /// The manager is consistent within and its view is well formed.
    pub open spec fn wf(&self) -> bool {
        self.inv() && self@.wf()
    }

    /// Where the topic named `topic` stands, if it is declared.
    fn find_topic(&self, topic: &str) -> (found: Option<usize>)
        ensures
            match found {
                Some(i) => i < self@.topics.len() && self@.topics[i as int].name == topic@
                    && i < self.topics@.len(),
                None => !self@.declares(topic@),
            },
    {
        let mut i: usize = 0;
        while i < self.topics.len()
            invariant
                i <= self.topics@.len(),
                self@.topics.len() == self.topics@.len(),
                forall|j: int| 0 <= j < i ==> (#[trigger] self@.topics[j]).name != topic@,
            decreases self.topics@.len() - i,
        {
            if same_text(self.topics[i].name.as_str(), topic) {
                assert(self@.topics[i as int].name == topic@);
                return Some(i);
            }
            i += 1;
        }
        None
    }

    /// A manager for the topics named in `names`, each declared once, with an
    /// empty directory. Message ids start at zero.
    pub fn with_topics(id: usize, names: &[String]) -> (manager: Self)
        ensures
            manager.wf(),
            manager@ == initial_state(id, texts(names@)),
    {
        let mut manager = Self {
            count: 0,
            producer_id: id,
            topics: Vec::new(),
            receivers: HashMap::new(),
        };
        assert(manager@.receivers =~= Map::<usize, ReceiverView>::empty());
        assert(texts(names@).take(0) =~= Seq::<Seq<char>>::empty());
        assert(manager@.topics =~= distinct(texts(names@).take(0)).map_values(
            |name: Seq<char>| fresh_topic(name),
        ));
        let mut i: usize = 0;
        while i < names.len()
            invariant
                i <= names@.len(),
                manager.wf(),
                manager@.producer_id == id,
                manager@.next_id == 0,
                manager@.receivers == Map::<usize, ReceiverView>::empty(),
                manager@.topics == distinct(texts(names@).take(i as int)).map_values(
                    |name: Seq<char>| fresh_topic(name),
                ),
            decreases names@.len() - i,
        {
            let ghost before = manager@;
            let ghost seen = texts(names@).take(i as int);
            let ghost upto = texts(names@).take(i + 1);
            proof {
                assert(upto.drop_last() =~= seen);
                assert(upto.last() == names@[i as int]@);
            }
            let found = manager.find_topic(names[i].as_str());
            proof {
                let name = names@[i as int]@;
                if distinct(seen).contains(name) {
                    let k = choose|k: int| 0 <= k < distinct(seen).len() && distinct(seen)[k] == name;
                    assert(before.topics[k].name == name);
                } else if found is Some {
                    assert(distinct(seen)[found->0 as int] == name);
                }
                assert(found is Some <==> distinct(seen).contains(name));
            }
            if found.is_none() {
                manager.topics.push(TopicSlot { name: names[i].clone(), manager: TopicManager::new() });
                proof {
                    assert(manager@.topics =~~= before.topics.push(fresh_topic(names@[i as int]@)));
                    assert(manager@.topics =~~= distinct(upto).map_values(
                        |name: Seq<char>| fresh_topic(name),
                    ));
                    assert(manager@.receivers =~= before.receivers);
                }
            }
            i += 1;
        }
        assert(texts(names@).take(names@.len() as int) =~= texts(names@));
        assert(manager@ =~~= initial_state(id, texts(names@)));
        manager
    }

    /// A manager for the topics of `T`, with an empty directory.
    pub fn new<T: TopicContainer>(id: usize) -> (manager: Self)
        ensures
            manager.wf(),
            manager@.producer_id == id,
            manager@.next_id == 0,
            manager@.receivers == Map::<usize, ReceiverView>::empty(),
            forall|i: int|
                0 <= i < manager@.topics.len() ==> #[trigger] manager@.topics[i] == fresh_topic(
                    manager@.topics[i].name,
                ),
    {
        let topics = T::get_topics();
        let mut names: Vec<String> = Vec::new();
        let mut i: usize = 0;
        while i < topics.len()
            invariant
                i <= topics@.len(),
            decreases topics@.len() - i,
        {
            names.push(topics[i].name());
            i += 1;
        }
        Self::with_topics(id, names.as_slice())
    }

    /// Whether every topic that a receiver of `config` subscribes to is
    /// among `topics`.
    pub fn covers_config(config: &ProducerConfig, topics: &[String]) -> (covered: bool)
        ensures
            covered == covers(texts(topics@), config.receivers@),
    {
        let mut i: usize = 0;
        while i < config.receivers.len()
            invariant
                i <= config.receivers@.len(),
                covers(texts(topics@), config.receivers@.take(i as int)),
            decreases config.receivers@.len() - i,
        {
            let wanted = &config.receivers[i].topics;
            let mut j: usize = 0;
            while j < wanted.len()
                invariant
                    j <= wanted@.len(),
                    i < config.receivers@.len(),
                    wanted == config.receivers@[i as int].topics,
                    forall|k: int| 0 <= k < j ==> texts(topics@).contains(#[trigger] wanted@[k]@),
                decreases wanted@.len() - j,
            {
                let mut k: usize = 0;
                let mut found = false;
                while k < topics.len() && !found
                    invariant
                        k <= topics@.len(),
                        j < wanted@.len(),
                        found ==> texts(topics@).contains(wanted@[j as int]@),
                        !found ==> forall|n: int| 0 <= n < k ==> texts(topics@)[n] != wanted@[j as int]@,
                    decreases topics@.len() - k + if found { 0int } else { 1int },
                {
                    if same_text(topics[k].as_str(), wanted[j].as_str()) {
                        assert(texts(topics@)[k as int] == wanted@[j as int]@);
                        found = true;
                    } else {
                        k += 1;
                    }
                }
                if !found {
                    assert(!texts(topics@).contains(config.receivers@[i as int].topics@[j as int]@));
                    return false;
                }
                j += 1;
            }
            proof {
                let done = config.receivers@.take(i + 1);
                assert forall|a: int, b: int|
                    0 <= a < done.len() && 0 <= b < done[a].topics@.len() implies texts(
                    topics@,
                ).contains(#[trigger] done[a].topics@[b]@) by {
                    if a < i {
                        assert(config.receivers@.take(i as int)[a] == done[a]);
                    }
                }
            }
            i += 1;
        }
        assert(config.receivers@.take(config.receivers@.len() as int) =~= config.receivers@);
        true
    }

    /// A manager for `topics` in which every receiver of `config` is
    /// registered, in the order of the configuration.
    pub fn from_config(config: &ProducerConfig, topics: &[String]) -> (manager: Self)
        requires
            covers(texts(topics@), config.receivers@),
        ensures
            manager.wf(),
            manager@ == registered_all(initial_state(config.id, texts(topics@)), config.receivers@),
    {
        let mut manager = Self::with_topics(config.id, topics);
        let ghost start = manager@;
        assert(config.receivers@.take(0) =~= Seq::<ReceiverConfig>::empty());
        let mut i: usize = 0;
        while i < config.receivers.len()
            invariant
                i <= config.receivers@.len(),
                covers(texts(topics@), config.receivers@),
                start == initial_state(config.id, texts(topics@)),
                manager.wf(),
                manager@ == registered_all(start, config.receivers@.take(i as int)),
                manager@.topics.len() == start.topics.len(),
                forall|t: int|
                    0 <= t < start.topics.len() ==> (#[trigger] manager@.topics[t]).name
                        == start.topics[t].name,
            decreases config.receivers@.len() - i,
        {
            let receiver = &config.receivers[i];
            proof {
                let upto = config.receivers@.take(i + 1);
                assert(upto.drop_last() =~= config.receivers@.take(i as int));
                assert(upto.last() == config.receivers@[i as int]);
                assert forall|j: int| 0 <= j < receiver.topics@.len() implies manager@.declares(
                    #[trigger] receiver.topics@[j]@,
                ) by {
                    let name = receiver.topics@[j]@;
                    assert(texts(topics@).contains(config.receivers@[i as int].topics@[j]@));
                    lemma_distinct_contains(texts(topics@), name);
                    let t = choose|t: int|
                        0 <= t < distinct(texts(topics@)).len() && distinct(texts(topics@))[t]
                            == name;
                    assert(start.topics[t].name == name);
                    assert(manager@.topics[t].name == name);
                }
            }
            manager.add_receiver(receiver.id, receiver.addr.as_str(), receiver.topics.as_slice());
            i += 1;
        }
        assert(config.receivers@.take(config.receivers@.len() as int) =~= config.receivers@);
        manager
    }

    /// Registers receiver `id` at `addr` and subscribes it to each of
    /// `topics`. An entry that was there under `id` is replaced. Says
    /// whether `id` is new to the directory.
    pub fn add_receiver(&mut self, id: usize, addr: &str, topics: &[String]) -> (is_new: bool)
        requires
            old(self).wf(),
            forall|i: int| 0 <= i < topics@.len() ==> old(self)@.declares(#[trigger] topics@[i]@),
        ensures
            final(self).wf(),
            is_new == !old(self)@.receivers.contains_key(id),
            final(self)@ == old(self)@.registered(id, addr@, texts(topics@)),
    {
        let ghost addr_text = addr@;
        let ghost names = texts(topics@);
        let is_new = self.receivers.insert(id, Receiver::new(id, addr.to_owned())).is_none();
        proof {
            assert(names.take(0) =~= Seq::<Seq<char>>::empty());
            assert forall|t: int| 0 <= t < self@.topics.len() implies self@.topics[t].subscribers
                =~= old(self)@.topics[t].subscribers + Seq::new(
                occurrences(names.take(0), old(self)@.topics[t].name),
                |k: int| id,
            ) by {}
            assert(self@ =~~= old(self)@.registered(id, addr_text, names.take(0)));
        }
        let mut i: usize = 0;
        while i < topics.len()
            invariant
                i <= topics@.len(),
                names == texts(topics@),
                old(self).wf(),
                forall|i: int| 0 <= i < topics@.len() ==> old(self)@.declares(#[trigger] topics@[i]@),
                self.wf(),
                self@ == old(self)@.registered(id, addr_text, names.take(i as int)),
            decreases topics@.len() - i,
        {
            let ghost before = self@;
            let ghost seen = names.take(i as int);
            let ghost upto = names.take(i + 1);
            let ghost name = topics@[i as int]@;
            proof {
                assert(upto.drop_last() =~= seen);
                assert(upto.last() == name);
                assert(old(self)@.declares(name));
                let w = choose|w: int|
                    0 <= w < old(self)@.topics.len() && #[trigger] old(self)@.topics[w].name == name;
                assert(before.topics[w].name == name);
            }
            match self.find_topic(topics[i].as_str()) {
                Some(position) => {
                    self.topics[position].manager.subscribe(id);
                    proof {
                        let p = position as int;
                        assert forall|t: int| 0 <= t < self@.topics.len() implies self@.topics[t]
                            == old(self)@.registered(id, addr_text, upto).topics[t] by {
                            let topic_name = old(self)@.topics[t].name;
                            let n = occurrences(seen, topic_name);
                            if t == p {
                                lemma_repeat_push(id, n);
                                assert(self@.topics[t].subscribers =~= old(self)@.topics[t].subscribers
                                    + Seq::new(n + 1, |k: int| id));
                            } else {
                                assert(before.topics[t].name != before.topics[p].name);
                                assert(self@.topics[t].subscribers =~= before.topics[t].subscribers);
                            }
                        }
                        assert(self@ =~~= old(self)@.registered(id, addr_text, upto));
                    }
                },
                None => {},
            }
            i += 1;
        }
        assert(names.take(topics@.len() as int) =~= names);
        is_new
    }

    /// The receiver that a message on `topic` goes to.
    pub fn get_receiver_id_by_topic(&self, topic: &str) -> (receiver: Option<usize>)
        requires
            self.wf(),
        ensures
            receiver == self@.select(topic@),
            receiver matches Some(id) ==> is_available(self@.receivers, id),
    {
        let position = match self.find_topic(topic) {
            Some(position) => position,
            None => {
                return None;
            },
        };
        assert(self@.position(topic@) == position);
        let subscribers = self.topics[position].manager.receivers();
        let ghost subs = self@.topics[position as int].subscribers;
        assert(subs == subscribers@);
        let mut i: usize = 0;
        while i < subscribers.len()
            invariant
                i <= subscribers@.len(),
                subs == subscribers@,
                self@.select(topic@) == first_available(subs, self@.receivers),
                forall|j: int| 0 <= j < i ==> !is_available(self@.receivers, #[trigger] subs[j]),
            decreases subscribers@.len() - i,
        {
            let id = subscribers[i];
            let available = match self.receivers.get(&id) {
                Some(receiver) => receiver.status == ReceiverStatus::Available,
                None => false,
            };
            assert(available == is_available(self@.receivers, id));
            if available {
                proof {
                    lemma_first_available_skip(subs, self@.receivers, i as int);
                    let rest = subs.subrange(i as int, subs.len() as int);
                    assert(rest.len() > 0 && rest[0] == id);
                    assert(first_available(rest, self@.receivers) == Some(id));
                }
                return Some(id);
            }
            i += 1;
        }
        proof {
            lemma_first_available_skip(subs, self@.receivers, subs.len() as int);
        }
        None
    }

    /// Marks receiver `receiver_id` as down.
    pub fn mark_receiver_down(&mut self, receiver_id: usize)
        requires
            old(self).wf(),
            old(self)@.receivers.contains_key(receiver_id),
        ensures
            final(self).wf(),
            final(self)@ == old(self)@.marked_down(receiver_id),
    {
        match self.receivers.remove(&receiver_id) {
            Some(receiver) => {
                self.receivers.insert(
                    receiver_id,
                    Receiver { id: receiver.id, addr: receiver.addr, status: ReceiverStatus::Down },
                );
            },
            None => {},
        }
        assert(self@ =~~= old(self)@.marked_down(receiver_id));
    }

    /// Hands out the next message id.
    pub fn generate_message_id(&mut self) -> (id: usize)
        ensures
            id == old(self)@.next_id,
            final(self)@ == old(self)@.advanced(),
            old(self).wf() ==> final(self).wf(),
    {
        let id = self.count;
        self.count = if id == usize::MAX {
            0
        } else {
            id + 1
        };
        assert(self@ =~~= old(self)@.advanced());
        id
    }

    /// Prepares one message on `topic`: selects the receiver, hands out the
    /// message id and frames the payload. The caller writes the frame to the
    /// receiver and reports with `conclude_send`. Where no subscriber of the
    /// topic is available, nothing changes.
    pub fn send(&mut self, topic: &str, payload: &[u8]) -> (outbound: Result<Outbound, ProducerError>)
        requires
            old(self).wf(),
        ensures
            final(self).wf(),
            match outbound {
                Ok(out) => {
                    &&& out.topic@ == topic@
                    &&& old(self)@.declares(topic@)
                    &&& old(self)@.select(topic@) == Some(out.receiver_id)
                    &&& is_available(old(self)@.receivers, out.receiver_id)
                    &&& out.addr@ == old(self)@.receivers[out.receiver_id].addr
                    &&& out.message_id == old(self)@.next_id
                    &&& out.frame@ == frame_bytes(topic.spec_bytes(), payload@)
                    &&& final(self)@ == old(self)@.advanced()
                },
                Err(e) => {
                    &&& e is NoReceiverAvailable
                    &&& old(self)@.select(topic@) is None
                    &&& final(self)@ == old(self)@
                },
            },
    {
        let receiver_id = match self.get_receiver_id_by_topic(topic) {
            Some(receiver_id) => receiver_id,
            None => {
                return Err(ProducerError::NoReceiverAvailable);
            },
        };
        let addr = match self.receivers.get(&receiver_id) {
            Some(receiver) => receiver.addr.clone(),
            None => {
                return Err(ProducerError::NoReceiverAvailable);
            },
        };
        let message_id = self.generate_message_id();
        let frame = encode(topic, payload);
        Ok(Outbound { topic: topic.to_owned(), receiver_id, addr, message_id, frame })
    }

    /// Closes a send that `send` prepared, given how the write went. A frame
    /// that was written waits under its message id for confirmation. A
    /// transport failure marks the receiver down; every failure is handed
    /// back, and nothing is recorded for it.
    pub fn conclude_send(&mut self, outbound: Outbound, written: Result<(), ProducerError>) -> (done:
        Result<(), ProducerError>)
        requires
            old(self).wf(),
            written is Ok ==> old(self)@.declares(outbound.topic@),
            written matches Err(ProducerError::IO(_)) ==> old(self)@.receivers.contains_key(
                outbound.receiver_id,
            ),
        ensures
            final(self).wf(),
            done == written,
            match written {
                Ok(_) => final(self)@ == old(self)@.recorded(
                    old(self)@.position(outbound.topic@),
                    outbound.message_id,
                    outbound.frame@,
                ),
                Err(ProducerError::IO(_)) => final(self)@ == old(self)@.marked_down(
                    outbound.receiver_id,
                ),
                Err(_) => final(self)@ == old(self)@,
            },
    {
        match &written {
            Ok(_) => {
                self.add_message_to_validate(
                    outbound.topic.as_str(),
                    outbound.message_id,
                    outbound.frame,
                );
            },
            Err(ProducerError::IO(_)) => {
                self.mark_receiver_down(outbound.receiver_id);
            },
            Err(_) => {},
        }
        written
    }

    /// Records `message` as sent under `message_id` on `topic`, where it
    /// waits for its confirmation.
    pub fn add_message_to_validate(&mut self, topic: &str, message_id: usize, message: Vec<u8>)
        requires
            old(self).wf(),
            old(self)@.declares(topic@),
        ensures
            final(self).wf(),
            final(self)@ == old(self)@.recorded(old(self)@.position(topic@), message_id, message@),
    {
        match self.find_topic(topic) {
            Some(position) => {
                assert(self@.position(topic@) == position);
                self.topics[position].manager.add_message_to_validate(message_id, message);
                assert(self@ =~~= old(self)@.recorded(position as int, message_id, message@));
            },
            None => {},
        }
    }

    /// Takes out what is pending for `message_id` on `topic`: the frames
    /// recorded for it, oldest first. Nothing is pending on a topic that is
    /// not declared.
    pub fn validate_message(&mut self, topic: &str, message_id: usize) -> (attempts: Option<
        Vec<Vec<u8>>,
    >)
        requires
            old(self).wf(),
        ensures
            final(self).wf(),
            match attempts {
                Some(frames) => {
                    &&& old(self)@.declares(topic@)
                    &&& old(self)@.topics[old(self)@.position(topic@)].pending.contains_key(
                        message_id,
                    )
                    &&& frames_view(frames@) == old(self)@.topics[old(self)@.position(
                        topic@,
                    )].pending[message_id]
                    &&& final(self)@ == old(self)@.validated(
                        old(self)@.position(topic@),
                        message_id,
                    )
                },
                None => {
                    &&& old(self)@.declares(topic@) ==> !old(self)@.topics[old(self)@.position(
                        topic@,
                    )].pending.contains_key(message_id)
                    &&& final(self)@ == old(self)@
                },
            },
    {
        match self.find_topic(topic) {
            Some(position) => {
                assert(self@.position(topic@) == position);
                let attempts = self.topics[position].manager.validate_message(message_id);
                proof {
                    assert(self@ =~~= old(self)@.validated(position as int, message_id));
                    if attempts is None {
                        assert(old(self)@.topics[position as int].pending.remove(message_id)
                            =~= old(self)@.topics[position as int].pending);
                        assert(self@ =~~= old(self)@);
                    }
                }
                attempts
            },
            None => None,
        }
    }

    /// The id of the producer that the manager works for.
    pub fn producer_id(&self) -> (id: usize)
        ensures
            id == self@.producer_id,
    {
        self.producer_id
    }

    /// The id that the next message gets.
    pub fn next_id(&self) -> (id: usize)
        ensures
            id == self@.next_id,
    {
        self.count
    }

    /// Whether a topic named `topic` is declared.
    pub fn has_topic(&self, topic: &str) -> (declared: bool)
        ensures
            declared == self@.declares(topic@),
    {
        self.find_topic(topic).is_some()
    }

    /// The health of receiver `id`, if it is in the directory.
    pub fn receiver_status(&self, id: usize) -> (status: Option<ReceiverStatus>)
        ensures
            match status {
                Some(s) => self@.receivers.contains_key(id) && self@.receivers[id].status == s,
                None => !self@.receivers.contains_key(id),
            },
    {
        match self.receivers.get(&id) {
            Some(receiver) => Some(receiver.status),
            None => None,
        }
    }

    /// The subscribers of `topic`, oldest first, if the topic is declared.
    pub fn subscribers(&self, topic: &str) -> (ids: Option<&Vec<usize>>)
        requires
            self.wf(),
        ensures
            match ids {
                Some(ids) => self@.declares(topic@) && ids@ == self@.topics[self@.position(
                    topic@,
                )].subscribers,
                None => !self@.declares(topic@),
            },
    {
        match self.find_topic(topic) {
            Some(position) => {
                assert(self@.position(topic@) == position);
                Some(self.topics[position].manager.receivers())
            },
            None => None,
        }
    }

    /// Whether anything is pending for `message_id` on `topic`.
    pub fn is_pending(&self, topic: &str, message_id: usize) -> (pending: bool)
        requires
            self.wf(),
        ensures
            pending == (self@.declares(topic@) && self@.topics[self@.position(
                topic@,
            )].pending.contains_key(message_id)),
    {
        match self.find_topic(topic) {
            Some(position) => {
                assert(self@.position(topic@) == position);
                self.topics[position].manager.is_pending(message_id)
            },
            None => false,
        }
    }
}

} // verus!
