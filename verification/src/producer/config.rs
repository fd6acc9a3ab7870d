//! The configuration of a producer: which receivers there are and what each
//! of them subscribes to.

use crate::producer::laws::lemma_distinct_contains;
use crate::producer::view::{distinct, occurrences, texts};
use crate::text::same_text;
use vstd::prelude::*;
use vstd::std_specs::convert::FromSpecImpl;
use vstd::string::StrSliceExecFns;

verus! {

/// Number of workers where the configuration names none.
pub const DEFAULT_NB_WORKERS: u16 = 2;

/// Port where the configuration names none.
pub const DEFAULT_PORT: u16 = 8080;

/// One receiver of a configuration.
pub struct ReceiverConfig {
    pub id: usize,
    /// Network address in the form `host:port`.
    pub addr: String,
    /// Names of the topics that the receiver subscribes to.
    pub topics: Vec<String>,
}

/// A configuration as it is read: workers and port may be left out.
pub struct ProducerConfigOption {
    pub id: usize,
    pub nb_workers: Option<u16>,
    pub port: Option<u16>,
    pub receivers: Vec<ReceiverConfig>,
}

/// A configuration with every setting in place.
pub struct ProducerConfig {
    pub id: usize,
    pub receivers: Vec<ReceiverConfig>,
    pub nb_workers: u16,
    pub port: u16,
}

impl From<ProducerConfigOption> for ProducerConfig {
    /// Fills in the defaults for what was left out.
    fn from(config_option: ProducerConfigOption) -> (config: Self) {
        Self {
            id: config_option.id,
            receivers: config_option.receivers,
            nb_workers: match config_option.nb_workers {
                Some(nb_workers) => nb_workers,
                None => DEFAULT_NB_WORKERS,
            },
            port: match config_option.port {
                Some(port) => port,
                None => DEFAULT_PORT,
            },
        }
    }
}

impl FromSpecImpl<ProducerConfigOption> for ProducerConfig {
    open spec fn obeys_from_spec() -> bool {
        true
    }

    open spec fn from_spec(config_option: ProducerConfigOption) -> Self {
        ProducerConfig {
            id: config_option.id,
            receivers: config_option.receivers,
            nb_workers: match config_option.nb_workers {
                Some(nb_workers) => nb_workers,
                None => DEFAULT_NB_WORKERS,
            },
            port: match config_option.port {
                Some(port) => port,
                None => DEFAULT_PORT,
            },
        }
    }
}

/// A receiver of a configuration without its topics.
pub struct Receiver {
    pub id: usize,
    pub address: String,
}

/// The receivers that subscribe to one topic, each given by its position in
/// the configuration.
pub struct TopicReceivers {
    pub topic: String,
    pub receivers: Vec<usize>,
}

/// A configuration turned round: for each topic who subscribes to it.
pub struct ReceiversConfig {
    /// The topics in the order in which the configuration first names them.
    pub topics: Vec<TopicReceivers>,
    /// The receivers in the order of the configuration.
    pub receivers: Vec<Receiver>,
}

/// Every topic name of `receivers`, receiver by receiver.
pub open spec fn all_topics(receivers: Seq<ReceiverConfig>) -> Seq<Seq<char>>
    decreases receivers.len(),
{
    if receivers.len() == 0 {
        Seq::empty()
    } else {
        all_topics(receivers.drop_last()) + texts(receivers.last().topics@)
    }
}

/// The positions of the receivers that subscribe to `topic`, in rising
/// order; a receiver that names the topic several times is listed as often.
pub open spec fn positions_of(receivers: Seq<ReceiverConfig>, topic: Seq<char>) -> Seq<usize>
    decreases receivers.len(),
{
    if receivers.len() == 0 {
        Seq::empty()
    } else {
        positions_of(receivers.drop_last(), topic) + Seq::new(
            occurrences(texts(receivers.last().topics@), topic),
            |k: int| (receivers.len() - 1) as usize,
        )
    }
}

/// A name that does not occur is counted zero times.
pub proof fn lemma_occurrences_of_absent(names: Seq<Seq<char>>, name: Seq<char>)
    requires
        !names.contains(name),
    ensures
        occurrences(names, name) == 0,
    decreases names.len(),
{
    if names.len() > 0 {
        assert(names[names.len() - 1] != name);
        assert forall|i: int| 0 <= i < names.drop_last().len() implies names.drop_last()[i]
            != name by {
            assert(names[i] != name);
        }
        lemma_occurrences_of_absent(names.drop_last(), name);
    }
}

/// Nobody subscribes to a topic that no receiver names.
pub proof fn lemma_positions_of_absent(receivers: Seq<ReceiverConfig>, topic: Seq<char>)
    requires
        !all_topics(receivers).contains(topic),
    ensures
        positions_of(receivers, topic) == Seq::<usize>::empty(),
    decreases receivers.len(),
{
    if receivers.len() > 0 {
        let front = all_topics(receivers.drop_last());
        let last = texts(receivers.last().topics@);
        assert forall|i: int| 0 <= i < front.len() implies front[i] != topic by {
            assert((front + last)[i] == front[i]);
        }
        assert forall|i: int| 0 <= i < last.len() implies last[i] != topic by {
            assert((front + last)[front.len() + i] == last[i]);
        }
        lemma_positions_of_absent(receivers.drop_last(), topic);
        lemma_occurrences_of_absent(last, topic);
        assert(positions_of(receivers, topic) =~= Seq::<usize>::empty());
    }
}

/// The formats a configuration file may be written in.
#[derive(Debug, Clone, Copy, PartialEq, Eq, Structural)]
pub enum FileFormat {
    Json,
    Toml,
    Yaml,
}

/// Why a configuration file is not taken.
#[derive(Debug)]
pub enum ConfigError {
    /// The file name ends in something that names no known format.
    UnsupportedFormat(String),
}

/// Where the extension of `name` starts: behind its last dot, or at the
/// start where it holds no dot.
pub open spec fn extension_start(name: Seq<char>) -> int
    decreases name.len(),
{
    if name.len() == 0 {
        0
    } else if name.last() == '.' {
        name.len() as int
    } else {
        extension_start(name.drop_last())
    }
}

/// The extension of a file name: what stands behind its last dot, the whole
/// name where it holds no dot.
pub open spec fn extension(name: Seq<char>) -> Seq<char> {
    name.subrange(extension_start(name), name.len() as int)
}

/// The format that an extension names, if it names one.
pub open spec fn format_of(extension: Seq<char>) -> Option<FileFormat> {
    if extension == "json"@ {
        Some(FileFormat::Json)
    } else if extension == "toml"@ {
        Some(FileFormat::Toml)
    } else if extension == "yaml"@ || extension == "yml"@ {
        Some(FileFormat::Yaml)
    } else {
        None
    }
}

/// The extension starts behind a dot or at the start, and holds no dot.
pub proof fn lemma_extension_start(name: Seq<char>)
    ensures
        0 <= extension_start(name) <= name.len(),
        extension_start(name) > 0 ==> name[extension_start(name) - 1] == '.',
        forall|i: int| extension_start(name) <= i < name.len() ==> name[i] != '.',
        extension_start(name) == 0 ==> !name.contains('.'),
    decreases name.len(),
{
    if name.len() > 0 && name.last() != '.' {
        let front = name.drop_last();
        lemma_extension_start(front);
        assert forall|i: int| extension_start(name) <= i < name.len() implies name[i] != '.' by {
            if i < front.len() {
                assert(name[i] == front[i]);
            }
        }
        if extension_start(name) == 0 && name.contains('.') {
            let i = choose|i: int| 0 <= i < name.len() && name[i] == '.';
            assert(false);
        }
    }
}

/// The names of `topics`.
pub open spec fn topic_names(topics: Seq<TopicReceivers>) -> Seq<Seq<char>> {
    Seq::new(topics.len(), |i: int| topics[i].topic@)
}

impl ProducerConfig {
    /// Turns the configuration round: lists the receivers without their
    /// topics, and for each topic the receivers that subscribe to it.
    pub fn sort_by_topics(&self) -> (sorted: ReceiversConfig)
        ensures
            sorted.receivers@.len() == self.receivers@.len(),
            forall|i: int|
                0 <= i < self.receivers@.len() ==> (#[trigger] sorted.receivers@[i]).id
                    == self.receivers@[i].id && sorted.receivers@[i].address@
                    == self.receivers@[i].addr@,
            topic_names(sorted.topics@) == distinct(all_topics(self.receivers@)),
            forall|t: int|
                0 <= t < sorted.topics@.len() ==> (#[trigger] sorted.topics@[t]).receivers@
                    == positions_of(self.receivers@, sorted.topics@[t].topic@),
    {
        let mut topics: Vec<TopicReceivers> = Vec::new();
        let mut receivers: Vec<Receiver> = Vec::new();
        let mut i: usize = 0;
        assert(self.receivers@.take(0) =~= Seq::<ReceiverConfig>::empty());
        assert(topic_names(topics@) =~= distinct(all_topics(self.receivers@.take(0))));
        while i < self.receivers.len()
            invariant
                i <= self.receivers@.len(),
                receivers@.len() == i,
                forall|r: int|
                    0 <= r < i ==> (#[trigger] receivers@[r]).id == self.receivers@[r].id
                        && receivers@[r].address@ == self.receivers@[r].addr@,
                topic_names(topics@) == distinct(all_topics(self.receivers@.take(i as int))),
                forall|t: int|
                    0 <= t < topics@.len() ==> (#[trigger] topics@[t]).receivers@ == positions_of(
                        self.receivers@.take(i as int),
                        topics@[t].topic@,
                    ),
            decreases self.receivers@.len() - i,
        {
            let receiver_config = &self.receivers[i];
            receivers.push(
                Receiver { id: receiver_config.id, address: receiver_config.addr.clone() },
            );
            let ghost seen = self.receivers@.take(i as int);
            let ghost upto = self.receivers@.take(i + 1);
            let ghost wanted = texts(receiver_config.topics@);
            proof {
                assert(upto.drop_last() =~= seen);
                assert(upto.last() == self.receivers@[i as int]);
                assert(wanted.take(0) =~= Seq::<Seq<char>>::empty());
                assert(all_topics(seen) + wanted.take(0) =~= all_topics(seen));
                assert forall|t: int| 0 <= t < topics@.len() implies (#[trigger] topics@[t]).receivers@
                    == positions_of(seen, topics@[t].topic@) + Seq::new(
                    occurrences(wanted.take(0), topics@[t].topic@),
                    |k: int| i,
                ) by {
                    assert(positions_of(seen, topics@[t].topic@) + Seq::new(
                        0,
                        |k: int| i,
                    ) =~= positions_of(seen, topics@[t].topic@));
                }
            }
            let mut j: usize = 0;
            while j < receiver_config.topics.len()
                invariant
                    j <= receiver_config.topics@.len(),
                    i < self.receivers@.len(),
                    receiver_config == &self.receivers@[i as int],
                    seen == self.receivers@.take(i as int),
                    wanted == texts(receiver_config.topics@),
                    topic_names(topics@) == distinct(all_topics(seen) + wanted.take(j as int)),
                    forall|t: int|
                        0 <= t < topics@.len() ==> (#[trigger] topics@[t]).receivers@
                            == positions_of(seen, topics@[t].topic@) + Seq::new(
                            occurrences(wanted.take(j as int), topics@[t].topic@),
                            |k: int| i,
                        ),
                decreases receiver_config.topics@.len() - j,
            {
                let topic = &receiver_config.topics[j];
                let ghost name = topic@;
                let ghost names_before = topic_names(topics@);
                let ghost so_far = all_topics(seen) + wanted.take(j as int);
                let ghost next = all_topics(seen) + wanted.take(j + 1);
                proof {
                    assert(wanted.take(j + 1).drop_last() =~= wanted.take(j as int));
                    assert(wanted.take(j + 1).last() == name);
                    assert(next.drop_last() =~= so_far);
                    assert(next.last() == name);
                }
                let mut t: usize = 0;
                while t < topics.len() && !same_text(topics[t].topic.as_str(), topic.as_str())
                    invariant
                        t <= topics@.len(),
                        name == topic@,
                        forall|n: int| 0 <= n < t ==> (#[trigger] topics@[n]).topic@ != name,
                    decreases topics@.len() - t,
                {
                    t += 1;
                }
                let ghost old_topics = topics@;
                if t == topics.len() {
                    proof {
                        assert forall|n: int| 0 <= n < names_before.len() implies names_before[n]
                            != name by {
                            assert(topics@[n].topic@ != name);
                        }
                        assert(!distinct(so_far).contains(name));
                        lemma_distinct_contains(so_far, name);
                        assert forall|n: int| 0 <= n < all_topics(seen).len() implies all_topics(
                            seen,
                        )[n] != name by {
                            assert(so_far[n] == all_topics(seen)[n]);
                        }
                        assert forall|n: int| 0 <= n < j implies wanted.take(j as int)[n]
                            != name by {
                            assert(so_far[all_topics(seen).len() + n] == wanted.take(j as int)[n]);
                        }
                        lemma_positions_of_absent(seen, name);
                        lemma_occurrences_of_absent(wanted.take(j as int), name);
                    }
                    let mut first: Vec<usize> = Vec::new();
                    first.push(i);
                    topics.push(TopicReceivers { topic: topic.clone(), receivers: first });
                    proof {
                        assert(topic_names(topics@) =~= names_before.push(name));
                        assert(topics@[t as int].receivers@ =~= positions_of(seen, name) + Seq::new(
                            occurrences(wanted.take(j + 1), name),
                            |k: int| i,
                        ));
                    }
                } else {
                    proof {
                        assert(names_before[t as int] == name);
                        assert(distinct(so_far).contains(name));
                    }
                    topics[t].receivers.push(i);
                    proof {
                        assert(topic_names(topics@) =~= names_before);
                        let n = occurrences(wanted.take(j as int), name);
                        assert(Seq::new(n, |k: int| i).push(i) =~= Seq::new(n + 1, |k: int| i));
                        assert(topics@[t as int].receivers@ =~= positions_of(seen, name) + Seq::new(
                            occurrences(wanted.take(j + 1), name),
                            |k: int| i,
                        ));
                    }
                }
                proof {
                    assert forall|u: int| 0 <= u < topics@.len() implies (#[trigger] topics@[u]).receivers@
                        == positions_of(seen, topics@[u].topic@) + Seq::new(
                        occurrences(wanted.take(j + 1), topics@[u].topic@),
                        |k: int| i,
                    ) by {
                        if u != t {
                            assert(topics@[u] == old_topics[u]);
                            assert(old_topics[u].topic@ != name) by {
                                if u < t {
                                } else {
                                    assert(names_before[u] == old_topics[u].topic@);
                                    assert(names_before[t as int] == name);
                                    lemma_distinct_has_no_repetition(so_far, t as int, u);
                                }
                            }
                        }
                    }
                }
                j += 1;
            }
            proof {
                assert(wanted.take(receiver_config.topics@.len() as int) =~= wanted);
            }
            i += 1;
        }
        assert(self.receivers@.take(self.receivers@.len() as int) =~= self.receivers@);
        ReceiversConfig { topics, receivers }
    }
}

/// No name stands twice among the distinct names.
pub proof fn lemma_distinct_has_no_repetition(names: Seq<Seq<char>>, i: int, j: int)
    requires
        0 <= i < j < distinct(names).len(),
    ensures
        distinct(names)[i] != distinct(names)[j],
    decreases names.len(),
{
    if names.len() > 0 {
        let front = distinct(names.drop_last());
        if front.contains(names.last()) {
            lemma_distinct_has_no_repetition(names.drop_last(), i, j);
        } else if j < front.len() {
            lemma_distinct_has_no_repetition(names.drop_last(), i, j);
        } else {
            assert(front[i] != names.last());
        }
    }
}

/// The format of a configuration file, told by the extension of its name.
pub fn get_file_format(filename: &str) -> (format: Result<FileFormat, ConfigError>)
    ensures
        match format {
            Ok(f) => format_of(extension(filename@)) == Some(f),
            Err(ConfigError::UnsupportedFormat(e)) => format_of(extension(filename@)) is None
                && e@ == extension(filename@),
        },
{
    let len = filename.unicode_len();
    let mut start: usize = len;
    assert(filename@.take(len as int) =~= filename@);
    while start > 0 && filename.get_char(start - 1) != '.'
        invariant
            start <= len,
            len == filename@.len(),
            extension_start(filename@) == extension_start(filename@.take(start as int)),
        decreases start,
    {
        proof {
            let head = filename@.take(start as int);
            assert(head.last() == filename@[start - 1]);
            assert(head.drop_last() =~= filename@.take(start - 1));
        }
        start -= 1;
    }
    proof {
        let head = filename@.take(start as int);
        if start > 0 {
            assert(head.last() == filename@[start - 1]);
        }
    }
    let extension = filename.substring_char(start, len);
    if same_text(extension, "json") {
        Ok(FileFormat::Json)
    } else if same_text(extension, "toml") {
        Ok(FileFormat::Toml)
    } else if same_text(extension, "yaml") || same_text(extension, "yml") {
        Ok(FileFormat::Yaml)
    } else {
        Err(ConfigError::UnsupportedFormat(extension.to_owned()))
    }
}

} // verus!
