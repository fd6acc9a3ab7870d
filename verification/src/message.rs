//! What travels between producers and consumers, and the verdict that a
//! consumer gives on what it received.

use crate::text::same_text;
use vstd::prelude::*;
use vstd::std_specs::convert::FromSpecImpl;

verus! {

/// The verdict of a consumer on a frame.
#[derive(Debug, Clone, Copy, PartialEq, Eq, Structural)]
pub enum MessageStatus {
    /// The handler of the topic took the payload.
    Ack,
    /// The frame was malformed, or the payload or its handler failed.
    Failed,
    /// The topic is none that the consumer knows.
    Unknown,
}

/// What a message is for.
#[derive(Debug, Clone, Copy, PartialEq, Eq, Structural)]
pub enum MessageType {
    Event,
    Replicate,
    Ack,
}

/// A name that stands for no variant.
#[derive(Debug, Clone, Copy, PartialEq, Eq, Structural)]
pub enum ParseError {
    VariantNotFound,
}

/// Why a frame that was well formed got no `Ack`.
#[derive(Debug)]
pub enum MessageStatusError {
    /// No topic of that name is known.
    UnknownTopic(String),
    /// The payload or its handler failed; the text says how.
    Failed(String),
}

/// Who sent a message, and which of their messages it is.
#[derive(Debug, Clone, Copy, PartialEq, Eq, Structural)]
pub struct MessageId {
    pub producer_id: usize,
    pub message_id: usize,
}

/// A message with its envelope.
#[derive(Debug)]
pub struct Message<T, P> {
    pub message_type: MessageType,
    pub id: MessageId,
    pub topic: T,
    pub payload: P,
}

impl MessageStatus {
    /// The status that `name` stands for: `ack`, `failed` or `unknown`.
    pub open spec fn named(name: Seq<char>) -> Option<MessageStatus> {
        if name == "ack"@ {
            Some(MessageStatus::Ack)
        } else if name == "failed"@ {
            Some(MessageStatus::Failed)
        } else if name == "unknown"@ {
            Some(MessageStatus::Unknown)
        } else {
            None
        }
    }

    /// Reads a status from its name in snake case.
    pub fn parse(name: &str) -> (status: Result<MessageStatus, ParseError>)
        ensures
            match status {
                Ok(s) => Self::named(name@) == Some(s),
                Err(_) => Self::named(name@) is None,
            },
    {
        if same_text(name, "ack") {
            Ok(MessageStatus::Ack)
        } else if same_text(name, "failed") {
            Ok(MessageStatus::Failed)
        } else if same_text(name, "unknown") {
            Ok(MessageStatus::Unknown)
        } else {
            Err(ParseError::VariantNotFound)
        }
    }
}

impl MessageType {
    /// The type that `name` stands for: `event`, `replicate` or `ack`.
    pub open spec fn named(name: Seq<char>) -> Option<MessageType> {
        if name == "event"@ {
            Some(MessageType::Event)
        } else if name == "replicate"@ {
            Some(MessageType::Replicate)
        } else if name == "ack"@ {
            Some(MessageType::Ack)
        } else {
            None
        }
    }

    /// Reads a message type from its name in snake case.
    pub fn parse(name: &str) -> (message_type: Result<MessageType, ParseError>)
        ensures
            match message_type {
                Ok(t) => Self::named(name@) == Some(t),
                Err(_) => Self::named(name@) is None,
            },
    {
        if same_text(name, "event") {
            Ok(MessageType::Event)
        } else if same_text(name, "replicate") {
            Ok(MessageType::Replicate)
        } else if same_text(name, "ack") {
            Ok(MessageType::Ack)
        } else {
            Err(ParseError::VariantNotFound)
        }
    }
}

impl std::str::FromStr for MessageStatus {
    type Err = ParseError;

    fn from_str(name: &str) -> (status: Result<Self, ParseError>)
        ensures
            match status {
                Ok(s) => MessageStatus::named(name@) == Some(s),
                Err(_) => MessageStatus::named(name@) is None,
            },
    {
        MessageStatus::parse(name)
    }
}

impl std::str::FromStr for MessageType {
    type Err = ParseError;

    fn from_str(name: &str) -> (message_type: Result<Self, ParseError>)
        ensures
            match message_type {
                Ok(t) => MessageType::named(name@) == Some(t),
                Err(_) => MessageType::named(name@) is None,
            },
    {
        MessageType::parse(name)
    }
}

impl From<MessageStatusError> for MessageStatus {
    /// The status that is reported for `value`.
    fn from(value: MessageStatusError) -> (status: MessageStatus) {
        match value {
            MessageStatusError::UnknownTopic(_) => MessageStatus::Unknown,
            MessageStatusError::Failed(_) => MessageStatus::Failed,
        }
    }
}

impl FromSpecImpl<MessageStatusError> for MessageStatus {
    open spec fn obeys_from_spec() -> bool {
        true
    }

    open spec fn from_spec(value: MessageStatusError) -> MessageStatus {
        match value {
            MessageStatusError::UnknownTopic(_) => MessageStatus::Unknown,
            MessageStatusError::Failed(_) => MessageStatus::Failed,
        }
    }
}

} // verus!
