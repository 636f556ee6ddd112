//! The errors that a chat reports.

use crate::stream::{fault_text, StreamError};
use vstd::prelude::*;
use vstd::string::StringExecFns;

verus! {

/// Why a chat operation failed, each with the report of its cause.
#[derive(Debug, PartialEq)]
pub enum ChatError {
    /// The chat cache could not be accessed.
    Cache(String),
    /// A chat could not be written as, or read from, its stored form.
    Serde(String),
    /// The request could not be built.
    Request(String),
    /// The stream could not be processed.
    Stream(String),
    /// The provider refused the request.
    Provider(String),
    /// A tool failed, such as the reader of a file.
    Tool(String),
    /// A task could not be joined.
    Join(String),
}

/// The mathematical value of a [`ChatError`].
pub enum ChatFault {
    Cache(Seq<char>),
    Serde(Seq<char>),
    Request(Seq<char>),
    Stream(Seq<char>),
    Provider(Seq<char>),
    Tool(Seq<char>),
    Join(Seq<char>),
}

impl View for ChatError {
    type V = ChatFault;

    open spec fn view(&self) -> ChatFault {
        match self {
            ChatError::Cache(cause) => ChatFault::Cache(cause@),
            ChatError::Serde(cause) => ChatFault::Serde(cause@),
            ChatError::Request(cause) => ChatFault::Request(cause@),
            ChatError::Stream(cause) => ChatFault::Stream(cause@),
            ChatError::Provider(cause) => ChatFault::Provider(cause@),
            ChatError::Tool(cause) => ChatFault::Tool(cause@),
            ChatError::Join(cause) => ChatFault::Join(cause@),
        }
    }
}

/// How a fault is reported: what failed, then the cause.
pub open spec fn chat_fault_text(fault: ChatFault) -> Seq<char> {
    match fault {
        ChatFault::Cache(cause) => "Failed to access chat cache: "@ + cause,
        ChatFault::Serde(cause) => "Failed to (de)serialize chat: "@ + cause,
        ChatFault::Request(cause) => "Failed to build chat request: "@ + cause,
        ChatFault::Stream(cause) => "Failed to process stream: "@ + cause,
        ChatFault::Provider(cause) => "Provider error: "@ + cause,
        ChatFault::Tool(cause) => "Tool error: "@ + cause,
        ChatFault::Join(cause) => "Tokio join error: "@ + cause,
    }
}

impl ChatError {
    /// The report of this error.
    pub fn to_string(&self) -> (s: String)
        ensures
            s@ == chat_fault_text(self@),
    {
        let (mut s, cause) = match self {
            ChatError::Cache(cause) => (String::from_str("Failed to access chat cache: "), cause),
            ChatError::Serde(cause) => (String::from_str("Failed to (de)serialize chat: "), cause),
            ChatError::Request(cause) => (String::from_str("Failed to build chat request: "), cause),
            ChatError::Stream(cause) => (String::from_str("Failed to process stream: "), cause),
            ChatError::Provider(cause) => (String::from_str("Provider error: "), cause),
            ChatError::Tool(cause) => (String::from_str("Tool error: "), cause),
            ChatError::Join(cause) => (String::from_str("Tokio join error: "), cause),
        };
        s.append(cause.as_str());
        s
    }

    /// A fault of the stream as an error of the chat: its report becomes the
    /// cause.
    pub fn from_stream(error: &StreamError) -> (r: Self)
        ensures
            r@ == ChatFault::Stream(fault_text(error@)),
    {
        ChatError::Stream(error.to_string())
    }
}

} // verus!
