//! What can go wrong between the two APIs.

use vstd::prelude::*;

verus! {

/// Why a request or a reply could not be carried over.
#[derive(Debug)]
pub enum BridgeError {
    /// The body of the request is not JSON.
    RequestNotJson,
    /// Neither the configuration nor the request names a model.
    MissingModel,
    /// Nothing in the request becomes a message.
    NoMessages,
    /// The body of the reply is not JSON.
    ReplyNotJson,
    /// The reply holds no choice.
    MissingChoice,
    /// The first choice of the reply holds no message.
    MissingMessage,
    /// A chunk of the reply, given here, is not JSON.
    ChunkNotJson(String),
}

/// What a [`BridgeError`] means.
pub enum ErrorValue {
    RequestNotJson,
    MissingModel,
    NoMessages,
    ReplyNotJson,
    MissingChoice,
    MissingMessage,
    ChunkNotJson(Seq<char>),
}

impl ErrorValue {
    /// The sentence that tells a client what went wrong.
    pub open spec fn sentence(self) -> Seq<char> {
        match self {
            ErrorValue::RequestNotJson => "parsing Responses request body"@,
            ErrorValue::MissingModel => "Responses request is missing `model`"@,
            ErrorValue::NoMessages => "Responses request did not contain any chat messages"@,
            ErrorValue::ReplyNotJson => "parsing chat completions response"@,
            ErrorValue::MissingChoice => "chat completions response did not contain choices[0]"@,
            ErrorValue::MissingMessage => "chat completions choice did not contain message"@,
            ErrorValue::ChunkNotJson(data) => "parsing chat completions stream chunk: "@ + data,
        }
    }
}

impl View for BridgeError {
    type V = ErrorValue;

    open spec fn view(&self) -> ErrorValue {
        match self {
            BridgeError::RequestNotJson => ErrorValue::RequestNotJson,
            BridgeError::MissingModel => ErrorValue::MissingModel,
            BridgeError::NoMessages => ErrorValue::NoMessages,
            BridgeError::ReplyNotJson => ErrorValue::ReplyNotJson,
            BridgeError::MissingChoice => ErrorValue::MissingChoice,
            BridgeError::MissingMessage => ErrorValue::MissingMessage,
            BridgeError::ChunkNotJson(data) => ErrorValue::ChunkNotJson(data@),
        }
    }
}

impl BridgeError {
    /// Gives the sentence that tells a client what went wrong.
    pub fn message(&self) -> (message: String)
        ensures
            message@ == self@.sentence(),
    {
        match self {
            BridgeError::RequestNotJson => "parsing Responses request body".to_owned(),
            BridgeError::MissingModel => "Responses request is missing `model`".to_owned(),
            BridgeError::NoMessages => {
                "Responses request did not contain any chat messages".to_owned()
            },
            BridgeError::ReplyNotJson => "parsing chat completions response".to_owned(),
            BridgeError::MissingChoice => {
                "chat completions response did not contain choices[0]".to_owned()
            },
            BridgeError::MissingMessage => {
                "chat completions choice did not contain message".to_owned()
            },
            BridgeError::ChunkNotJson(data) => {
                let mut message = "parsing chat completions stream chunk: ".to_owned();
                message.push_str(data.as_str());
                message
            },
        }
    }
}

/// Each error has a sentence of its own, and the one about a chunk ends with the chunk, word for
/// word.
pub proof fn law_sentences(data: Seq<char>)
    ensures
        ErrorValue::RequestNotJson.sentence() == "parsing Responses request body"@,
        ErrorValue::MissingModel.sentence() == "Responses request is missing `model`"@,
        ErrorValue::NoMessages.sentence() == "Responses request did not contain any chat messages"@,
        ErrorValue::ReplyNotJson.sentence() == "parsing chat completions response"@,
        ErrorValue::MissingChoice.sentence()
            == "chat completions response did not contain choices[0]"@,
        ErrorValue::MissingMessage.sentence() == "chat completions choice did not contain message"@,
        ErrorValue::ChunkNotJson(data).sentence() == "parsing chat completions stream chunk: "@
            + data,
{
}

} // verus!
