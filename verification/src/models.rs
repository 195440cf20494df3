//! What a chat client sends and what it is sent.
use crate::json::{self, Json, JsonV};
use vstd::prelude::*;

verus! {

/// One message of a conversation.
#[derive(Debug)]
pub struct ChatMessage {
    pub role: String,
    pub content: Json,
}

/// A request for a chat completion.
#[derive(Debug)]
pub struct ChatRequest {
    pub model: String,
    pub messages: Vec<ChatMessage>,
    pub tools: Vec<Json>,
    pub stream: bool,
}

/// What an event adds to an answer.
#[derive(Debug)]
pub struct ResponseDelta {
    pub role: Option<String>,
    pub content: Option<String>,
    pub tool_calls: Option<Json>,
}

/// One of the answers that an event adds to.
#[derive(Debug)]
pub struct ResponseChoice {
    pub index: u32,
    pub delta: ResponseDelta,
    pub finish_reason: Option<String>,
}

/// A piece of a chat completion.
#[derive(Debug)]
pub struct ResponseEvent {
    pub id: String,
    pub object: String,
    pub created: i64,
    pub model: String,
    pub choices: Vec<ResponseChoice>,
}

/// What a message is.
pub struct MessageV {
    pub role: Seq<char>,
    pub content: JsonV,
}

/// What a delta is.
pub struct DeltaV {
    pub role: Option<Seq<char>>,
    pub content: Option<Seq<char>>,
    pub tool_calls: Option<JsonV>,
}

/// What a choice is.
pub struct ChoiceV {
    pub index: u32,
    pub delta: DeltaV,
    pub finish_reason: Option<Seq<char>>,
}

/// What an event is.
pub struct EventV {
    pub id: Seq<char>,
    pub object: Seq<char>,
    pub created: i64,
    pub model: Seq<char>,
    pub choices: Seq<ChoiceV>,
}

impl View for ChatMessage {
    type V = MessageV;

    open spec fn view(&self) -> MessageV {
        MessageV { role: self.role@, content: self.content@ }
    }
}

impl View for ResponseDelta {
    type V = DeltaV;

    open spec fn view(&self) -> DeltaV {
        DeltaV {
            role: json::option_text(self.role),
            content: json::option_text(self.content),
            tool_calls: json::option_view(self.tool_calls),
        }
    }
}

impl View for ResponseChoice {
    type V = ChoiceV;

    open spec fn view(&self) -> ChoiceV {
        ChoiceV {
            index: self.index,
            delta: self.delta@,
            finish_reason: json::option_text(self.finish_reason),
        }
    }
}

/// What a list of choices is.
pub open spec fn choices_view(choices: Seq<ResponseChoice>) -> Seq<ChoiceV> {
    choices.map_values(|c: ResponseChoice| c@)
}

/// What a list of messages is.
pub open spec fn messages_view(messages: Seq<ChatMessage>) -> Seq<MessageV> {
    messages.map_values(|m: ChatMessage| m@)
}

impl View for ResponseEvent {
    type V = EventV;

    open spec fn view(&self) -> EventV {
        EventV {
            id: self.id@,
            object: self.object@,
            created: self.created,
            model: self.model@,
            choices: choices_view(self.choices@),
        }
    }
}

} // verus!
