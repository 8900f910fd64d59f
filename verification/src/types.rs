use vstd::prelude::*;
use vstd::string::StringExecFns;
use crate::json::{Json, JsonNum, JsonV, jview_list};

verus! {

/// One turn of a conversation. `content` may be absent for turns that carry
/// only a function call.
#[derive(Debug, Clone, PartialEq)]
pub struct Message {
    pub content: Option<String>,
    pub role: String,
    pub function_call: Option<String>,
}

/// The mathematical shape of a [`Message`].
#[verifier::ext_equal]
pub struct MessageV {
    pub content: Option<Seq<char>>,
    pub role: Seq<char>,
    pub function_call: Option<Seq<char>>,
}

impl View for Message {
    type V = MessageV;

    open spec fn view(&self) -> MessageV {
        MessageV {
            content: match self.content {
                Some(c) => Some(c@),
                None => None,
            },
            role: self.role@,
            function_call: match self.function_call {
                Some(f) => Some(f@),
                None => None,
            },
        }
    }
}

/// Kind of sender of a message.
#[derive(Debug, Clone, Copy, PartialEq, Eq, Structural)]
pub enum Role {
    /// A user sent this message.
    User,
    /// The model sent this message.
    Assistant,
}

impl Role {
    /// The wire name of this role.
    pub open spec fn spec_name(self) -> Seq<char> {
        match self {
            Role::User => "user"@,
            Role::Assistant => "assistant"@,
        }
    }

    /// The wire name of this role, as it stands in a message's `role` field.
    pub fn name(&self) -> (r: String)
        ensures
            r@ == self.spec_name(),
    {
        match self {
            Role::User => String::from_str("user"),
            Role::Assistant => String::from_str("assistant"),
        }
    }
}

/// Token accounting as the server reports it.
#[derive(Debug, Clone, Copy, PartialEq, Eq, Structural)]
pub struct Usage {
    pub prompt_tokens: usize,
    pub completion_tokens: usize,
    pub total_tokens: usize,
}

/// One alternative completion inside a full response.
#[derive(Debug, Clone, PartialEq)]
pub struct ConversationChoice {
    pub index: u64,
    pub message: Message,
}

/// The mathematical shape of a [`ConversationChoice`].
#[verifier::ext_equal]
pub struct ConversationChoiceV {
    pub index: u64,
    pub message: MessageV,
}

impl View for ConversationChoice {
    type V = ConversationChoiceV;

    open spec fn view(&self) -> ConversationChoiceV {
        ConversationChoiceV { index: self.index, message: self.message@ }
    }
}

/// A full, non-streaming reply.
#[derive(Debug, Clone, PartialEq)]
pub struct ConversationResponse {
    pub id: String,
    pub object: String,
    pub created: u64,
    pub choices: Vec<ConversationChoice>,
    pub usage: Usage,
}

/// The mathematical shape of a [`ConversationResponse`].
#[verifier::ext_equal]
pub struct ConversationResponseV {
    pub id: Seq<char>,
    pub object: Seq<char>,
    pub created: u64,
    pub choices: Seq<ConversationChoiceV>,
    pub usage: Usage,
}

impl View for ConversationResponse {
    type V = ConversationResponseV;

    open spec fn view(&self) -> ConversationResponseV {
        ConversationResponseV {
            id: self.id@,
            object: self.object@,
            created: self.created,
            choices: self.choices@.map_values(|c: ConversationChoice| c@),
            usage: self.usage,
        }
    }
}

/// The incremental difference one streamed frame carries.
#[derive(Debug, Clone, PartialEq)]
pub struct DeltaChunk {
    pub content: Option<String>,
    pub role: Option<String>,
}

/// The mathematical shape of a [`DeltaChunk`].
#[verifier::ext_equal]
pub struct DeltaChunkV {
    pub content: Option<Seq<char>>,
    pub role: Option<Seq<char>>,
}

impl View for DeltaChunk {
    type V = DeltaChunkV;

    open spec fn view(&self) -> DeltaChunkV {
        DeltaChunkV {
            content: match self.content {
                Some(c) => Some(c@),
                None => None,
            },
            role: match self.role {
                Some(r) => Some(r@),
                None => None,
            },
        }
    }
}

/// One choice inside a streamed frame.
#[derive(Debug, Clone, PartialEq)]
pub struct ChoiceChunk {
    pub delta: DeltaChunk,
    pub index: usize,
}

/// The mathematical shape of a [`ChoiceChunk`].
#[verifier::ext_equal]
pub struct ChoiceChunkV {
    pub delta: DeltaChunkV,
    pub index: usize,
}

impl View for ChoiceChunk {
    type V = ChoiceChunkV;

    open spec fn view(&self) -> ChoiceChunkV {
        ChoiceChunkV { delta: self.delta@, index: self.index }
    }
}

/// One decoded frame of a streaming reply.
#[derive(Debug, Clone, PartialEq)]
pub struct ChatCompletionChunk {
    pub id: String,
    pub created: u64,
    pub model: String,
    pub choices: Vec<ChoiceChunk>,
}

/// The mathematical shape of a [`ChatCompletionChunk`].
#[verifier::ext_equal]
pub struct ChatCompletionChunkV {
    pub id: Seq<char>,
    pub created: u64,
    pub model: Seq<char>,
    pub choices: Seq<ChoiceChunkV>,
}

impl View for ChatCompletionChunk {
    type V = ChatCompletionChunkV;

    open spec fn view(&self) -> ChatCompletionChunkV {
        ChatCompletionChunkV {
            id: self.id@,
            created: self.created,
            model: self.model@,
            choices: self.choices@.map_values(|c: ChoiceChunk| c@),
        }
    }
}

/// One item of the decoded streaming sequence: a frame of content, or the
/// marker that the stream is complete.
#[derive(Debug, Clone, PartialEq)]
pub enum ResponsePart {
    /// A frame holding an unfinished piece of the reply.
    Chunk(ChatCompletionChunk),
    /// The server signalled that the reply is complete.
    Done,
}

/// The mathematical shape of a [`ResponsePart`].
#[verifier::ext_equal]
pub enum ResponsePartV {
    Chunk(ChatCompletionChunkV),
    Done,
}

impl View for ResponsePart {
    type V = ResponsePartV;

    open spec fn view(&self) -> ResponsePartV {
        match self {
            ResponsePart::Chunk(c) => ResponsePartV::Chunk(c@),
            ResponsePart::Done => ResponsePartV::Done,
        }
    }
}

/// The request knobs. Every field is optional; only set fields appear in the
/// request body. Numeric knobs that the server reads as decimals are carried
/// as [`JsonNum`] values, exactly as they will be written.
#[derive(Debug, PartialEq)]
pub struct CompletionOptions {
    pub model: Option<String>,
    pub temperature: Option<JsonNum>,
    pub functions: Option<Vec<Json>>,
    pub top_p: Option<JsonNum>,
    pub n: Option<JsonNum>,
    pub stream: Option<bool>,
    pub stop: Option<String>,
    pub max_tokens: Option<usize>,
    pub presence_penalty: Option<usize>,
    pub frequency_penalty: Option<usize>,
    pub user: Option<isize>,
}

/// The mathematical shape of a [`CompletionOptions`].
#[verifier::ext_equal]
pub struct CompletionOptionsV {
    pub model: Option<Seq<char>>,
    pub temperature: Option<JsonNum>,
    pub functions: Option<Seq<JsonV>>,
    pub top_p: Option<JsonNum>,
    pub n: Option<JsonNum>,
    pub stream: Option<bool>,
    pub stop: Option<Seq<char>>,
    pub max_tokens: Option<usize>,
    pub presence_penalty: Option<usize>,
    pub frequency_penalty: Option<usize>,
    pub user: Option<isize>,
}

impl View for CompletionOptions {
    type V = CompletionOptionsV;

    open spec fn view(&self) -> CompletionOptionsV {
        CompletionOptionsV {
            model: match self.model {
                Some(m) => Some(m@),
                None => None,
            },
            temperature: self.temperature,
            functions: match self.functions {
                Some(f) => Some(jview_list(f, 0)),
                None => None,
            },
            top_p: self.top_p,
            n: self.n,
            stream: self.stream,
            stop: match self.stop {
                Some(s) => Some(s@),
                None => None,
            },
            max_tokens: self.max_tokens,
            presence_penalty: self.presence_penalty,
            frequency_penalty: self.frequency_penalty,
            user: self.user,
        }
    }
}

impl Default for CompletionOptions {
    /// Options with nothing set: the server's defaults apply everywhere.
    fn default() -> (r: Self)
        ensures
            r.model is None,
            r.temperature is None,
            r.functions is None,
            r.top_p is None,
            r.n is None,
            r.stream is None,
            r.stop is None,
            r.max_tokens is None,
            r.presence_penalty is None,
            r.frequency_penalty is None,
            r.user is None,
    {
        CompletionOptions {
            model: None,
            temperature: None,
            functions: None,
            top_p: None,
            n: None,
            stream: None,
            stop: None,
            max_tokens: None,
            presence_penalty: None,
            frequency_penalty: None,
            user: None,
        }
    }
}

} // verus!
