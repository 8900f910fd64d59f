use vstd::prelude::*;
use vstd::string::StringExecFns;
use crate::codec::{body_jv, request_body, response_from_json, response_of};
use crate::err::Error;
use crate::json::{json_parse, parse_json, render, render_json, str_to_chars, chars_to_string};
use crate::types::{CompletionOptions, ConversationResponse, Message};

verus! {

/// Options for the client: where requests go.
#[derive(Debug, Clone, PartialEq)]
pub struct ClientOptions {
    pub backend_api_url: String,
}

impl ClientOptions {
    /// Sets the backend API url requests are sent to.
    pub fn with_backend_api_url(self, backend_url: String) -> (r: Self)
        ensures
            r.backend_api_url@ == backend_url@,
    {
        ClientOptions { backend_api_url: backend_url }
    }
}

impl Default for ClientOptions {
    /// The provider's chat-completions endpoint.
    fn default() -> (r: Self)
        ensures
            r.backend_api_url@ == "https://api.openai.com/v1/chat/completions"@,
    {
        ClientOptions {
            backend_api_url: String::from_str("https://api.openai.com/v1/chat/completions"),
        }
    }
}

/// The client: the endpoint it talks to and the bearer token it presents.
/// It holds no per-call state, so independent calls cannot interfere.
#[derive(Debug, Clone, PartialEq)]
pub struct ChatGPT {
    pub options: ClientOptions,
    pub api_key: String,
}

impl ChatGPT {
    /// A client for the default endpoint with the given bearer token.
    pub fn new(token: String) -> (r: Result<ChatGPT, Error>)
        ensures
            r is Ok,
            (r matches Ok(c) ==> c.api_key@ == token@ && c.options.backend_api_url@
                == "https://api.openai.com/v1/chat/completions"@),
    {
        Self::with_options(token, ClientOptions::default())
    }

    /// A client for the given endpoint with the given bearer token.
    pub fn with_options(token: String, options: ClientOptions) -> (r: Result<ChatGPT, Error>)
        ensures
            r is Ok,
            (r matches Ok(c) ==> c.api_key@ == token@ && c.options.backend_api_url@
                == options.backend_api_url@),
    {
        Ok(ChatGPT { options, api_key: token })
    }

    /// The value of the request's authorization header.
    pub fn auth_header(&self) -> (r: String)
        ensures
            r@ == "Bearer "@ + self.api_key@,
    {
        let mut s = String::from_str("Bearer ");
        s.append(self.api_key.as_str());
        s
    }

    /// The JSON text of a non-streaming request body for these messages and
    /// options.
    pub fn full_request_text(&self, messages: &Vec<Message>, options: CompletionOptions) -> (r:
        String)
        ensures
            r@ == render(body_jv(messages@.map_values(|m: Message| m@), options@, false)),
    {
        let body = request_body(messages, options, false);
        let cs = render_json(&body);
        chars_to_string(&cs)
    }

    /// The JSON text of a streaming request body: the same, with `stream`
    /// forced to `true`.
    pub fn streaming_request_text(&self, messages: &Vec<Message>, options: CompletionOptions) -> (
        r: String)
        ensures
            r@ == render(body_jv(messages@.map_values(|m: Message| m@), options@, true)),
    {
        let body = request_body(messages, options, true);
        let cs = render_json(&body);
        chars_to_string(&cs)
    }
}

/// What a full response text decodes to, when it does.
pub open spec fn spec_full_response(s: Seq<char>) -> Option<crate::types::ConversationResponseV> {
    match json_parse(s) {
        Some(v) => response_of(v),
        None => None,
    }
}

/// Reads a full response from the raw response text. When the text does not
/// hold a conversation response, the error carries that text verbatim.
pub fn parse_full_response(text: &str) -> (r: Result<ConversationResponse, Error>)
    ensures
        (match spec_full_response(text@) {
            Some(v) => r matches Ok(resp) && resp@ == v,
            None => r matches Err(e) && (e matches Error::ApiError(raw, d) && raw@ == text@),
        }),
{
    let cs = str_to_chars(text);
    match parse_json(&cs) {
        None => Err(
            Error::ApiError(
                text.to_owned(),
                String::from_str("the response text is not valid JSON"),
            ),
        ),
        Some(j) => match response_from_json(&j) {
            Some(resp) => Ok(resp),
            None => Err(
                Error::ApiError(
                    text.to_owned(),
                    String::from_str("the response does not have the shape of a conversation response"),
                ),
            ),
        },
    }
}

impl ConversationResponse {
    /// The first choice's message content, or the empty string where that
    /// message has none. A response without choices gives `EmptyChoices`
    /// instead of a panic.
    pub fn first_content(&self) -> (r: Result<String, Error>)
        ensures
            self.choices@.len() == 0 ==> (r matches Err(e) && e == Error::EmptyChoices),
            self.choices@.len() > 0 ==> (r matches Ok(s) && s@ == (match self@.choices[0].message
                .content {
                Some(c) => c,
                None => Seq::<char>::empty(),
            })),
    {
        if self.choices.len() == 0 {
            Err(Error::EmptyChoices)
        } else {
            match &self.choices[0].message.content {
                Some(c) => Ok(c.clone()),
                None => Ok(String::new()),
            }
        }
    }
}

} // verus!