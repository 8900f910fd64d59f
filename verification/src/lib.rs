//! A client library for a conversational-AI HTTP API: it builds JSON request
//! bodies from messages and options, and decodes the response — a single
//! JSON document, or a server-sent-event stream of partial completions ended
//! by a sentinel frame. The JSON and SSE wire formats are implemented and
//! proved here; the network itself stays outside.

pub mod client;
pub mod codec;
pub mod err;
pub mod json;
pub mod sse;
pub mod stream;
pub mod types;
