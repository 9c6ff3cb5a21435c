//! The transport and dispatch core of a language-server-style process.
//!
//! One duplex byte stream carries length-framed JSON-RPC messages. The
//! frame reader pulls one unit at a time off the stream without ever
//! letting a malformed header desynchronise it; the decoder turns body
//! bytes into a structured message; the dispatcher routes each message by
//! its method name and reports every outcome to an append-only sink; the
//! server loop drives them for the stream's lifetime, one isolated task
//! per frame. The framing model, the decision logic and the reporting
//! discipline are verified; the JSON library and the process edges are
//! not, and stand behind narrow, documented trusted items.

pub mod dispatch;
pub mod frame;
pub mod frame_props;
pub mod json;
pub mod message;
pub mod requests;
pub mod server;
pub mod sink;
