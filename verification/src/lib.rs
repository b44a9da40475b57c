//! Verified core of a line-based chat relay server.
//!
//! The library models the server's session engine on plain values: a
//! coordinator owns the session and ban tables and reacts to connection
//! events with state updates and outbound actions, a frame buffer turns a
//! raw byte stream into newline-delimited messages, and a token module
//! generates and checks the shared authentication secret.  All socket,
//! thread and terminal work stays outside the library, which receives
//! events and hands back the actions to perform.

pub mod coordinator;
pub mod framing;
pub mod laws;
pub mod table;
pub mod text;
pub mod token;
