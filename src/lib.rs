//! The core of an interactive client for a Redis-compatible server.
//!
//! - [`tokenize`]: a typed line becomes the words of a command, after `\xHH`
//!   escapes ([`escape`]) are decoded and shell-style quoting is applied.
//! - [`wire`]: replies are decoded from the bytes of the wire protocol.
//! - [`reply`]: replies are shown as the operator expects to read them.
//! - [`session`]: what one turn of the interactive loop does with a line.
//! - [`cmd_parser`], [`redis_context`]: the server a session talks to.

pub mod cmd_parser;
pub mod escape;
pub mod redis_context;
pub mod reply;
pub mod session;
pub mod text;
pub mod tokenize;
pub mod wire;
