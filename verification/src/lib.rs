//! Selective disclosure of a recorded TLS session.
//!
//! A prover fetches a resource through a secure channel that a verifier takes
//! part in, decides by a policy which bytes of the exchange must stay hidden,
//! and reveals the rest; the verifier checks what was revealed. This crate
//! holds the rules of that exchange and leaves the channel, the sockets and
//! the parsing of response bodies to its caller.
//!
//! - [`range_set`]: sets of byte positions, their complement and its laws.
//! - [`search`]: exact byte search.
//! - [`pattern`]: capture groups of regular expressions.
//! - [`text`]: transcript bytes as text, with what was hidden marked.
//! - [`transcript`]: the bytes of a session by direction.
//! - [`member`]: a key and its value as they are written in a body.
//! - [`policy`]: redaction rules and their evaluation.
//! - [`disclosure`]: what is revealed, as the complement of what is hidden.
//! - [`proving`]: the steps of a prover.
//! - [`verification`]: the checks and the steps of a verifier.
//! - [`endpoint`]: target servers, WebSocket requests and roles.
//! - [`config`]: the settings of a demonstration server.

pub mod config;
pub mod disclosure;
pub mod endpoint;
pub mod error;
pub mod member;
pub mod pattern;
pub mod policy;
pub mod proving;
pub mod range_set;
pub mod search;
pub mod text;
pub mod transcript;
pub mod verification;
