//! A bidirectional bridge between typed, bounded-capacity process variables
//! and a remote peer speaking a length-framed binary protocol over an
//! unreliable byte stream.
//!
//! The crate is organised bottom-up:
//! - [`errors`]: the error taxonomy shared by every layer;
//! - [`bytes`]: little-endian encodings of the fixed-width integers;
//! - [`msg`]: the two closed, tagged message vocabularies and their models;
//! - [`codec`]: the portable wire encoding, with proved round-trip and
//!   capacity-bound properties;
//! - [`frame`]: incremental frame decoding with a proved memory bound;
//! - [`value`]: the closed set of values a process variable can hold;
//! - [`gateway`]: the per-variable access gateway (request/commit and
//!   wait/accept), with proved atomic-commit and no-missed-update properties;
//! - [`registry`]: startup-time resolution of declared variables;
//! - [`dispatch`]: the per-connection dispatcher that demultiplexes inbound
//!   messages to gateways and multiplexes outbound updates fairly;
//! - [`flow`]: the per-variable flow steps (mirror and fan-out).

pub mod bytes;
pub mod codec;
pub mod dispatch;
pub mod errors;
pub mod flow;
pub mod frame;
pub mod gateway;
pub mod msg;
pub mod registry;
pub mod value;
