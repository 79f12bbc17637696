//! The two closed, tagged message vocabularies of the wire protocol, with
//! their mathematical models and validity predicates.
//!
//! Scalar floating-point variables travel as the 64 bits of their IEEE
//! representation; the host converts at the boundary, so the codec and every
//! layer above it work on plain integers.

use vstd::prelude::*;

verus! {

/// Maximum element count of a bounded `i32` array field.
pub const ARRAY_CAPACITY: usize = 64;

/// Maximum element count of a bounded byte-string field.
pub const STRING_CAPACITY: usize = 256;

/// Maximum total encoded size of any message of either vocabulary, derived
/// statically from the declared capacities: a tag byte, a two-byte element
/// count, and the largest payload (64 four-byte elements, or 256 bytes).
pub const MAX_MSG_SIZE: usize = 259;

/// Inbound vocabulary: messages travelling towards the peer's input
/// variables. `Ai` carries the bits of an `f64`.
#[derive(Debug, PartialEq)]
pub enum InMsg {
    Ai(u64),
    Aai(Vec<i32>),
    Waveform(Vec<i32>),
    Bi(u16),
    MbbiDirect(u32),
    Stringin(Vec<u8>),
}

/// Outbound vocabulary: messages carrying updates of the peer's output
/// variables. `Ao` carries the bits of an `f64`.
#[derive(Debug, PartialEq)]
pub enum OutMsg {
    Ao(u64),
    Aao(Vec<i32>),
    Bo(u16),
    MbboDirect(u32),
    Stringout(Vec<u8>),
}

/// Mathematical model of an inbound message.
pub enum InMsgV {
    Ai(u64),
    Aai(Seq<i32>),
    Waveform(Seq<i32>),
    Bi(u16),
    MbbiDirect(u32),
    Stringin(Seq<u8>),
}

/// Mathematical model of an outbound message.
pub enum OutMsgV {
    Ao(u64),
    Aao(Seq<i32>),
    Bo(u16),
    MbboDirect(u32),
    Stringout(Seq<u8>),
}

impl View for InMsg {
    type V = InMsgV;

    open spec fn view(&self) -> InMsgV {
        match self {
            InMsg::Ai(x) => InMsgV::Ai(*x),
            InMsg::Aai(s) => InMsgV::Aai(s@),
            InMsg::Waveform(s) => InMsgV::Waveform(s@),
            InMsg::Bi(x) => InMsgV::Bi(*x),
            InMsg::MbbiDirect(x) => InMsgV::MbbiDirect(*x),
            InMsg::Stringin(s) => InMsgV::Stringin(s@),
        }
    }
}

impl View for OutMsg {
    type V = OutMsgV;

    open spec fn view(&self) -> OutMsgV {
        match self {
            OutMsg::Ao(x) => OutMsgV::Ao(*x),
            OutMsg::Aao(s) => OutMsgV::Aao(s@),
            OutMsg::Bo(x) => OutMsgV::Bo(*x),
            OutMsg::MbboDirect(x) => OutMsgV::MbboDirect(*x),
            OutMsg::Stringout(s) => OutMsgV::Stringout(s@),
        }
    }
}

/// An inbound message is valid when every bounded field respects its
/// declared capacity.
pub open spec fn in_msg_valid(m: InMsgV) -> bool {
    match m {
        InMsgV::Ai(_) => true,
        InMsgV::Aai(s) => s.len() <= ARRAY_CAPACITY,
        InMsgV::Waveform(s) => s.len() <= ARRAY_CAPACITY,
        InMsgV::Bi(_) => true,
        InMsgV::MbbiDirect(_) => true,
        InMsgV::Stringin(s) => s.len() <= STRING_CAPACITY,
    }
}

/// An outbound message is valid when every bounded field respects its
/// declared capacity.
pub open spec fn out_msg_valid(m: OutMsgV) -> bool {
    match m {
        OutMsgV::Ao(_) => true,
        OutMsgV::Aao(s) => s.len() <= ARRAY_CAPACITY,
        OutMsgV::Bo(_) => true,
        OutMsgV::MbboDirect(_) => true,
        OutMsgV::Stringout(s) => s.len() <= STRING_CAPACITY,
    }
}

} // verus!
