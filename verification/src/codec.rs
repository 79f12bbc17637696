//! The wire codec: a deterministic, portable byte encoding of both message
//! vocabularies, its inverse, and the proofs tying them together.
//!
//! A message travels as one tag byte followed by its payload; bounded
//! sequences carry a two-byte little-endian element count first. Decoding a
//! truncated buffer reports `Incomplete`, never reads past the end, and a
//! declared count beyond the field's capacity or an unknown tag is
//! `Malformed`.

use vstd::prelude::*;

use crate::errors::Error;

use crate::bytes::{
    i32_from, i32_le, lemma_i32_round_trip, lemma_u16_round_trip, lemma_u32_round_trip,
    lemma_u64_round_trip, u16_from, u16_le, u32_from, u32_le, u64_from, u64_le,
};
use crate::msg::{
    in_msg_valid, out_msg_valid, InMsg, InMsgV, OutMsg, OutMsgV, ARRAY_CAPACITY, MAX_MSG_SIZE,
    STRING_CAPACITY,
};

verus! {

/// Outcome of decoding a byte buffer.
#[derive(Debug, PartialEq)]
pub enum Decoded<M> {
    /// A whole message, and how many bytes of the buffer it occupied.
    Done(M, usize),
    /// The buffer holds a proper prefix of one message; more bytes are
    /// needed.
    Incomplete,
    /// The buffer cannot be a prefix of any valid encoding.
    Malformed,
}

/// Outcome of decoding, at the specification level.
pub enum SpecDecoded<M> {
    Done(M, int),
    Incomplete,
    Malformed,
}

/// The little-endian bytes of a sequence of `i32` elements, in order.
pub open spec fn i32_seq_le(s: Seq<i32>) -> Seq<u8>
    decreases s.len(),
{
    if s.len() == 0 {
        Seq::empty()
    } else {
        i32_le(s[0]) + i32_seq_le(s.drop_first())
    }
}

/// The `i32` elements read from groups of four little-endian bytes.
pub open spec fn i32_seq_from(b: Seq<u8>) -> Seq<i32> {
    Seq::new(b.len() / 4, |i: int| i32_from(b.subrange(4 * i, 4 * i + 4)))
}

/// The deterministic encoding of a valid inbound message.
pub open spec fn spec_encode_in(m: InMsgV) -> Seq<u8> {
    match m {
        InMsgV::Ai(x) => seq![0u8] + u64_le(x),
        InMsgV::Aai(s) => seq![1u8] + u16_le(s.len() as u16) + i32_seq_le(s),
        InMsgV::Waveform(s) => seq![2u8] + u16_le(s.len() as u16) + i32_seq_le(s),
        InMsgV::Bi(x) => seq![3u8] + u16_le(x),
        InMsgV::MbbiDirect(x) => seq![4u8] + u32_le(x),
        InMsgV::Stringin(s) => seq![5u8] + u16_le(s.len() as u16) + s,
    }
}

/// The deterministic encoding of a valid outbound message.
pub open spec fn spec_encode_out(m: OutMsgV) -> Seq<u8> {
    match m {
        OutMsgV::Ao(x) => seq![0u8] + u64_le(x),
        OutMsgV::Aao(s) => seq![1u8] + u16_le(s.len() as u16) + i32_seq_le(s),
        OutMsgV::Bo(x) => seq![2u8] + u16_le(x),
        OutMsgV::MbboDirect(x) => seq![3u8] + u32_le(x),
        OutMsgV::Stringout(s) => seq![4u8] + u16_le(s.len() as u16) + s,
    }
}

/// Decoding of a fixed eight-byte payload.
pub open spec fn spec_decode_u64(p: Seq<u8>) -> SpecDecoded<u64> {
    if p.len() < 8 {
        SpecDecoded::Incomplete
    } else {
        SpecDecoded::Done(u64_from(p), 8)
    }
}

/// Decoding of a fixed four-byte payload.
pub open spec fn spec_decode_u32(p: Seq<u8>) -> SpecDecoded<u32> {
    if p.len() < 4 {
        SpecDecoded::Incomplete
    } else {
        SpecDecoded::Done(u32_from(p), 4)
    }
}

/// Decoding of a fixed two-byte payload.
pub open spec fn spec_decode_u16(p: Seq<u8>) -> SpecDecoded<u16> {
    if p.len() < 2 {
        SpecDecoded::Incomplete
    } else {
        SpecDecoded::Done(u16_from(p[0], p[1]), 2)
    }
}

/// Decoding of a counted `i32` array payload, capacity-checked before any
/// element is read.
pub open spec fn spec_decode_i32_array(p: Seq<u8>) -> SpecDecoded<Seq<i32>> {
    if p.len() < 2 {
        SpecDecoded::Incomplete
    } else {
        let n = u16_from(p[0], p[1]) as int;
        if n > ARRAY_CAPACITY {
            SpecDecoded::Malformed
        } else if p.len() < 2 + 4 * n {
            SpecDecoded::Incomplete
        } else {
            SpecDecoded::Done(i32_seq_from(p.subrange(2, 2 + 4 * n)), 2 + 4 * n)
        }
    }
}

/// Decoding of a counted byte-string payload, capacity-checked before any
/// byte is copied.
pub open spec fn spec_decode_bytes(p: Seq<u8>) -> SpecDecoded<Seq<u8>> {
    if p.len() < 2 {
        SpecDecoded::Incomplete
    } else {
        let n = u16_from(p[0], p[1]) as int;
        if n > STRING_CAPACITY {
            SpecDecoded::Malformed
        } else if p.len() < 2 + n {
            SpecDecoded::Incomplete
        } else {
            SpecDecoded::Done(p.subrange(2, 2 + n), 2 + n)
        }
    }
}

/// The inverse of [`spec_encode_in`], on arbitrary buffers.
pub open spec fn spec_decode_in(s: Seq<u8>) -> SpecDecoded<InMsgV> {
    if s.len() < 1 {
        SpecDecoded::Incomplete
    } else {
        let p = s.drop_first();
        if s[0] == 0 {
            match spec_decode_u64(p) {
                SpecDecoded::Done(x, n) => SpecDecoded::Done(InMsgV::Ai(x), 1 + n),
                SpecDecoded::Incomplete => SpecDecoded::Incomplete,
                SpecDecoded::Malformed => SpecDecoded::Malformed,
            }
        } else if s[0] == 1 {
            match spec_decode_i32_array(p) {
                SpecDecoded::Done(v, n) => SpecDecoded::Done(InMsgV::Aai(v), 1 + n),
                SpecDecoded::Incomplete => SpecDecoded::Incomplete,
                SpecDecoded::Malformed => SpecDecoded::Malformed,
            }
        } else if s[0] == 2 {
            match spec_decode_i32_array(p) {
                SpecDecoded::Done(v, n) => SpecDecoded::Done(InMsgV::Waveform(v), 1 + n),
                SpecDecoded::Incomplete => SpecDecoded::Incomplete,
                SpecDecoded::Malformed => SpecDecoded::Malformed,
            }
        } else if s[0] == 3 {
            match spec_decode_u16(p) {
                SpecDecoded::Done(x, n) => SpecDecoded::Done(InMsgV::Bi(x), 1 + n),
                SpecDecoded::Incomplete => SpecDecoded::Incomplete,
                SpecDecoded::Malformed => SpecDecoded::Malformed,
            }
        } else if s[0] == 4 {
            match spec_decode_u32(p) {
                SpecDecoded::Done(x, n) => SpecDecoded::Done(InMsgV::MbbiDirect(x), 1 + n),
                SpecDecoded::Incomplete => SpecDecoded::Incomplete,
                SpecDecoded::Malformed => SpecDecoded::Malformed,
            }
        } else if s[0] == 5 {
            match spec_decode_bytes(p) {
                SpecDecoded::Done(v, n) => SpecDecoded::Done(InMsgV::Stringin(v), 1 + n),
                SpecDecoded::Incomplete => SpecDecoded::Incomplete,
                SpecDecoded::Malformed => SpecDecoded::Malformed,
            }
        } else {
            SpecDecoded::Malformed
        }
    }
}

/// The inverse of [`spec_encode_out`], on arbitrary buffers.
pub open spec fn spec_decode_out(s: Seq<u8>) -> SpecDecoded<OutMsgV> {
    if s.len() < 1 {
        SpecDecoded::Incomplete
    } else {
        let p = s.drop_first();
        if s[0] == 0 {
            match spec_decode_u64(p) {
                SpecDecoded::Done(x, n) => SpecDecoded::Done(OutMsgV::Ao(x), 1 + n),
                SpecDecoded::Incomplete => SpecDecoded::Incomplete,
                SpecDecoded::Malformed => SpecDecoded::Malformed,
            }
        } else if s[0] == 1 {
            match spec_decode_i32_array(p) {
                SpecDecoded::Done(v, n) => SpecDecoded::Done(OutMsgV::Aao(v), 1 + n),
                SpecDecoded::Incomplete => SpecDecoded::Incomplete,
                SpecDecoded::Malformed => SpecDecoded::Malformed,
            }
        } else if s[0] == 2 {
            match spec_decode_u16(p) {
                SpecDecoded::Done(x, n) => SpecDecoded::Done(OutMsgV::Bo(x), 1 + n),
                SpecDecoded::Incomplete => SpecDecoded::Incomplete,
                SpecDecoded::Malformed => SpecDecoded::Malformed,
            }
        } else if s[0] == 3 {
            match spec_decode_u32(p) {
                SpecDecoded::Done(x, n) => SpecDecoded::Done(OutMsgV::MbboDirect(x), 1 + n),
                SpecDecoded::Incomplete => SpecDecoded::Incomplete,
                SpecDecoded::Malformed => SpecDecoded::Malformed,
            }
        } else if s[0] == 4 {
            match spec_decode_bytes(p) {
                SpecDecoded::Done(v, n) => SpecDecoded::Done(OutMsgV::Stringout(v), 1 + n),
                SpecDecoded::Incomplete => SpecDecoded::Incomplete,
                SpecDecoded::Malformed => SpecDecoded::Malformed,
            }
        } else {
            SpecDecoded::Malformed
        }
    }
}

/// The byte encoding of an `i32` sequence is four bytes per element.
pub proof fn lemma_i32_seq_le_len(s: Seq<i32>)
    ensures
        i32_seq_le(s).len() == 4 * s.len(),
    decreases s.len(),
{
    if s.len() > 0 {
        lemma_i32_seq_le_len(s.drop_first());
    }
}

/// Appending an element appends its four bytes.
pub proof fn lemma_i32_seq_le_push(s: Seq<i32>, x: i32)
    ensures
        i32_seq_le(s.push(x)) =~= i32_seq_le(s) + i32_le(x),
    decreases s.len(),
{
    let t = s.push(x);
    assert(t.len() == s.len() + 1);
    if s.len() == 0 {
        assert(t[0] == x);
        assert(t.drop_first() =~= Seq::<i32>::empty());
        assert(i32_seq_le(t.drop_first()) == Seq::<u8>::empty());
        assert(i32_seq_le(t) == i32_le(x) + Seq::<u8>::empty());
        assert(i32_seq_le(s) == Seq::<u8>::empty());
        assert(i32_le(x) + Seq::<u8>::empty() =~= Seq::<u8>::empty() + i32_le(x));
    } else {
        assert(t[0] == s[0]);
        assert(t.drop_first() =~= s.drop_first().push(x));
        lemma_i32_seq_le_push(s.drop_first(), x);
        assert(i32_seq_le(t) == i32_le(s[0]) + i32_seq_le(t.drop_first()));
        assert(i32_seq_le(s) == i32_le(s[0]) + i32_seq_le(s.drop_first()));
        assert(i32_le(s[0]) + (i32_seq_le(s.drop_first()) + i32_le(x)) =~= (i32_le(s[0])
            + i32_seq_le(s.drop_first())) + i32_le(x));
    }
}

/// Reading back the bytes of an `i32` sequence yields the elements written.
pub proof fn lemma_i32_seq_round_trip(s: Seq<i32>)
    ensures
        i32_seq_from(i32_seq_le(s)) =~= s,
    decreases s.len(),
{
    let b = i32_seq_le(s);
    lemma_i32_seq_le_len(s);
    if s.len() > 0 {
        let rest = i32_seq_le(s.drop_first());
        lemma_i32_seq_le_len(s.drop_first());
        lemma_i32_seq_round_trip(s.drop_first());
        assert forall|i: int| 0 <= i < s.len() implies i32_seq_from(b)[i] == s[i] by {
            if i == 0 {
                assert(b.subrange(0, 4) =~= i32_le(s[0]));
                lemma_i32_round_trip(s[0]);
            } else {
                assert(b.subrange(4 * i, 4 * i + 4) =~= rest.subrange(
                    4 * (i - 1),
                    4 * (i - 1) + 4,
                ));
                assert(i32_seq_from(rest)[i - 1] == s.drop_first()[i - 1]);
            }
        }
    }
}

/// Round-trip: decoding the encoding of any valid inbound message yields
/// the message back, consuming exactly its encoded length.
#[verifier::rlimit(30)]
pub proof fn lemma_round_trip_in(m: InMsgV)
    requires
        in_msg_valid(m),
    ensures
        spec_decode_in(spec_encode_in(m)) == SpecDecoded::Done(m, spec_encode_in(m).len() as int),
{
    let s = spec_encode_in(m);
    let p = s.drop_first();
    match m {
        InMsgV::Ai(x) => {
            assert(p =~= u64_le(x));
            lemma_u64_round_trip(x);
        },
        InMsgV::Aai(v) => {
            lemma_i32_seq_le_len(v);
            lemma_decode_i32_payload(v);
            assert(p =~= u16_le(v.len() as u16) + i32_seq_le(v));
            assert(s.len() == 3 + 4 * v.len());
        },
        InMsgV::Waveform(v) => {
            lemma_i32_seq_le_len(v);
            lemma_decode_i32_payload(v);
            assert(p =~= u16_le(v.len() as u16) + i32_seq_le(v));
            assert(s.len() == 3 + 4 * v.len());
        },
        InMsgV::Bi(x) => {
            assert(p =~= u16_le(x));
            lemma_u16_round_trip(x);
            assert(p[0] == u16_le(x)[0] && p[1] == u16_le(x)[1]);
        },
        InMsgV::MbbiDirect(x) => {
            assert(p =~= u32_le(x));
            lemma_u32_round_trip(x);
        },
        InMsgV::Stringin(v) => {
            lemma_decode_bytes_payload(v);
            assert(p =~= u16_le(v.len() as u16) + v);
            assert(s.len() == 3 + v.len());
        },
    }
}

/// Round-trip: decoding the encoding of any valid outbound message yields
/// the message back, consuming exactly its encoded length.
#[verifier::rlimit(100)]
#[verifier::spinoff_prover]
pub proof fn lemma_round_trip_out(m: OutMsgV)
    requires
        out_msg_valid(m),
    ensures
        spec_decode_out(spec_encode_out(m)) == SpecDecoded::Done(
            m,
            spec_encode_out(m).len() as int,
        ),
{
    let s = spec_encode_out(m);
    let p = s.drop_first();
    match m {
        OutMsgV::Ao(x) => {
            assert(p =~= u64_le(x));
            lemma_u64_round_trip(x);
        },
        OutMsgV::Aao(v) => {
            lemma_i32_seq_le_len(v);
            lemma_decode_i32_payload(v);
            assert(p =~= u16_le(v.len() as u16) + i32_seq_le(v));
            assert(s.len() == 3 + 4 * v.len());
        },
        OutMsgV::Bo(x) => {
            assert(p =~= u16_le(x));
            lemma_u16_round_trip(x);
            assert(p[0] == u16_le(x)[0] && p[1] == u16_le(x)[1]);
        },
        OutMsgV::MbboDirect(x) => {
            assert(p =~= u32_le(x));
            lemma_u32_round_trip(x);
        },
        OutMsgV::Stringout(v) => {
            lemma_decode_bytes_payload(v);
            assert(p =~= u16_le(v.len() as u16) + v);
            assert(s.len() == 3 + v.len());
        },
    }
}

/// The counted `i32` payload of a valid array field decodes to the elements
/// written.
proof fn lemma_decode_i32_payload(v: Seq<i32>)
    requires
        v.len() <= ARRAY_CAPACITY,
    ensures
        spec_decode_i32_array(u16_le(v.len() as u16) + i32_seq_le(v)) == SpecDecoded::Done(
            v,
            2 + 4 * v.len() as int,
        ),
{
    let p = u16_le(v.len() as u16) + i32_seq_le(v);
    lemma_i32_seq_le_len(v);
    lemma_u16_round_trip(v.len() as u16);
    assert(p[0] == u16_le(v.len() as u16)[0] && p[1] == u16_le(v.len() as u16)[1]);
    let n = u16_from(p[0], p[1]) as int;
    assert(n == v.len());
    assert(p.subrange(2, 2 + 4 * n) =~= i32_seq_le(v));
    lemma_i32_seq_round_trip(v);
    assert(i32_seq_from(i32_seq_le(v)) == v);
}

/// The counted byte-string payload of a valid field decodes to the bytes
/// written.
proof fn lemma_decode_bytes_payload(v: Seq<u8>)
    requires
        v.len() <= STRING_CAPACITY,
    ensures
        spec_decode_bytes(u16_le(v.len() as u16) + v) == SpecDecoded::Done(
            v,
            2 + v.len() as int,
        ),
{
    let p = u16_le(v.len() as u16) + v;
    lemma_u16_round_trip(v.len() as u16);
    assert(p[0] == u16_le(v.len() as u16)[0] && p[1] == u16_le(v.len() as u16)[1]);
    let n = u16_from(p[0], p[1]) as int;
    assert(n == v.len());
    assert(p.subrange(2, 2 + n) =~= v);
}

/// Every valid message of either vocabulary encodes within the declared
/// maximum message size, a bound derived statically from the capacities.
pub proof fn lemma_encode_bounded(m: InMsgV, w: OutMsgV)
    requires
        in_msg_valid(m),
        out_msg_valid(w),
    ensures
        1 <= spec_encode_in(m).len() <= MAX_MSG_SIZE,
        1 <= spec_encode_out(w).len() <= MAX_MSG_SIZE,
{
    match m {
        InMsgV::Aai(s) => lemma_i32_seq_le_len(s),
        InMsgV::Waveform(s) => lemma_i32_seq_le_len(s),
        _ => (),
    }
    match w {
        OutMsgV::Aao(s) => lemma_i32_seq_le_len(s),
        _ => (),
    }
}

/// A buffer on which decoding reports `Incomplete` is strictly shorter than
/// the maximum message size: the read path never buffers more than
/// `MAX_MSG_SIZE` bytes.
pub proof fn lemma_incomplete_bounded(s: Seq<u8>)
    ensures
        spec_decode_in(s) is Incomplete ==> s.len() < MAX_MSG_SIZE,
        spec_decode_out(s) is Incomplete ==> s.len() < MAX_MSG_SIZE,
{
}

/// What `Done` promises: a valid message, consuming a positive number of
/// bytes, no more than the buffer holds and no more than the maximum
/// message size.
pub proof fn lemma_decode_done(s: Seq<u8>)
    ensures
        spec_decode_in(s) matches SpecDecoded::Done(m, n) ==> in_msg_valid(m) && 0 < n
            <= s.len() && n <= MAX_MSG_SIZE,
        spec_decode_out(s) matches SpecDecoded::Done(w, n) ==> out_msg_valid(w) && 0 < n
            <= s.len() && n <= MAX_MSG_SIZE,
{
}

/// Capacity boundary: a bounded field filled to exactly its declared
/// maximum is valid and survives the round trip; one element more makes
/// the message invalid — the encoder then rejects it, and a frame claiming
/// such a count is malformed (see
/// [`lemma_oversized_claim_malformed`]).
pub proof fn lemma_capacity_boundary(s: Seq<i32>, b: Seq<u8>)
    ensures
        s.len() == ARRAY_CAPACITY ==> in_msg_valid(InMsgV::Aai(s)) && spec_decode_in(
            spec_encode_in(InMsgV::Aai(s)),
        ) == SpecDecoded::Done(InMsgV::Aai(s), spec_encode_in(InMsgV::Aai(s)).len() as int),
        s.len() > ARRAY_CAPACITY ==> !in_msg_valid(InMsgV::Aai(s)),
        b.len() == STRING_CAPACITY ==> in_msg_valid(InMsgV::Stringin(b)) && spec_decode_in(
            spec_encode_in(InMsgV::Stringin(b)),
        ) == SpecDecoded::Done(InMsgV::Stringin(b), spec_encode_in(InMsgV::Stringin(b)).len() as int),
        b.len() > STRING_CAPACITY ==> !in_msg_valid(InMsgV::Stringin(b)),
{
    if s.len() == ARRAY_CAPACITY {
        lemma_round_trip_in(InMsgV::Aai(s));
    }
    if b.len() == STRING_CAPACITY {
        lemma_round_trip_in(InMsgV::Stringin(b));
    }
}

/// A frame that declares more elements than the field's capacity admits is
/// malformed, whatever bytes follow the count: the claim is rejected before
/// anything is read or copied.
pub proof fn lemma_oversized_claim_malformed(n: u16, tail: Seq<u8>)
    ensures
        n > ARRAY_CAPACITY ==> spec_decode_in(seq![1u8] + u16_le(n) + tail) is Malformed,
        n > ARRAY_CAPACITY ==> spec_decode_in(seq![2u8] + u16_le(n) + tail) is Malformed,
        n > STRING_CAPACITY ==> spec_decode_in(seq![5u8] + u16_le(n) + tail) is Malformed,
        n > ARRAY_CAPACITY ==> spec_decode_out(seq![1u8] + u16_le(n) + tail) is Malformed,
        n > STRING_CAPACITY ==> spec_decode_out(seq![4u8] + u16_le(n) + tail) is Malformed,
{
    lemma_u16_round_trip(n);
    assert forall|t: u8| 1 <= t <= 5 implies (seq![t] + u16_le(n) + tail).drop_first() =~= u16_le(
        n,
    ) + tail by {}
    let p = u16_le(n) + tail;
    assert(p[0] == u16_le(n)[0] && p[1] == u16_le(n)[1]);
}

/// Decoding is determined by the bytes it consumes: truncating a buffer
/// anywhere at or past a decoded message's end leaves the outcome
/// unchanged. In particular, the first complete frame is recognised at the
/// very byte that completes it.
#[verifier::rlimit(100)]
#[verifier::spinoff_prover]
pub proof fn lemma_decode_in_prefix(s: Seq<u8>, k: int, m: InMsgV, n: int)
    requires
        spec_decode_in(s) == SpecDecoded::Done(m, n),
        n <= k <= s.len(),
    ensures
        spec_decode_in(s.subrange(0, k)) == SpecDecoded::Done(m, n),
{
    lemma_decode_done(s);
    let t = s.subrange(0, k);
    let pt = t.drop_first();
    let ps = s.drop_first();
    assert(t[0] == s[0]);
    assert(pt =~= ps.subrange(0, k - 1));
    if s[0] == 0 {
        assert(u64_from(pt) == u64_from(ps));
    } else if s[0] == 1 || s[0] == 2 {
        assert(pt[0] == ps[0] && pt[1] == ps[1]);
        let cnt = u16_from(ps[0], ps[1]) as int;
        assert(pt.subrange(2, 2 + 4 * cnt) =~= ps.subrange(2, 2 + 4 * cnt));
    } else if s[0] == 3 {
        assert(pt[0] == ps[0] && pt[1] == ps[1]);
    } else if s[0] == 4 {
        assert(u32_from(pt) == u32_from(ps));
    } else if s[0] == 5 {
        assert(pt[0] == ps[0] && pt[1] == ps[1]);
        let cnt = u16_from(ps[0], ps[1]) as int;
        assert(pt.subrange(2, 2 + cnt) =~= ps.subrange(2, 2 + cnt));
    }
}

/// Decoding is determined by the bytes it consumes, as for the inbound
/// vocabulary.
#[verifier::rlimit(100)]
#[verifier::spinoff_prover]
pub proof fn lemma_decode_out_prefix(s: Seq<u8>, k: int, m: OutMsgV, n: int)
    requires
        spec_decode_out(s) == SpecDecoded::Done(m, n),
        n <= k <= s.len(),
    ensures
        spec_decode_out(s.subrange(0, k)) == SpecDecoded::Done(m, n),
{
    lemma_decode_done(s);
    let t = s.subrange(0, k);
    let pt = t.drop_first();
    let ps = s.drop_first();
    assert(t[0] == s[0]);
    assert(pt =~= ps.subrange(0, k - 1));
    if s[0] == 0 {
        assert(u64_from(pt) == u64_from(ps));
    } else if s[0] == 1 {
        assert(pt[0] == ps[0] && pt[1] == ps[1]);
        let cnt = u16_from(ps[0], ps[1]) as int;
        assert(pt.subrange(2, 2 + 4 * cnt) =~= ps.subrange(2, 2 + 4 * cnt));
    } else if s[0] == 2 {
        assert(pt[0] == ps[0] && pt[1] == ps[1]);
    } else if s[0] == 3 {
        assert(u32_from(pt) == u32_from(ps));
    } else if s[0] == 4 {
        assert(pt[0] == ps[0] && pt[1] == ps[1]);
        let cnt = u16_from(ps[0], ps[1]) as int;
        assert(pt.subrange(2, 2 + cnt) =~= ps.subrange(2, 2 + cnt));
    }
}

/// Exec decoding agrees with spec decoding, case by case.
pub open spec fn decoded_in_matches(r: Decoded<InMsg>, s: SpecDecoded<InMsgV>) -> bool {
    match (r, s) {
        (Decoded::Done(m, n), SpecDecoded::Done(mv, nv)) => m@ == mv && n == nv,
        (Decoded::Incomplete, SpecDecoded::Incomplete) => true,
        (Decoded::Malformed, SpecDecoded::Malformed) => true,
        _ => false,
    }
}

/// Exec decoding agrees with spec decoding, case by case.
pub open spec fn decoded_out_matches(r: Decoded<OutMsg>, s: SpecDecoded<OutMsgV>) -> bool {
    match (r, s) {
        (Decoded::Done(m, n), SpecDecoded::Done(mv, nv)) => m@ == mv && n == nv,
        (Decoded::Incomplete, SpecDecoded::Incomplete) => true,
        (Decoded::Malformed, SpecDecoded::Malformed) => true,
        _ => false,
    }
}

fn push_u16_le(buf: &mut Vec<u8>, x: u16)
    ensures
        final(buf)@ == old(buf)@ + u16_le(x),
{
    proof {
        assert(x & 0xff < 256 && (x >> 8) & 0xff < 256) by (bit_vector);
    }
    buf.push((x & 0xff) as u8);
    buf.push(((x >> 8) & 0xff) as u8);
    proof {
        assert(buf@ =~= old(buf)@ + u16_le(x));
    }
}

fn push_u32_le(buf: &mut Vec<u8>, x: u32)
    ensures
        final(buf)@ == old(buf)@ + u32_le(x),
{
    proof {
        assert(x & 0xff < 256 && (x >> 8) & 0xff < 256 && (x >> 16) & 0xff < 256 && (x >> 24)
            & 0xff < 256) by (bit_vector);
    }
    buf.push((x & 0xff) as u8);
    buf.push(((x >> 8) & 0xff) as u8);
    buf.push(((x >> 16) & 0xff) as u8);
    buf.push(((x >> 24) & 0xff) as u8);
    proof {
        assert(buf@ =~= old(buf)@ + u32_le(x));
    }
}

fn push_u64_le(buf: &mut Vec<u8>, x: u64)
    ensures
        final(buf)@ == old(buf)@ + u64_le(x),
{
    proof {
        assert(x & 0xff < 256 && (x >> 8) & 0xff < 256 && (x >> 16) & 0xff < 256 && (x >> 24)
            & 0xff < 256 && (x >> 32) & 0xff < 256 && (x >> 40) & 0xff < 256 && (x >> 48) & 0xff
            < 256 && (x >> 56) & 0xff < 256) by (bit_vector);
    }
    buf.push((x & 0xff) as u8);
    buf.push(((x >> 8) & 0xff) as u8);
    buf.push(((x >> 16) & 0xff) as u8);
    buf.push(((x >> 24) & 0xff) as u8);
    buf.push(((x >> 32) & 0xff) as u8);
    buf.push(((x >> 40) & 0xff) as u8);
    buf.push(((x >> 48) & 0xff) as u8);
    buf.push(((x >> 56) & 0xff) as u8);
    proof {
        assert(buf@ =~= old(buf)@ + u64_le(x));
    }
}

fn push_i32_le(buf: &mut Vec<u8>, x: i32)
    ensures
        final(buf)@ == old(buf)@ + i32_le(x),
{
    push_u32_le(buf, x as u32);
}

fn encode_i32_array(tag: u8, s: &Vec<i32>) -> (r: Result<Vec<u8>, Error>)
    ensures
        s@.len() <= ARRAY_CAPACITY ==> (r matches Ok(b) && b@ == seq![tag] + u16_le(
            s@.len() as u16,
        ) + i32_seq_le(s@)),
        s@.len() > ARRAY_CAPACITY ==> r == Err::<Vec<u8>, Error>(Error::CapacityExceeded),
{
    if s.len() > ARRAY_CAPACITY {
        return Err(Error::CapacityExceeded);
    }
    let mut buf: Vec<u8> = Vec::new();
    buf.push(tag);
    push_u16_le(&mut buf, s.len() as u16);
    let ghost prefix = buf@;
    proof {
        assert(buf@ =~= prefix + i32_seq_le(s@.take(0)));
    }
    let mut i: usize = 0;
    while i < s.len()
        invariant
            i <= s@.len() <= ARRAY_CAPACITY,
            s@.len() == s.len(),
            buf@ == prefix + i32_seq_le(s@.take(i as int)),
        decreases s@.len() - i,
    {
        push_i32_le(&mut buf, s[i]);
        proof {
            assert(s@.take(i as int + 1) =~= s@.take(i as int).push(s@[i as int]));
            lemma_i32_seq_le_push(s@.take(i as int), s@[i as int]);
            assert(buf@ =~= prefix + i32_seq_le(s@.take(i as int + 1)));
        }
        i = i + 1;
    }
    proof {
        assert(s@.take(s@.len() as int) =~= s@);
    }
    Ok(buf)
}

fn encode_byte_string(tag: u8, s: &Vec<u8>) -> (r: Result<Vec<u8>, Error>)
    ensures
        s@.len() <= STRING_CAPACITY ==> (r matches Ok(b) && b@ == seq![tag] + u16_le(
            s@.len() as u16,
        ) + s@),
        s@.len() > STRING_CAPACITY ==> r == Err::<Vec<u8>, Error>(Error::CapacityExceeded),
{
    if s.len() > STRING_CAPACITY {
        return Err(Error::CapacityExceeded);
    }
    let mut buf: Vec<u8> = Vec::new();
    buf.push(tag);
    push_u16_le(&mut buf, s.len() as u16);
    buf.extend_from_slice(s.as_slice());
    proof {
        assert(buf@ =~= seq![tag] + u16_le(s@.len() as u16) + s@);
    }
    Ok(buf)
}

/// Encode an inbound message. Succeeds with its deterministic wire encoding
/// exactly when every bounded field respects its capacity; an oversized
/// write is rejected without effect.
pub fn encode_in(m: &InMsg) -> (r: Result<Vec<u8>, Error>)
    ensures
        in_msg_valid(m@) ==> (r matches Ok(b) && b@ == spec_encode_in(m@)),
        !in_msg_valid(m@) ==> r == Err::<Vec<u8>, Error>(Error::CapacityExceeded),
{
    match m {
        InMsg::Ai(x) => {
            let mut buf: Vec<u8> = Vec::new();
            buf.push(0u8);
            push_u64_le(&mut buf, *x);
            proof {
                assert(buf@ =~= spec_encode_in(m@));
            }
            Ok(buf)
        },
        InMsg::Aai(s) => encode_i32_array(1u8, s),
        InMsg::Waveform(s) => encode_i32_array(2u8, s),
        InMsg::Bi(x) => {
            let mut buf: Vec<u8> = Vec::new();
            buf.push(3u8);
            push_u16_le(&mut buf, *x);
            proof {
                assert(buf@ =~= spec_encode_in(m@));
            }
            Ok(buf)
        },
        InMsg::MbbiDirect(x) => {
            let mut buf: Vec<u8> = Vec::new();
            buf.push(4u8);
            push_u32_le(&mut buf, *x);
            proof {
                assert(buf@ =~= spec_encode_in(m@));
            }
            Ok(buf)
        },
        InMsg::Stringin(s) => encode_byte_string(5u8, s),
    }
}

/// Encode an outbound message. Succeeds with its deterministic wire encoding
/// exactly when every bounded field respects its capacity; an oversized
/// write is rejected without effect.
pub fn encode_out(m: &OutMsg) -> (r: Result<Vec<u8>, Error>)
    ensures
        out_msg_valid(m@) ==> (r matches Ok(b) && b@ == spec_encode_out(m@)),
        !out_msg_valid(m@) ==> r == Err::<Vec<u8>, Error>(Error::CapacityExceeded),
{
    match m {
        OutMsg::Ao(x) => {
            let mut buf: Vec<u8> = Vec::new();
            buf.push(0u8);
            push_u64_le(&mut buf, *x);
            proof {
                assert(buf@ =~= spec_encode_out(m@));
            }
            Ok(buf)
        },
        OutMsg::Aao(s) => encode_i32_array(1u8, s),
        OutMsg::Bo(x) => {
            let mut buf: Vec<u8> = Vec::new();
            buf.push(2u8);
            push_u16_le(&mut buf, *x);
            proof {
                assert(buf@ =~= spec_encode_out(m@));
            }
            Ok(buf)
        },
        OutMsg::MbboDirect(x) => {
            let mut buf: Vec<u8> = Vec::new();
            buf.push(3u8);
            push_u32_le(&mut buf, *x);
            proof {
                assert(buf@ =~= spec_encode_out(m@));
            }
            Ok(buf)
        },
        OutMsg::Stringout(s) => encode_byte_string(4u8, s),
    }
}

fn read_u16_le(buf: &[u8], off: usize) -> (r: u16)
    requires
        off + 2 <= buf@.len(),
    ensures
        r == u16_from(buf@[off as int], buf@[off as int + 1]),
{
    (buf[off] as u16) | ((buf[off + 1] as u16) << 8)
}

fn read_u32_le(buf: &[u8], off: usize) -> (r: u32)
    requires
        off + 4 <= buf@.len(),
    ensures
        r == u32_from(buf@.subrange(off as int, off as int + 4)),
{
    let r = (buf[off] as u32) | ((buf[off + 1] as u32) << 8) | ((buf[off + 2] as u32) << 16) | (
    (buf[off + 3] as u32) << 24);
    proof {
        let s = buf@.subrange(off as int, off as int + 4);
        assert(s[0] == buf@[off as int] && s[1] == buf@[off as int + 1] && s[2] == buf@[off as int
            + 2] && s[3] == buf@[off as int + 3]);
    }
    r
}

fn read_u64_le(buf: &[u8], off: usize) -> (r: u64)
    requires
        off + 8 <= buf@.len(),
    ensures
        r == u64_from(buf@.subrange(off as int, off as int + 8)),
{
    let r = (buf[off] as u64) | ((buf[off + 1] as u64) << 8) | ((buf[off + 2] as u64) << 16) | (
    (buf[off + 3] as u64) << 24) | ((buf[off + 4] as u64) << 32) | ((buf[off + 5] as u64) << 40)
        | ((buf[off + 6] as u64) << 48) | ((buf[off + 7] as u64) << 56);
    proof {
        let s = buf@.subrange(off as int, off as int + 8);
        assert(s[0] == buf@[off as int] && s[1] == buf@[off as int + 1] && s[2] == buf@[off as int
            + 2] && s[3] == buf@[off as int + 3] && s[4] == buf@[off as int + 4] && s[5]
            == buf@[off as int + 5] && s[6] == buf@[off as int + 6] && s[7] == buf@[off as int
            + 7]);
    }
    r
}

fn decode_i32_elems(buf: &[u8], n: usize) -> (out: Vec<i32>)
    requires
        n <= ARRAY_CAPACITY,
        3 + 4 * n <= buf@.len(),
    ensures
        out@ == i32_seq_from(buf@.subrange(3, 3 + 4 * n as int)),
{
    let ghost body = buf@.subrange(3, 3 + 4 * n as int);
    let mut out: Vec<i32> = Vec::new();
    let mut i: usize = 0;
    while i < n
        invariant
            i <= n <= ARRAY_CAPACITY,
            3 + 4 * n <= buf@.len(),
            body == buf@.subrange(3, 3 + 4 * n as int),
            out@.len() == i,
            forall|j: int|
                0 <= j < i ==> out@[j] == i32_from(buf@.subrange(3 + 4 * j, 3 + 4 * j + 4)),
        decreases n - i,
    {
        let x = read_u32_le(buf, 3 + 4 * i) as i32;
        out.push(x);
        i = i + 1;
    }
    proof {
        assert(body.len() == 4 * n);
        assert(body.len() / 4 == n as int);
        assert forall|j: int| 0 <= j < n implies i32_seq_from(body)[j] == out@[j] by {
            assert(body.subrange(4 * j, 4 * j + 4) =~= buf@.subrange(3 + 4 * j, 3 + 4 * j + 4));
        }
        assert(out@ =~= i32_seq_from(body));
    }
    out
}

/// Decode one inbound message from the front of `buf`, agreeing exactly
/// with [`spec_decode_in`]: a whole well-formed message with how many bytes
/// it occupied, `Incomplete` on a proper prefix, `Malformed` on a bad tag
/// or an oversized declared count. Never reads past the end of `buf`.
pub fn decode_in(buf: &[u8]) -> (r: Decoded<InMsg>)
    ensures
        decoded_in_matches(r, spec_decode_in(buf@)),
{
    if buf.len() < 1 {
        return Decoded::Incomplete;
    }
    let ghost p = buf@.drop_first();
    let tag = buf[0];
    if tag == 0 {
        if buf.len() < 9 {
            return Decoded::Incomplete;
        }
        let x = read_u64_le(buf, 1);
        proof {
            assert(buf@.subrange(1, 9) =~= p.subrange(0, 8));
            assert(u64_from(p.subrange(0, 8)) == u64_from(p));
        }
        Decoded::Done(InMsg::Ai(x), 9)
    } else if tag == 1 || tag == 2 {
        if buf.len() < 3 {
            return Decoded::Incomplete;
        }
        let n = read_u16_le(buf, 1) as usize;
        if n > ARRAY_CAPACITY {
            return Decoded::Malformed;
        }
        if buf.len() < 3 + 4 * n {
            return Decoded::Incomplete;
        }
        let out = decode_i32_elems(buf, n);
        proof {
            assert(buf@.subrange(3, 3 + 4 * n as int) =~= p.subrange(2, 2 + 4 * n as int));
        }
        if tag == 1 {
            Decoded::Done(InMsg::Aai(out), 3 + 4 * n)
        } else {
            Decoded::Done(InMsg::Waveform(out), 3 + 4 * n)
        }
    } else if tag == 3 {
        if buf.len() < 3 {
            return Decoded::Incomplete;
        }
        let x = read_u16_le(buf, 1);
        Decoded::Done(InMsg::Bi(x), 3)
    } else if tag == 4 {
        if buf.len() < 5 {
            return Decoded::Incomplete;
        }
        let x = read_u32_le(buf, 1);
        proof {
            assert(buf@.subrange(1, 5) =~= p.subrange(0, 4));
            assert(u32_from(p.subrange(0, 4)) == u32_from(p));
        }
        Decoded::Done(InMsg::MbbiDirect(x), 5)
    } else if tag == 5 {
        if buf.len() < 3 {
            return Decoded::Incomplete;
        }
        let n = read_u16_le(buf, 1) as usize;
        if n > STRING_CAPACITY {
            return Decoded::Malformed;
        }
        if buf.len() < 3 + n {
            return Decoded::Incomplete;
        }
        let mut out: Vec<u8> = Vec::new();
        out.extend_from_slice(&buf[3..3 + n]);
        proof {
            assert(out@ =~= p.subrange(2, 2 + n as int));
        }
        Decoded::Done(InMsg::Stringin(out), 3 + n)
    } else {
        Decoded::Malformed
    }
}

/// Decode one outbound message from the front of `buf`, agreeing exactly
/// with [`spec_decode_out`]; the same error discipline as [`decode_in`].
pub fn decode_out(buf: &[u8]) -> (r: Decoded<OutMsg>)
    ensures
        decoded_out_matches(r, spec_decode_out(buf@)),
{
    if buf.len() < 1 {
        return Decoded::Incomplete;
    }
    let ghost p = buf@.drop_first();
    let tag = buf[0];
    if tag == 0 {
        if buf.len() < 9 {
            return Decoded::Incomplete;
        }
        let x = read_u64_le(buf, 1);
        proof {
            assert(buf@.subrange(1, 9) =~= p.subrange(0, 8));
            assert(u64_from(p.subrange(0, 8)) == u64_from(p));
        }
        Decoded::Done(OutMsg::Ao(x), 9)
    } else if tag == 1 {
        if buf.len() < 3 {
            return Decoded::Incomplete;
        }
        let n = read_u16_le(buf, 1) as usize;
        if n > ARRAY_CAPACITY {
            return Decoded::Malformed;
        }
        if buf.len() < 3 + 4 * n {
            return Decoded::Incomplete;
        }
        let out = decode_i32_elems(buf, n);
        proof {
            assert(buf@.subrange(3, 3 + 4 * n as int) =~= p.subrange(2, 2 + 4 * n as int));
        }
        Decoded::Done(OutMsg::Aao(out), 3 + 4 * n)
    } else if tag == 2 {
        if buf.len() < 3 {
            return Decoded::Incomplete;
        }
        let x = read_u16_le(buf, 1);
        Decoded::Done(OutMsg::Bo(x), 3)
    } else if tag == 3 {
        if buf.len() < 5 {
            return Decoded::Incomplete;
        }
        let x = read_u32_le(buf, 1);
        proof {
            assert(buf@.subrange(1, 5) =~= p.subrange(0, 4));
            assert(u32_from(p.subrange(0, 4)) == u32_from(p));
        }
        Decoded::Done(OutMsg::MbboDirect(x), 5)
    } else if tag == 4 {
        if buf.len() < 3 {
            return Decoded::Incomplete;
        }
        let n = read_u16_le(buf, 1) as usize;
        if n > STRING_CAPACITY {
            return Decoded::Malformed;
        }
        if buf.len() < 3 + n {
            return Decoded::Incomplete;
        }
        let mut out: Vec<u8> = Vec::new();
        out.extend_from_slice(&buf[3..3 + n]);
        proof {
            assert(out@ =~= p.subrange(2, 2 + n as int));
        }
        Decoded::Done(OutMsg::Stringout(out), 3 + n)
    } else {
        Decoded::Malformed
    }
}

} // verus!
