//! The per-connection dispatcher: demultiplexes inbound messages to the
//! matching variable gateway, in strict arrival order, and multiplexes
//! pending outbound updates into encoded frames under a round-robin
//! fairness policy.
//!
//! Connection state machine: `Connected`, then `Closing` on the first
//! unrecoverable channel error or an explicit shutdown, then `Closed` once
//! every per-variable task has stopped. Once the connection has left
//! `Connected`, every channel operation reports `ConnectionLost` and
//! changes nothing; the gateways themselves — and tasks waiting only on a
//! variable — are untouched.
//!
//! The byte stream itself is the host's: it hands arriving bytes to
//! [`Dispatcher::feed_byte`] and carries the frames
//! [`Dispatcher::poll_outbound`] yields.

use vstd::prelude::*;

use crate::codec::{encode_in, lemma_decode_done, spec_decode_out, spec_encode_in, Decoded,
    SpecDecoded};
use crate::errors::Error;
use crate::frame::OutFrameDecoder;
use crate::gateway::{gw_wf, spec_observe, spec_write, wake_value, Gateway, GatewayModel, Policy};
use crate::msg::{InMsg, InMsgV, OutMsg, OutMsgV, ARRAY_CAPACITY, STRING_CAPACITY};
use crate::value::{Value, ValueV, VarKind};

verus! {

/// Connection lifecycle.
#[derive(Clone, Copy, Debug, PartialEq, Eq, Structural)]
pub enum ConnState {
    Connected,
    Closing,
    Closed,
}

/// One connection's dispatcher, owning the frame decoder and one gateway
/// per bridged variable: five that inbound messages are committed into,
/// six whose updates are collected, encoded and sent.
pub struct Dispatcher {
    /// Connection lifecycle state.
    pub state: ConnState,
    /// Incremental decoder over the inbound byte stream.
    pub dec: OutFrameDecoder,
    /// Round-robin cursor over the outbound sources.
    pub next_out: usize,
    /// Inbound targets: one per tag of the outbound vocabulary.
    pub ao: Gateway,
    pub aao: Gateway,
    pub bo: Gateway,
    pub mbbo_direct: Gateway,
    pub stringout: Gateway,
    /// Outbound sources: one per tag of the inbound vocabulary.
    pub ai: Gateway,
    pub aai: Gateway,
    pub waveform: Gateway,
    pub bi: Gateway,
    pub mbbi_direct: Gateway,
    pub stringin: Gateway,
}

/// An inbound-target gateway: right kind and capacity, default policy,
/// write token free between messages (the dispatcher is its only writer).
pub open spec fn in_gw_ok(g: GatewayModel, kind: VarKind, cap: nat) -> bool {
    &&& gw_wf(g)
    &&& g.kind == kind
    &&& g.max_len == cap
    &&& g.policy is EveryUpdate
    &&& !g.write_held
}

/// An outbound-source gateway: right kind and capacity, default policy, no
/// observation held between polls (the dispatcher is its only reader).
pub open spec fn out_gw_ok(g: GatewayModel, kind: VarKind, cap: nat) -> bool {
    &&& gw_wf(g)
    &&& g.kind == kind
    &&& g.max_len == cap
    &&& g.policy is EveryUpdate
    &&& g.reading is None
}

/// Dispatcher well-formedness: decoder invariant, cursor in range, every
/// gateway of its declared shape.
pub open spec fn d_wf(d: &Dispatcher) -> bool {
    &&& d.dec.wf()
    &&& d.next_out < 6
    &&& in_gw_ok(d.ao@, VarKind::F64, 1)
    &&& in_gw_ok(d.aao@, VarKind::I32Array, ARRAY_CAPACITY as nat)
    &&& in_gw_ok(d.bo@, VarKind::U16, 1)
    &&& in_gw_ok(d.mbbo_direct@, VarKind::U32, 1)
    &&& in_gw_ok(d.stringout@, VarKind::ByteString, STRING_CAPACITY as nat)
    &&& out_gw_ok(d.ai@, VarKind::F64, 1)
    &&& out_gw_ok(d.aai@, VarKind::I32Array, ARRAY_CAPACITY as nat)
    &&& out_gw_ok(d.waveform@, VarKind::I32Array, ARRAY_CAPACITY as nat)
    &&& out_gw_ok(d.bi@, VarKind::U16, 1)
    &&& out_gw_ok(d.mbbi_direct@, VarKind::U32, 1)
    &&& out_gw_ok(d.stringin@, VarKind::ByteString, STRING_CAPACITY as nat)
}

/// The five inbound targets are unchanged between `a` and `b`.
pub open spec fn ins_same(a: &Dispatcher, b: &Dispatcher) -> bool {
    &&& b.ao@ == a.ao@
    &&& b.aao@ == a.aao@
    &&& b.bo@ == a.bo@
    &&& b.mbbo_direct@ == a.mbbo_direct@
    &&& b.stringout@ == a.stringout@
}

/// The six outbound sources are unchanged between `a` and `b`.
pub open spec fn outs_same(a: &Dispatcher, b: &Dispatcher) -> bool {
    &&& b.ai@ == a.ai@
    &&& b.aai@ == a.aai@
    &&& b.waveform@ == a.waveform@
    &&& b.bi@ == a.bi@
    &&& b.mbbi_direct@ == a.mbbi_direct@
    &&& b.stringin@ == a.stringin@
}

/// Routing of one decoded inbound message: the matching gateway takes the
/// whole payload as one complete write; every other variable is untouched.
pub open spec fn route_ao(g: GatewayModel, m: OutMsgV) -> GatewayModel {
    if m is Ao {
        spec_write(g, ValueV::F64Bits(m->Ao_0))
    } else {
        g
    }
}

pub open spec fn route_aao(g: GatewayModel, m: OutMsgV) -> GatewayModel {
    if m is Aao {
        spec_write(g, ValueV::I32Array(m->Aao_0))
    } else {
        g
    }
}

pub open spec fn route_bo(g: GatewayModel, m: OutMsgV) -> GatewayModel {
    if m is Bo {
        spec_write(g, ValueV::U16(m->Bo_0))
    } else {
        g
    }
}

pub open spec fn route_mbbo(g: GatewayModel, m: OutMsgV) -> GatewayModel {
    if m is MbboDirect {
        spec_write(g, ValueV::U32(m->MbboDirect_0))
    } else {
        g
    }
}

pub open spec fn route_stringout(g: GatewayModel, m: OutMsgV) -> GatewayModel {
    if m is Stringout {
        spec_write(g, ValueV::ByteString(m->Stringout_0))
    } else {
        g
    }
}

/// The outbound source at cyclic position `i`, in the fixed polling order.
pub open spec fn gw_at(d: &Dispatcher, i: int) -> GatewayModel {
    if i == 0 {
        d.ai@
    } else if i == 1 {
        d.aai@
    } else if i == 2 {
        d.waveform@
    } else if i == 3 {
        d.bi@
    } else if i == 4 {
        d.mbbi_direct@
    } else {
        d.stringin@
    }
}

/// Whether source `i` has an update pending.
pub open spec fn out_ready(d: &Dispatcher, i: int) -> bool {
    wake_value(gw_at(d, i)) is Some
}

/// The inbound-vocabulary message that carries source `i`'s value.
pub open spec fn msg_for_out(i: int, v: ValueV) -> InMsgV {
    if i == 0 {
        InMsgV::Ai(v->F64Bits_0)
    } else if i == 1 {
        InMsgV::Aai(v->I32Array_0)
    } else if i == 2 {
        InMsgV::Waveform(v->I32Array_0)
    } else if i == 3 {
        InMsgV::Bi(v->U16_0)
    } else if i == 4 {
        InMsgV::MbbiDirect(v->U32_0)
    } else {
        InMsgV::Stringin(v->ByteString_0)
    }
}

/// The frame that sending source `i`'s pending update puts on the wire.
pub open spec fn out_update_bytes(d: &Dispatcher, i: int) -> Seq<u8> {
    spec_encode_in(msg_for_out(i, wake_value(gw_at(d, i)).unwrap()))
}

/// Source `i` completed one observation between `pre` and `post`; every
/// other source, every inbound target, the decoder, the state and the
/// cursor are untouched.
pub open spec fn polled_at(pre: &Dispatcher, post: &Dispatcher, i: int) -> bool {
    &&& gw_at(post, i) == spec_observe(gw_at(pre, i)).1
    &&& forall|j: int| 0 <= j < 6 && j != i ==> gw_at(post, j) == gw_at(pre, j)
    &&& ins_same(pre, post)
    &&& post.state == pre.state
    &&& post.dec == pre.dec
}

/// Cyclic distance from `start` forward to `i`, both in `0..6`.
pub open spec fn cyc_dist(start: int, i: int) -> int {
    (i - start + 6) % 6
}

fn encode_msg(m: InMsg) -> (bytes: Vec<u8>)
    requires
        crate::msg::in_msg_valid(m@),
    ensures
        bytes@ == spec_encode_in(m@),
{
    match encode_in(&m) {
        Ok(b) => b,
        Err(_) => {
            proof {
                assert(false);
            }
            Vec::new()
        },
    }
}

impl Dispatcher {
    /// A dispatcher for a fresh connection: decoder empty, every gateway
    /// fresh with its declared kind and capacity, round-robin cursor at
    /// the first source, state `Connected`.
    pub fn new() -> (d: Dispatcher)
        ensures
            d_wf(&d),
            d.state is Connected,
            d.next_out == 0,
            d.dec.buffered() == Seq::<u8>::empty(),
            gw_at(&d, 0).queue.len() == 0 && gw_at(&d, 1).queue.len() == 0 && gw_at(&d, 2).queue.len()
                == 0 && gw_at(&d, 3).queue.len() == 0 && gw_at(&d, 4).queue.len() == 0 && gw_at(
                &d,
                5,
            ).queue.len() == 0,
            d.ao@.current is None && d.aao@.current is None && d.bo@.current is None
                && d.mbbo_direct@.current is None && d.stringout@.current is None,
            d.ao@.queue.len() == 0 && d.aao@.queue.len() == 0 && d.bo@.queue.len() == 0
                && d.mbbo_direct@.queue.len() == 0 && d.stringout@.queue.len() == 0,
    {
        Dispatcher {
            state: ConnState::Connected,
            dec: OutFrameDecoder::new(),
            next_out: 0,
            ao: Gateway::new(VarKind::F64, 1, Policy::EveryUpdate),
            aao: Gateway::new(VarKind::I32Array, ARRAY_CAPACITY, Policy::EveryUpdate),
            bo: Gateway::new(VarKind::U16, 1, Policy::EveryUpdate),
            mbbo_direct: Gateway::new(VarKind::U32, 1, Policy::EveryUpdate),
            stringout: Gateway::new(VarKind::ByteString, STRING_CAPACITY, Policy::EveryUpdate),
            ai: Gateway::new(VarKind::F64, 1, Policy::EveryUpdate),
            aai: Gateway::new(VarKind::I32Array, ARRAY_CAPACITY, Policy::EveryUpdate),
            waveform: Gateway::new(VarKind::I32Array, ARRAY_CAPACITY, Policy::EveryUpdate),
            bi: Gateway::new(VarKind::U16, 1, Policy::EveryUpdate),
            mbbi_direct: Gateway::new(VarKind::U32, 1, Policy::EveryUpdate),
            stringin: Gateway::new(VarKind::ByteString, STRING_CAPACITY, Policy::EveryUpdate),
        }
    }

    /// Hand one byte arriving from the stream to the connection.
    ///
    /// In `Connected` state: `Ok(false)` while the frame is still
    /// incomplete; `Ok(true)` when this byte completed a message, which
    /// has then been committed whole to the matching gateway, in arrival
    /// order; `Err(Malformed)` when the bytes can no longer be a valid
    /// frame — the connection enters `Closing`, since framing integrity is
    /// lost. Outside `Connected`, `Err(ConnectionLost)` and no effect.
    pub fn feed_byte(&mut self, b: u8) -> (r: Result<bool, Error>)
        requires
            d_wf(old(self)),
        ensures
            d_wf(final(self)),
            final(self).next_out == old(self).next_out,
            outs_same(old(self), final(self)),
            old(self).state !is Connected ==> r == Err::<bool, Error>(Error::ConnectionLost)
                && ins_same(old(self), final(self)) && final(self).state == old(self).state
                && final(self).dec == old(self).dec,
            old(self).state is Connected ==> {
                let fed = old(self).dec.buffered().push(b);
                match spec_decode_out(fed) {
                    SpecDecoded::Incomplete => r == Ok::<bool, Error>(false) && ins_same(
                        old(self),
                        final(self),
                    ) && final(self).state is Connected && final(self).dec.buffered() == fed,
                    SpecDecoded::Malformed => r == Err::<bool, Error>(Error::Malformed) && ins_same(
                        old(self),
                        final(self),
                    ) && final(self).state is Closing && final(self).dec.buffered() == Seq::<
                        u8,
                    >::empty(),
                    SpecDecoded::Done(m, n) => {
                        &&& r == Ok::<bool, Error>(true)
                        &&& final(self).state is Connected
                        &&& final(self).dec.buffered() == Seq::<u8>::empty()
                        &&& final(self).ao@ == route_ao(old(self).ao@, m)
                        &&& final(self).aao@ == route_aao(old(self).aao@, m)
                        &&& final(self).bo@ == route_bo(old(self).bo@, m)
                        &&& final(self).mbbo_direct@ == route_mbbo(old(self).mbbo_direct@, m)
                        &&& final(self).stringout@ == route_stringout(old(self).stringout@, m)
                    },
                }
            },
    {
        if !matches!(self.state, ConnState::Connected) {
            return Err(Error::ConnectionLost);
        }
        let fed = self.dec.feed_byte(b);
        match fed {
            Decoded::Incomplete => Ok(false),
            Decoded::Malformed => {
                self.state = ConnState::Closing;
                Err(Error::Malformed)
            },
            Decoded::Done(m, _n) => {
                proof {
                    lemma_decode_done(old(self).dec.buffered().push(b));
                }
                // A decoded message always fits its target: the wire
                // capacities equal the declared gateway capacities, so none
                // of these writes can be rejected.
                match m {
                    OutMsg::Ao(x) => {
                        let _ = self.ao.write(Value::F64Bits(x));
                    },
                    OutMsg::Aao(s) => {
                        let _ = self.aao.write(Value::I32Array(s));
                    },
                    OutMsg::Bo(x) => {
                        let _ = self.bo.write(Value::U16(x));
                    },
                    OutMsg::MbboDirect(x) => {
                        let _ = self.mbbo_direct.write(Value::U32(x));
                    },
                    OutMsg::Stringout(s) => {
                        let _ = self.stringout.write(Value::ByteString(s));
                    },
                }
                Ok(true)
            },
        }
    }

    /// The connection suffered an unrecoverable channel error or was asked
    /// to shut down: leave `Connected`. Gateways — and tasks waiting only
    /// on a variable — are untouched.
    pub fn begin_close(&mut self)
        ensures
            final(self).state == (if old(self).state is Closed {
                ConnState::Closed
            } else {
                ConnState::Closing
            }),
            ins_same(old(self), final(self)),
            outs_same(old(self), final(self)),
            final(self).dec == old(self).dec,
            final(self).next_out == old(self).next_out,
    {
        if !matches!(self.state, ConnState::Closed) {
            self.state = ConnState::Closing;
        }
    }

    /// Poll one outbound source at position `i`: if it has an update
    /// pending, observe and accept it, and encode the carrying message.
    fn try_slot(&mut self, i: usize) -> (r: Option<Vec<u8>>)
        requires
            d_wf(old(self)),
            i < 6,
        ensures
            d_wf(final(self)),
            final(self).next_out == old(self).next_out,
            match r {
                Option::Some(bytes) => out_ready(old(self), i as int) && polled_at(
                    old(self),
                    final(self),
                    i as int,
                ) && bytes@ == out_update_bytes(old(self), i as int),
                Option::None => !out_ready(old(self), i as int) && ins_same(old(self), final(self))
                    && outs_same(old(self), final(self)) && final(self).state == old(self).state
                    && final(self).dec == old(self).dec,
            },
    {
        proof {
            crate::gateway::lemma_wake_value_ok(gw_at(old(self), i as int));
        }
        if i == 0 {
            match self.ai.take_update() {
                Some(v) => {
                    let m = match v {
                        Value::F64Bits(x) => InMsg::Ai(x),
                        _ => {
                            proof {
                                assert(false);
                            }
                            InMsg::Ai(0)
                        },
                    };
                    Some(encode_msg(m))
                },
                None => None,
            }
        } else if i == 1 {
            match self.aai.take_update() {
                Some(v) => {
                    let m = match v {
                        Value::I32Array(s) => InMsg::Aai(s),
                        _ => {
                            proof {
                                assert(false);
                            }
                            InMsg::Ai(0)
                        },
                    };
                    Some(encode_msg(m))
                },
                None => None,
            }
        } else if i == 2 {
            match self.waveform.take_update() {
                Some(v) => {
                    let m = match v {
                        Value::I32Array(s) => InMsg::Waveform(s),
                        _ => {
                            proof {
                                assert(false);
                            }
                            InMsg::Ai(0)
                        },
                    };
                    Some(encode_msg(m))
                },
                None => None,
            }
        } else if i == 3 {
            match self.bi.take_update() {
                Some(v) => {
                    let m = match v {
                        Value::U16(x) => InMsg::Bi(x),
                        _ => {
                            proof {
                                assert(false);
                            }
                            InMsg::Ai(0)
                        },
                    };
                    Some(encode_msg(m))
                },
                None => None,
            }
        } else if i == 4 {
            match self.mbbi_direct.take_update() {
                Some(v) => {
                    let m = match v {
                        Value::U32(x) => InMsg::MbbiDirect(x),
                        _ => {
                            proof {
                                assert(false);
                            }
                            InMsg::Ai(0)
                        },
                    };
                    Some(encode_msg(m))
                },
                None => None,
            }
        } else {
            match self.stringin.take_update() {
                Some(v) => {
                    let m = match v {
                        Value::ByteString(s) => InMsg::Stringin(s),
                        _ => {
                            proof {
                                assert(false);
                            }
                            InMsg::Ai(0)
                        },
                    };
                    Some(encode_msg(m))
                },
                None => None,
            }
        }
    }

    /// Collect the next pending outbound update, fairly: sources are
    /// examined in cyclic order starting at the round-robin cursor, the
    /// first one with an update pending wins, and the cursor moves past
    /// it. Returns the winning source's position and the encoded frame to
    /// put on the wire whole, `Ok(None)` when no source has anything
    /// pending, and `Err(ConnectionLost)`, with no effect, once the
    /// connection has left `Connected`.
    pub fn poll_outbound(&mut self) -> (r: Result<Option<(usize, Vec<u8>)>, Error>)
        requires
            d_wf(old(self)),
        ensures
            d_wf(final(self)),
            old(self).state !is Connected ==> {
                &&& r == Err::<Option<(usize, Vec<u8>)>, Error>(Error::ConnectionLost)
                &&& ins_same(old(self), final(self))
                &&& outs_same(old(self), final(self))
                &&& final(self).state == old(self).state
                &&& final(self).dec == old(self).dec
                &&& final(self).next_out == old(self).next_out
            },
            old(self).state is Connected ==> match r {
                Ok(Option::Some((i, bytes))) => {
                    &&& i < 6
                    &&& out_ready(old(self), i as int)
                    &&& forall|j: int|
                        0 <= j < cyc_dist(old(self).next_out as int, i as int) ==> !out_ready(
                            old(self),
                            #[trigger] ((old(self).next_out + j) % 6),
                        )
                    &&& polled_at(old(self), final(self), i as int)
                    &&& bytes@ == out_update_bytes(old(self), i as int)
                    &&& final(self).next_out == (i + 1) % 6
                },
                Ok(Option::None) => (forall|k: int| 0 <= k < 6 ==> !out_ready(old(self), k))
                    && ins_same(old(self), final(self)) && outs_same(old(self), final(self))
                    && final(self).state == old(self).state && final(self).dec == old(self).dec
                    && final(self).next_out == old(self).next_out,
                Err(_) => false,
            },
    {
        if !matches!(self.state, ConnState::Connected) {
            return Err(Error::ConnectionLost);
        }
        let start = self.next_out;
        let mut k: usize = 0;
        while k < 6
            invariant
                d_wf(old(self)),
                d_wf(self),
                start == old(self).next_out,
                start < 6,
                k <= 6,
                old(self).state is Connected,
                ins_same(old(self), self),
                outs_same(old(self), self),
                self.state == old(self).state,
                self.dec == old(self).dec,
                self.next_out == old(self).next_out,
                forall|j: int| 0 <= j < k ==> !out_ready(old(self), #[trigger] ((start + j) % 6)),
            decreases 6 - k,
        {
            let i = (start + k) % 6;
            let ghost pre = *self;
            proof {
                assert(gw_at(&pre, i as int) == gw_at(old(self), i as int));
                assert(out_update_bytes(&pre, i as int) == out_update_bytes(old(self), i as int));
            }
            match self.try_slot(i) {
                Some(bytes) => {
                    self.next_out = (i + 1) % 6;
                    proof {
                        assert(cyc_dist(start as int, i as int) == k as int);
                        assert(gw_at(self, i as int) == spec_observe(gw_at(old(self), i as int)).1);
                        assert forall|j: int| 0 <= j < 6 && j != i as int implies gw_at(self, j)
                            == gw_at(old(self), j) by {
                            assert(gw_at(self, j) == gw_at(&pre, j));
                            assert(gw_at(&pre, j) == gw_at(old(self), j));
                        }
                        assert(polled_at(old(self), self, i as int));
                    }
                    return Ok(Some((i, bytes)));
                },
                None => {},
            }
            k = k + 1;
        }
        proof {
            assert forall|idx: int| 0 <= idx < 6 implies !out_ready(old(self), idx) by {
                let j: int = if idx >= start {
                    idx - start
                } else {
                    idx + 6 - start
                };
                assert((start + j) % 6 == idx);
                assert(!out_ready(old(self), (start + j) % 6));
            }
        }
        Ok(None)
    }

    /// Every per-variable task has stopped: the connection is fully
    /// closed. Terminal.
    pub fn finish_close(&mut self)
        requires
            old(self).state !is Connected,
        ensures
            final(self).state is Closed,
            ins_same(old(self), final(self)),
            outs_same(old(self), final(self)),
            final(self).dec == old(self).dec,
            final(self).next_out == old(self).next_out,
    {
        self.state = ConnState::Closed;
    }
}

} // verus!
