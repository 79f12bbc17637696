//! The per-variable access gateway: the synchronization kernel that
//! serializes writers and readers of one variable's value.
//!
//! A writer acquires the write token (`try_request`), then publishes a whole
//! value atomically (`commit`) or discards the attempt (`abort_write`). A
//! reader wakes on a pending update (`try_wait`), observes a whole value,
//! and re-arms detection (`accept`). Two delivery policies are supported:
//! `EveryUpdate` queues every commit so none is coalesced, `OnChange` wakes
//! only for a value different from the last one accepted.
//!
//! The asynchronous half — suspending until `try_request`/`try_wait` can
//! succeed — is the host executor's affair; every decision about the
//! variable's state lives here and is verified.

use vstd::prelude::*;

use crate::errors::Error;
use crate::value::{kind_of, len_of, value_dup, value_eq, value_kind, value_len, value_ok, Value,
    ValueV, VarKind};

verus! {

/// Update-delivery policy of a variable's readable side.
#[derive(Clone, Copy, Debug, PartialEq, Eq, Structural)]
pub enum Policy {
    /// Deliver every commit: updates queue, none is skipped or coalesced.
    EveryUpdate,
    /// Wake only for a value different from the last one accepted;
    /// back-to-back identical writes do not re-wake the reader.
    OnChange,
}

/// One process variable's gateway.
pub struct Gateway {
    kind: VarKind,
    max_len: usize,
    policy: Policy,
    current: Option<Value>,
    queue: Vec<Value>,
    seen: Option<Value>,
    reading: Option<Value>,
    write_held: bool,
}

/// Mathematical model of a gateway.
#[verifier::ext_equal]
pub struct GatewayModel {
    /// Declared semantic type.
    pub kind: VarKind,
    /// Declared maximum element count.
    pub max_len: nat,
    /// Update-delivery policy.
    pub policy: Policy,
    /// The current committed value, if any.
    pub current: Option<ValueV>,
    /// Committed values not yet observed, oldest first (`EveryUpdate`).
    pub queue: Seq<ValueV>,
    /// The value last accepted by the reader (`OnChange`).
    pub seen: Option<ValueV>,
    /// The value under a live read observation, if one is held.
    pub reading: Option<ValueV>,
    /// Whether the write token is held.
    pub write_held: bool,
}

/// Model of an optional stored value.
pub open spec fn opt_view(v: Option<Value>) -> Option<ValueV> {
    match v {
        Option::Some(x) => Option::Some(x@),
        Option::None => Option::None,
    }
}

/// Models of the queued values, oldest first.
pub open spec fn vals_of(q: Seq<Value>) -> Seq<ValueV> {
    Seq::new(q.len(), |i: int| q[i]@)
}

impl View for Gateway {
    type V = GatewayModel;

    closed spec fn view(&self) -> GatewayModel {
        GatewayModel {
            kind: self.kind,
            max_len: self.max_len as nat,
            policy: self.policy,
            current: opt_view(self.current),
            queue: vals_of(self.queue@),
            seen: opt_view(self.seen),
            reading: opt_view(self.reading),
            write_held: self.write_held,
        }
    }
}

/// Well-formedness: every stored value fits the declared kind and
/// capacity; the queue is used only by `EveryUpdate` and `seen` only by
/// `OnChange`; a live `EveryUpdate` observation is of the oldest queued
/// value.
pub open spec fn gw_wf(g: GatewayModel) -> bool {
    &&& forall|i: int| 0 <= i < g.queue.len() ==> value_ok(g.kind, g.max_len, #[trigger] g.queue[i])
    &&& g.current matches Some(v) ==> value_ok(g.kind, g.max_len, v)
    &&& g.seen matches Some(v) ==> value_ok(g.kind, g.max_len, v)
    &&& g.reading matches Some(v) ==> value_ok(g.kind, g.max_len, v)
    &&& g.policy is OnChange ==> g.queue.len() == 0
    &&& g.policy is EveryUpdate ==> g.seen is None
    &&& g.policy is EveryUpdate && g.reading is Some ==> g.queue.len() > 0 && g.reading == Some(
        g.queue[0],
    )
}

/// What `commit` publishes: the whole value becomes current, the write
/// token is released, and under `EveryUpdate` the value joins the queue of
/// unobserved updates.
pub open spec fn spec_commit(g: GatewayModel, v: ValueV) -> GatewayModel {
    GatewayModel {
        current: Some(v),
        queue: if g.policy is EveryUpdate {
            g.queue.push(v)
        } else {
            g.queue
        },
        write_held: false,
        ..g
    }
}

/// The value a reader wakes with, if any: under `EveryUpdate` the oldest
/// unobserved commit, under `OnChange` the current value when it differs
/// from the last accepted one. No wake while an observation is live.
pub open spec fn wake_value(g: GatewayModel) -> Option<ValueV> {
    if g.reading is Some {
        Option::None
    } else if g.policy is EveryUpdate {
        if g.queue.len() > 0 {
            Option::Some(g.queue[0])
        } else {
            Option::None
        }
    } else {
        if g.current is Some && g.current != g.seen {
            g.current
        } else {
            Option::None
        }
    }
}

/// What `try_wait` does: begin a live observation of the wake value, if
/// there is one.
pub open spec fn spec_wait(g: GatewayModel) -> GatewayModel {
    match wake_value(g) {
        Option::Some(v) => GatewayModel { reading: Option::Some(v), ..g },
        Option::None => g,
    }
}

/// What `accept` does: end the live observation; under `EveryUpdate` the
/// observed value leaves the queue, under `OnChange` it becomes the
/// accepted value that re-arms change detection.
pub open spec fn spec_accept(g: GatewayModel) -> GatewayModel {
    if g.policy is EveryUpdate {
        GatewayModel { reading: Option::None, queue: g.queue.drop_first(), ..g }
    } else {
        GatewayModel { reading: Option::None, seen: g.reading, ..g }
    }
}

impl Gateway {
    /// A fresh gateway for a variable of the given kind, capacity and
    /// policy: no value, no pending update, no token held.
    pub fn new(kind: VarKind, max_len: usize, policy: Policy) -> (g: Gateway)
        ensures
            g@ == (GatewayModel {
                kind,
                max_len: max_len as nat,
                policy,
                current: Option::None,
                queue: Seq::empty(),
                seen: Option::None,
                reading: Option::None,
                write_held: false,
            }),
            gw_wf(g@),
    {
        let g = Gateway {
            kind,
            max_len,
            policy,
            current: None,
            queue: Vec::new(),
            seen: None,
            reading: None,
            write_held: false,
        };
        proof {
            assert(vals_of(g.queue@) =~= Seq::<ValueV>::empty());
            assert(g@ =~= (GatewayModel {
                kind,
                max_len: max_len as nat,
                policy,
                current: Option::None,
                queue: Seq::empty(),
                seen: Option::None,
                reading: Option::None,
                write_held: false,
            }));
        }
        g
    }

    /// Declared maximum element count.
    pub fn max_len(&self) -> (n: usize)
        ensures
            n == self@.max_len,
    {
        self.max_len
    }

    /// Acquire the write token if it is free. Succeeds exactly when no
    /// writer holds it; the rest of the state is untouched.
    pub fn try_request(&mut self) -> (r: bool)
        ensures
            r == !old(self)@.write_held,
            r ==> final(self)@ == (GatewayModel { write_held: true, ..old(self)@ }),
            !r ==> final(self)@ == old(self)@,
    {
        if self.write_held {
            false
        } else {
            self.write_held = true;
            proof {
                assert(self@ =~= (GatewayModel { write_held: true, ..old(self)@ }));
            }
            true
        }
    }

    /// Release the write token without publishing anything: the prior
    /// value, the pending updates and the reader's state are untouched.
    pub fn abort_write(&mut self)
        requires
            old(self)@.write_held,
        ensures
            final(self)@ == (GatewayModel { write_held: false, ..old(self)@ }),
    {
        self.write_held = false;
        proof {
            assert(self@ =~= (GatewayModel { write_held: false, ..old(self)@ }));
        }
    }

    /// Publish `v` atomically as the variable's current value and release
    /// the write token. Succeeds exactly when `v` fits the declared kind
    /// and capacity; a wrong-kind or oversized write is rejected with the
    /// matching error and no effect at all, not even a partial one.
    pub fn commit(&mut self, v: Value) -> (r: Result<(), Error>)
        requires
            gw_wf(old(self)@),
            old(self)@.write_held,
        ensures
            gw_wf(final(self)@),
            value_ok(old(self)@.kind, old(self)@.max_len, v@) ==> r == Ok::<(), Error>(())
                && final(self)@ == spec_commit(old(self)@, v@),
            !value_ok(old(self)@.kind, old(self)@.max_len, v@) ==> final(self)@ == old(self)@
                && r == Err::<(), Error>(
                if kind_of(v@) != old(self)@.kind {
                    Error::WrongType
                } else {
                    Error::CapacityExceeded
                },
            ),
    {
        let k = value_kind(&v);
        if k != self.kind {
            return Err(Error::WrongType);
        }
        if value_len(&v) > self.max_len {
            return Err(Error::CapacityExceeded);
        }
        match self.policy {
            Policy::EveryUpdate => {
                let d = value_dup(&v);
                self.queue.push(d);
                proof {
                    assert(vals_of(self.queue@) =~= vals_of(old(self).queue@).push(v@));
                }
            },
            Policy::OnChange => {},
        }
        self.current = Some(v);
        self.write_held = false;
        proof {
            assert(self@ =~= spec_commit(old(self)@, v@));
        }
        Ok(())
    }

    /// Begin a read observation if an update is pending under the policy:
    /// the returned value is the whole wake value, and the observation
    /// stays live until `accept`. Returns `None`, leaving the state
    /// untouched, when nothing is pending or an observation is already
    /// live.
    pub fn try_wait(&mut self) -> (r: Option<Value>)
        requires
            gw_wf(old(self)@),
        ensures
            gw_wf(final(self)@),
            final(self)@ == spec_wait(old(self)@),
            match r {
                Option::Some(v) => wake_value(old(self)@) == Option::Some(v@),
                Option::None => wake_value(old(self)@) is None,
            },
    {
        if self.reading.is_some() {
            return None;
        }
        match self.policy {
            Policy::EveryUpdate => {
                if self.queue.len() > 0 {
                    let d = value_dup(&self.queue[0]);
                    let out = value_dup(&d);
                    self.reading = Some(d);
                    proof {
                        assert(self@ =~= spec_wait(old(self)@));
                    }
                    Some(out)
                } else {
                    None
                }
            },
            Policy::OnChange => {
                match &self.current {
                    Some(c) => {
                        let changed = match &self.seen {
                            Some(s) => !value_eq(c, s),
                            None => true,
                        };
                        if changed {
                            let d = value_dup(c);
                            let out = value_dup(&d);
                            self.reading = Some(d);
                            proof {
                                assert(self@ =~= spec_wait(old(self)@));
                            }
                            Some(out)
                        } else {
                            None
                        }
                    },
                    None => None,
                }
            },
        }
    }

    /// End the live observation and re-arm detection for the next update.
    pub fn accept(&mut self)
        requires
            gw_wf(old(self)@),
            old(self)@.reading is Some,
        ensures
            gw_wf(final(self)@),
            final(self)@ == spec_accept(old(self)@),
    {
        match self.policy {
            Policy::EveryUpdate => {
                self.queue.remove(0);
                self.reading = None;
                proof {
                    assert(vals_of(self.queue@) =~= vals_of(old(self).queue@).drop_first());
                    assert(self@ =~= spec_accept(old(self)@));
                }
            },
            Policy::OnChange => {
                self.seen = self.reading.take();
                proof {
                    assert(self@ =~= spec_accept(old(self)@));
                }
            },
        }
    }
}

/// One complete write: acquire the free token, then commit `v`.
pub open spec fn spec_write(g: GatewayModel, v: ValueV) -> GatewayModel {
    spec_commit(GatewayModel { write_held: true, ..g }, v)
}

impl Gateway {
    /// One complete write: acquire the free write token and commit `v`.
    /// Succeeds exactly when `v` fits the declared kind and capacity; a
    /// rejected write releases the token and leaves everything as it was.
    pub fn write(&mut self, v: Value) -> (r: Result<(), Error>)
        requires
            gw_wf(old(self)@),
            !old(self)@.write_held,
        ensures
            gw_wf(final(self)@),
            value_ok(old(self)@.kind, old(self)@.max_len, v@) ==> r == Ok::<(), Error>(())
                && final(self)@ == spec_write(old(self)@, v@),
            !value_ok(old(self)@.kind, old(self)@.max_len, v@) ==> final(self)@ == old(self)@
                && r == Err::<(), Error>(
                if kind_of(v@) != old(self)@.kind {
                    Error::WrongType
                } else {
                    Error::CapacityExceeded
                },
            ),
    {
        let acquired = self.try_request();
        let r = self.commit(v);
        match r {
            Ok(()) => Ok(()),
            Err(e) => {
                self.abort_write();
                proof {
                    assert(self@ =~= old(self)@);
                }
                Err(e)
            },
        }
    }

    /// One complete observation: wake on the pending update, if any, and
    /// accept it at once. Returns the whole observed value.
    pub fn take_update(&mut self) -> (r: Option<Value>)
        requires
            gw_wf(old(self)@),
            old(self)@.reading is None,
        ensures
            gw_wf(final(self)@),
            final(self)@.reading is None,
            match r {
                Option::Some(v) => wake_value(old(self)@) == Option::Some(v@) && final(self)@
                    == spec_observe(old(self)@).1,
                Option::None => wake_value(old(self)@) is None && final(self)@ == old(self)@,
            },
    {
        match self.try_wait() {
            Some(v) => {
                self.accept();
                Some(v)
            },
            None => None,
        }
    }
}

/// A strict sequence of writes, each committed before the next begins.
pub open spec fn spec_write_all(g: GatewayModel, vs: Seq<ValueV>) -> GatewayModel
    decreases vs.len(),
{
    if vs.len() == 0 {
        g
    } else {
        spec_write_all(spec_write(g, vs[0]), vs.drop_first())
    }
}

/// One complete observation: wake, read the whole value, accept.
/// `None` when nothing is pending.
pub open spec fn spec_observe(g: GatewayModel) -> (Option<ValueV>, GatewayModel) {
    match wake_value(g) {
        Option::Some(v) => (Option::Some(v), spec_accept(spec_wait(g))),
        Option::None => (Option::None, g),
    }
}

/// The first `k` successive observations, in order.
pub open spec fn spec_observe_all(g: GatewayModel, k: nat) -> (Seq<ValueV>, GatewayModel)
    decreases k,
{
    if k == 0 {
        (Seq::empty(), g)
    } else {
        let step = spec_observe(g);
        match step.0 {
            Option::Some(v) => {
                let rest = spec_observe_all(step.1, (k - 1) as nat);
                (seq![v] + rest.0, rest.1)
            },
            Option::None => (Seq::empty(), g),
        }
    }
}

/// Writer side of the no-missed-update law: under `EveryUpdate`, a strict
/// sequence of fitting writes appends every value to the queue of
/// unobserved updates, in commit order, and touches nothing of the
/// reader's state.
pub proof fn lemma_writes_queue_in_order(g: GatewayModel, vs: Seq<ValueV>)
    requires
        g.policy is EveryUpdate,
        forall|i: int| 0 <= i < vs.len() ==> value_ok(g.kind, g.max_len, #[trigger] vs[i]),
    ensures
        spec_write_all(g, vs).queue == g.queue + vs,
        spec_write_all(g, vs) == (GatewayModel {
            queue: g.queue + vs,
            current: if vs.len() > 0 {
                Option::Some(vs.last())
            } else {
                g.current
            },
            write_held: if vs.len() > 0 {
                false
            } else {
                g.write_held
            },
            ..g
        }),
        gw_wf(g) ==> gw_wf(spec_write_all(g, vs)),
    decreases vs.len(),
{
    if vs.len() == 0 {
        assert(g.queue + vs =~= g.queue);
        assert(spec_write_all(g, vs) =~= (GatewayModel { queue: g.queue + vs, ..g }));
    } else {
        let g1 = spec_write(g, vs[0]);
        lemma_writes_queue_in_order(g1, vs.drop_first());
        assert(g1.queue + vs.drop_first() =~= g.queue + vs);
        if vs.len() > 1 {
            assert(vs.drop_first().last() == vs.last());
        }
        assert(spec_write_all(g, vs) =~= (GatewayModel {
            queue: g.queue + vs,
            current: Option::Some(vs.last()),
            write_held: false,
            ..g
        }));
        if gw_wf(g) {
            assert forall|i: int| 0 <= i < g1.queue.len() implies value_ok(
                g1.kind,
                g1.max_len,
                #[trigger] g1.queue[i],
            ) by {
                if i < g.queue.len() {
                } else {
                    assert(g1.queue[i] == vs[0]);
                }
            }
            assert(gw_wf(g1));
        }
    }
}

/// Reader side of the no-missed-update law: under `EveryUpdate`, draining
/// `k` observations yields exactly the `k` oldest unobserved commits, in
/// commit order, and leaves the rest queued.
pub proof fn lemma_observed_in_order(g: GatewayModel, k: nat)
    requires
        gw_wf(g),
        g.policy is EveryUpdate,
        g.reading is None,
        k <= g.queue.len(),
    ensures
        spec_observe_all(g, k).0 == g.queue.take(k as int),
        spec_observe_all(g, k).1 == (GatewayModel { queue: g.queue.skip(k as int), ..g }),
        gw_wf(spec_observe_all(g, k).1),
    decreases k,
{
    if k == 0 {
        assert(g.queue.take(0) =~= Seq::<ValueV>::empty());
        assert(g.queue.skip(0) =~= g.queue);
        assert(spec_observe_all(g, k).1 =~= (GatewayModel { queue: g.queue.skip(0), ..g }));
    } else {
        let step = spec_observe(g);
        assert(step.0 == Option::Some(g.queue[0]));
        let g1 = step.1;
        assert(g1 =~= (GatewayModel { queue: g.queue.drop_first(), ..g }));
        lemma_observed_in_order(g1, (k - 1) as nat);
        assert(seq![g.queue[0]] + g.queue.drop_first().take(k as int - 1) =~= g.queue.take(
            k as int,
        ));
        assert(g.queue.drop_first().skip(k as int - 1) =~= g.queue.skip(k as int));
        assert(spec_observe_all(g, k).1 =~= (GatewayModel { queue: g.queue.skip(k as int), ..g }));
    }
}

/// No missed update under `EveryUpdate`: for a strict sequence of N writes
/// into a drained gateway, a reader using wait/accept observes exactly
/// those N values, in commit order — none skipped, none duplicated, even
/// when the writes outpace the reader.
pub proof fn lemma_no_missed_update(g: GatewayModel, vs: Seq<ValueV>)
    requires
        gw_wf(g),
        g.policy is EveryUpdate,
        g.reading is None,
        g.queue.len() == 0,
        forall|i: int| 0 <= i < vs.len() ==> value_ok(g.kind, g.max_len, #[trigger] vs[i]),
    ensures
        spec_observe_all(spec_write_all(g, vs), vs.len()).0 == vs,
        spec_observe_all(spec_write_all(g, vs), vs.len()).1.queue == Seq::<ValueV>::empty(),
{
    lemma_writes_queue_in_order(g, vs);
    let gw = spec_write_all(g, vs);
    assert(gw.queue =~= vs);
    lemma_observed_in_order(gw, vs.len());
    assert(gw.queue.take(vs.len() as int) =~= vs);
    assert(gw.queue.skip(vs.len() as int) =~= Seq::<ValueV>::empty());
}

/// Whatever a reader wakes with fits the gateway's declared kind and
/// capacity.
pub proof fn lemma_wake_value_ok(g: GatewayModel)
    requires
        gw_wf(g),
    ensures
        wake_value(g) matches Some(v) ==> value_ok(g.kind, g.max_len, v),
{
    if g.reading is None && g.policy is EveryUpdate && g.queue.len() > 0 {
        assert(value_ok(g.kind, g.max_len, g.queue[0]));
    }
}

/// Atomic commit: a reader that wakes after a commit sees either a whole
/// value committed earlier or the whole newly committed value, never a
/// mixture — under either policy, and for values of any length.
pub proof fn lemma_atomic_commit(g: GatewayModel, v: ValueV)
    requires
        gw_wf(g),
        g.write_held,
        value_ok(g.kind, g.max_len, v),
    ensures
        wake_value(spec_commit(g, v)) matches Some(o) ==> o == v || (g.policy is EveryUpdate
            && g.queue.len() > 0 && o == g.queue[0]),
{
}

} // verus!
