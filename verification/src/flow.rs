//! Flow steps: the per-variable wiring that pulls one update from a source
//! gateway and pushes it into one or two sink gateways.
//!
//! A step is one turn of a flow task's steady-state loop; the host executor
//! suspends between steps until the source has an update. Every sink is
//! committed before the source update is accepted, so two fan-out sinks
//! never diverge by more than the one in-flight update.

use vstd::prelude::*;

use crate::gateway::{gw_wf, spec_accept, spec_wait, spec_write, wake_value, Gateway};
use crate::value::value_dup;

verus! {

/// Mirror one pending update of `src` into `dst`: observe it, commit it to
/// `dst` whole, then accept it on `src`. Returns whether an update was
/// moved. The sink must be of the source's kind with at least its
/// capacity, so the write cannot be rejected.
pub fn mirror_step(src: &mut Gateway, dst: &mut Gateway) -> (moved: bool)
    requires
        gw_wf(old(src)@),
        gw_wf(old(dst)@),
        old(src)@.reading is None,
        !old(dst)@.write_held,
        old(dst)@.kind == old(src)@.kind,
        old(dst)@.max_len >= old(src)@.max_len,
    ensures
        gw_wf(final(src)@),
        gw_wf(final(dst)@),
        moved == (wake_value(old(src)@) is Some),
        !moved ==> final(src)@ == old(src)@ && final(dst)@ == old(dst)@,
        moved ==> {
            let v = wake_value(old(src)@).unwrap();
            &&& final(src)@ == spec_accept(spec_wait(old(src)@))
            &&& final(dst)@ == spec_write(old(dst)@, v)
            &&& final(dst)@.current == Option::Some(v)
        },
{
    match src.try_wait() {
        Some(v) => {
            let r = dst.write(v);
            src.accept();
            true
        },
        None => false,
    }
}

/// Fan one pending update of `src` out into both `a` and `b`: observe it,
/// commit it whole to each sink, then accept it on `src`. After a step
/// that moved an update, the two sinks hold the same current value — at
/// any instant they differ by at most the one update in flight.
pub fn fanout_step(src: &mut Gateway, a: &mut Gateway, b: &mut Gateway) -> (moved: bool)
    requires
        gw_wf(old(src)@),
        gw_wf(old(a)@),
        gw_wf(old(b)@),
        old(src)@.reading is None,
        !old(a)@.write_held,
        !old(b)@.write_held,
        old(a)@.kind == old(src)@.kind,
        old(b)@.kind == old(src)@.kind,
        old(a)@.max_len >= old(src)@.max_len,
        old(b)@.max_len >= old(src)@.max_len,
    ensures
        gw_wf(final(src)@),
        gw_wf(final(a)@),
        gw_wf(final(b)@),
        moved == (wake_value(old(src)@) is Some),
        !moved ==> final(src)@ == old(src)@ && final(a)@ == old(a)@ && final(b)@ == old(b)@,
        moved ==> {
            let v = wake_value(old(src)@).unwrap();
            &&& final(src)@ == spec_accept(spec_wait(old(src)@))
            &&& final(a)@ == spec_write(old(a)@, v)
            &&& final(b)@ == spec_write(old(b)@, v)
            &&& final(a)@.current == Option::Some(v)
            &&& final(b)@.current == final(a)@.current
        },
{
    match src.try_wait() {
        Some(v) => {
            let w = value_dup(&v);
            let ra = a.write(v);
            let rb = b.write(w);
            src.accept();
            true
        },
        None => false,
    }
}

} // verus!
