//! Startup-time resolution of declared process variables.
//!
//! The host runtime owns a registry of named variables. At startup the
//! bridge claims each variable it needs by name — taking ownership, so
//! that nothing else can touch the value — and checks the declared
//! semantic type and direction. An absent name is `MissingVariable`, a
//! mismatched declaration `WrongType`; both are fatal to initialization,
//! never a runtime surprise.

use vstd::prelude::*;

use crate::errors::Error;
use crate::gateway::{gw_wf, Gateway, GatewayModel, Policy};
use crate::value::VarKind;

verus! {

/// Which way values move through a variable, from the bridge's
/// perspective.
#[derive(Clone, Copy, Debug, PartialEq, Eq, Structural)]
pub enum Direction {
    /// The bridge pushes values into the variable.
    Input,
    /// The bridge observes values the external system produces.
    Output,
}

/// One declared variable: its name, semantic type, direction, capacity and
/// update-delivery policy.
pub struct VarDecl {
    pub name: Vec<u8>,
    pub kind: VarKind,
    pub direction: Direction,
    pub max_len: usize,
    pub policy: Policy,
}

/// Mathematical model of a declaration.
pub struct VarDeclV {
    pub name: Seq<u8>,
    pub kind: VarKind,
    pub direction: Direction,
    pub max_len: nat,
    pub policy: Policy,
}

impl View for VarDecl {
    type V = VarDeclV;

    open spec fn view(&self) -> VarDeclV {
        VarDeclV {
            name: self.name@,
            kind: self.kind,
            direction: self.direction,
            max_len: self.max_len as nat,
            policy: self.policy,
        }
    }
}

/// The host-owned registry of unclaimed variables.
pub struct Registry {
    entries: Vec<VarDecl>,
}

impl View for Registry {
    type V = Seq<VarDeclV>;

    closed spec fn view(&self) -> Seq<VarDeclV> {
        Seq::new(self.entries@.len(), |i: int| self.entries@[i]@)
    }
}

/// The index of the first declaration with the given name, or -1.
pub open spec fn find_index(rs: Seq<VarDeclV>, name: Seq<u8>) -> int
    decreases rs.len(),
{
    if rs.len() == 0 {
        -1
    } else if rs[0].name == name {
        0
    } else {
        let r = find_index(rs.drop_first(), name);
        if r == -1 {
            -1
        } else {
            1 + r
        }
    }
}

/// What [`find_index`] finds: -1 exactly when no declaration bears the
/// name, otherwise the least index that does.
pub proof fn lemma_find_index(rs: Seq<VarDeclV>, name: Seq<u8>)
    ensures
        find_index(rs, name) == -1 ==> forall|i: int|
            0 <= i < rs.len() ==> (#[trigger] rs[i]).name != name,
        find_index(rs, name) != -1 ==> {
            let k = find_index(rs, name);
            &&& 0 <= k < rs.len()
            &&& rs[k].name == name
            &&& forall|i: int| 0 <= i < k ==> (#[trigger] rs[i]).name != name
        },
    decreases rs.len(),
{
    if rs.len() > 0 {
        lemma_find_index(rs.drop_first(), name);
        if rs[0].name != name {
            let r = find_index(rs.drop_first(), name);
            if r != -1 {
                assert(rs.drop_first()[r] == rs[1 + r]);
                assert forall|i: int| 0 <= i < 1 + r implies (#[trigger] rs[i]).name != name by {
                    if i > 0 {
                        assert(rs.drop_first()[i - 1] == rs[i]);
                    }
                }
            } else {
                assert forall|i: int| 0 <= i < rs.len() implies (#[trigger] rs[i]).name
                    != name by {
                    if i > 0 {
                        assert(rs.drop_first()[i - 1] == rs[i]);
                    }
                }
            }
        }
    }
}

/// One variable the bridge requires: the name it was declared under, and
/// the semantic type and direction it must have been declared with.
pub struct Want {
    pub name: Vec<u8>,
    pub kind: VarKind,
    pub direction: Direction,
}

/// Mathematical model of a requirement.
pub struct WantV {
    pub name: Seq<u8>,
    pub kind: VarKind,
    pub direction: Direction,
}

impl View for Want {
    type V = WantV;

    open spec fn view(&self) -> WantV {
        WantV { name: self.name@, kind: self.kind, direction: self.direction }
    }
}

/// The gateway a freshly claimed declaration yields.
pub open spec fn fresh_gateway(d: VarDeclV) -> GatewayModel {
    GatewayModel {
        kind: d.kind,
        max_len: d.max_len,
        policy: d.policy,
        current: Option::None,
        queue: Seq::empty(),
        seen: Option::None,
        reading: Option::None,
        write_held: false,
    }
}

/// Outcome of resolving a whole list of requirements, at the
/// specification level.
pub enum TakeAll {
    Taken(Seq<GatewayModel>, Seq<VarDeclV>),
    Refused(Error),
}

/// Resolving requirements one after the other, each claim removing its
/// declaration before the next is looked up.
pub open spec fn spec_take_all(rs: Seq<VarDeclV>, wants: Seq<WantV>) -> TakeAll
    decreases wants.len(),
{
    if wants.len() == 0 {
        TakeAll::Taken(Seq::empty(), rs)
    } else {
        let w = wants[0];
        let k = find_index(rs, w.name);
        if k == -1 {
            TakeAll::Refused(Error::MissingVariable)
        } else if rs[k].kind != w.kind || rs[k].direction != w.direction {
            TakeAll::Refused(Error::WrongType)
        } else {
            match spec_take_all(rs.remove(k), wants.drop_first()) {
                TakeAll::Taken(gws, rest) => TakeAll::Taken(seq![fresh_gateway(rs[k])] + gws, rest),
                TakeAll::Refused(e) => TakeAll::Refused(e),
            }
        }
    }
}

/// A successful resolution yields exactly one gateway per requirement.
pub proof fn lemma_take_all_len(rs: Seq<VarDeclV>, wants: Seq<WantV>)
    ensures
        spec_take_all(rs, wants) matches TakeAll::Taken(gws, rest) ==> gws.len() == wants.len()
            && rest.len() + wants.len() == rs.len(),
    decreases wants.len(),
{
    if wants.len() > 0 {
        let w = wants[0];
        let k = find_index(rs, w.name);
        if k != -1 {
            lemma_find_index(rs, w.name);
            if rs[k].kind == w.kind && rs[k].direction == w.direction {
                lemma_take_all_len(rs.remove(k), wants.drop_first());
            }
        }
    }
}

fn bytes_eq(a: &[u8], b: &[u8]) -> (r: bool)
    ensures
        r == (a@ == b@),
{
    if a.len() != b.len() {
        return false;
    }
    let mut i: usize = 0;
    while i < a.len()
        invariant
            a@.len() == b@.len(),
            i <= a@.len(),
            forall|j: int| 0 <= j < i ==> a@[j] == b@[j],
        decreases a@.len() - i,
    {
        if a[i] != b[i] {
            return false;
        }
        i = i + 1;
    }
    proof {
        assert(a@ =~= b@);
    }
    true
}

impl Registry {
    /// An empty registry.
    pub fn new() -> (r: Registry)
        ensures
            r@ == Seq::<VarDeclV>::empty(),
    {
        let r = Registry { entries: Vec::new() };
        proof {
            assert(r@ =~= Seq::<VarDeclV>::empty());
        }
        r
    }

    /// Declare one more variable (host side).
    pub fn add(&mut self, decl: VarDecl)
        ensures
            final(self)@ == old(self)@.push(decl@),
    {
        self.entries.push(decl);
        proof {
            assert(self@ =~= old(self)@.push(decl@));
        }
    }

    /// How many variables are still unclaimed.
    pub fn len(&self) -> (n: usize)
        ensures
            n == self@.len(),
    {
        self.entries.len()
    }

    /// Whether every declared variable has been claimed. Startup is
    /// expected to end with an empty registry.
    pub fn is_empty(&self) -> (r: bool)
        ensures
            r == (self@.len() == 0),
    {
        self.entries.len() == 0
    }

    /// Claim the variable named `name`, checking its declared semantic
    /// type and direction, and take ownership: the declaration leaves the
    /// registry and a fresh gateway over the variable comes back.
    /// `MissingVariable` exactly when no declaration bears the name;
    /// `WrongType` exactly when the first one that does differs in kind or
    /// direction (it then stays in place).
    pub fn take_var(&mut self, name: &[u8], kind: VarKind, direction: Direction) -> (r: Result<
        Gateway,
        Error,
    >)
        ensures
            find_index(old(self)@, name@) == -1 ==> r == Err::<Gateway, Error>(
                Error::MissingVariable,
            ) && final(self)@ == old(self)@,
            find_index(old(self)@, name@) != -1 ==> {
                let k = find_index(old(self)@, name@);
                let d = old(self)@[k];
                if d.kind == kind && d.direction == direction {
                    &&& r matches Ok(g) && g@ == (GatewayModel {
                        kind,
                        max_len: d.max_len,
                        policy: d.policy,
                        current: Option::None,
                        queue: Seq::empty(),
                        seen: Option::None,
                        reading: Option::None,
                        write_held: false,
                    }) && gw_wf(g@)
                    &&& final(self)@ == old(self)@.remove(k)
                } else {
                    r == Err::<Gateway, Error>(Error::WrongType) && final(self)@ == old(self)@
                }
            },
    {
        proof {
            lemma_find_index(old(self)@, name@);
        }
        let ghost k = find_index(old(self)@, name@);
        let mut i: usize = 0;
        while i < self.entries.len()
            invariant
                self == old(self),
                i <= self.entries@.len(),
                forall|j: int| 0 <= j < i ==> (#[trigger] self@[j]).name != name@,
                k == find_index(old(self)@, name@),
            decreases self.entries@.len() - i,
        {
            if bytes_eq(self.entries[i].name.as_slice(), name) {
                proof {
                    lemma_find_index(old(self)@, name@);
                    assert(self@[i as int].name == name@);
                    assert(k == i as int);
                }
                let e = &self.entries[i];
                if !(e.kind == kind && e.direction == direction) {
                    return Err(Error::WrongType);
                }
                let max_len = e.max_len;
                let policy = e.policy;
                self.entries.remove(i);
                proof {
                    assert(self@ =~= old(self)@.remove(i as int));
                }
                return Ok(Gateway::new(kind, max_len, policy));
            }
            i = i + 1;
        }
        proof {
            assert(k == -1);
        }
        Err(Error::MissingVariable)
    }
}

/// Models of a list of requirements.
pub open spec fn wants_of(q: Seq<Want>) -> Seq<WantV> {
    Seq::new(q.len(), |i: int| q[i]@)
}

impl Registry {
    /// The bridge's startup phase: resolve every required variable in
    /// order, claiming each from the registry. Succeeds with one fresh
    /// gateway per requirement exactly when every name is declared with
    /// the required semantic type and direction; the first absent name is
    /// `MissingVariable`, the first mismatched one `WrongType`, and
    /// startup fails loudly.
    pub fn take_all(&mut self, wants: &Vec<Want>) -> (r: Result<Vec<Gateway>, Error>)
        ensures
            match spec_take_all(old(self)@, wants_of(wants@)) {
                TakeAll::Taken(gms, rest) => {
                    &&& r matches Ok(gs) && gs@.len() == gms.len() && forall|i: int|
                        0 <= i < gms.len() ==> (#[trigger] gs@[i])@ == gms[i]
                    &&& final(self)@ == rest
                },
                TakeAll::Refused(e) => r == Err::<Vec<Gateway>, Error>(e),
            },
    {
        let ghost ws = wants_of(wants@);
        let mut out: Vec<Gateway> = Vec::new();
        let mut i: usize = 0;
        proof {
            assert(ws.skip(0) =~= ws);
            lemma_take_all_len(old(self)@, ws);
            match spec_take_all(old(self)@, ws) {
                TakeAll::Taken(gms, rest) => {
                    assert(gms.skip(0) =~= gms);
                },
                TakeAll::Refused(_) => {},
            }
        }
        while i < wants.len()
            invariant
                i <= wants@.len(),
                ws == wants_of(wants@),
                out@.len() == i,
                match spec_take_all(old(self)@, ws) {
                    TakeAll::Taken(gms, rest) => {
                        &&& gms.len() == ws.len()
                        &&& forall|j: int| 0 <= j < i ==> (#[trigger] out@[j])@ == gms[j]
                        &&& spec_take_all(self@, ws.skip(i as int)) == TakeAll::Taken(
                            gms.skip(i as int),
                            rest,
                        )
                    },
                    TakeAll::Refused(e) => spec_take_all(self@, ws.skip(i as int))
                        == TakeAll::Refused(e),
                },
            decreases wants@.len() - i,
        {
            let ghost cur = self@;
            let ghost tail = ws.skip(i as int);
            proof {
                assert(tail.len() == ws.len() - i);
                assert(tail[0] == ws[i as int]);
                assert(ws[i as int] == wants@[i as int]@);
                assert(tail.drop_first() =~= ws.skip(i as int + 1));
            }
            let w = &wants[i];
            let res = self.take_var(w.name.as_slice(), w.kind, w.direction);
            match res {
                Ok(g) => {
                    proof {
                        let k = find_index(cur, w.name@);
                        lemma_find_index(cur, w.name@);
                        assert(k != -1);
                        assert(0 <= k < cur.len());
                        assert(cur[k].kind == w.kind && cur[k].direction == w.direction);
                        assert(g@ == fresh_gateway(cur[k]));
                        assert(self@ == cur.remove(k));
                        let lifted = spec_take_all(cur.remove(k), tail.drop_first());
                        assert(spec_take_all(cur, tail) == (match lifted {
                            TakeAll::Taken(gws2, rest2) => TakeAll::Taken(
                                seq![fresh_gateway(cur[k])] + gws2,
                                rest2,
                            ),
                            TakeAll::Refused(e2) => TakeAll::Refused(e2),
                        }));
                        match spec_take_all(old(self)@, ws) {
                            TakeAll::Taken(gms, rest) => {
                                match lifted {
                                    TakeAll::Taken(gws2, rest2) => {
                                        assert(gms.skip(i as int) == seq![fresh_gateway(cur[k])]
                                            + gws2);
                                        assert(gms.skip(i as int)[0] == gms[i as int]);
                                        assert((seq![fresh_gateway(cur[k])] + gws2)[0]
                                            == fresh_gateway(cur[k]));
                                        assert(gms[i as int] == g@);
                                        assert(gws2 =~= gms.skip(i as int + 1)) by {
                                            assert forall|j: int|
                                                0 <= j < gws2.len() implies gws2[j] == gms.skip(
                                                i as int + 1,
                                            )[j] by {
                                                assert(gws2[j] == (seq![fresh_gateway(cur[k])]
                                                    + gws2)[j + 1]);
                                                assert(gms.skip(i as int)[j + 1] == gms[i as int
                                                    + 1 + j]);
                                            }
                                        }
                                        assert(rest2 == rest);
                                    },
                                    TakeAll::Refused(_) => {
                                        assert(false);
                                    },
                                }
                            },
                            TakeAll::Refused(e) => {
                                match lifted {
                                    TakeAll::Taken(_, _) => {
                                        assert(false);
                                    },
                                    TakeAll::Refused(e2) => {
                                        assert(e2 == e);
                                    },
                                }
                            },
                        }
                    }
                    out.push(g);
                },
                Err(e) => {
                    return Err(e);
                },
            }
            i = i + 1;
        }
        proof {
            assert(ws.skip(ws.len() as int) =~= Seq::<WantV>::empty());
            match spec_take_all(old(self)@, ws) {
                TakeAll::Taken(gms, rest) => {
                    assert(gms.skip(gms.len() as int) =~= Seq::<GatewayModel>::empty());
                },
                TakeAll::Refused(_) => {},
            }
        }
        Ok(out)
    }
}

} // verus!
