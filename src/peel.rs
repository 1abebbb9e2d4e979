use vstd::prelude::*;

use crate::record::{EventPayload, RawEvent, Update};

verus! {

/// `child` is the address of an operator directly inside the operator at `parent`:
/// dropping its last index gives `parent`.
pub open spec fn is_child_address(child: Seq<u64>, parent: Seq<u64>) -> bool {
    child.len() > 0 && child.drop_last() == parent
}

/// Some declared operator sits directly inside the operator at `addr`.
pub open spec fn has_child(ops: Seq<(Seq<u64>, u64)>, addr: Seq<u64>) -> bool {
    exists|j: int| 0 <= j < ops.len() && is_child_address(#[trigger] ops[j].0, addr)
}

/// The ids of the encompassing operators: those that are the parent of some
/// declared operator.
pub open spec fn peel_set(ops: Seq<(Seq<u64>, u64)>) -> Set<u64> {
    Set::new(
        |id: u64| exists|i: int| 0 <= i < ops.len() && #[trigger] ops[i].1 == id && has_child(ops, ops[i].0),
    )
}

/// An update survives peeling unless it is attributed to a peeled operator.
pub open spec fn survives(u: Update, ids: Set<u64>) -> bool {
    match u.0.operator_id {
        Some(id) => !ids.contains(id),
        None => true,
    }
}

/// The updates of `s` that survive peeling by `ids`, in order.
pub open spec fn peeled(s: Seq<Update>, ids: Set<u64>) -> Seq<Update>
    decreases s.len(),
{
    if s.len() == 0 {
        seq![]
    } else {
        let prefix = peeled(s.drop_last(), ids);
        if survives(s.last(), ids) {
            prefix.push(s.last())
        } else {
            prefix
        }
    }
}

/// Removing the records of peeled operators a second time changes nothing.
pub proof fn lemma_peel_idempotent(s: Seq<Update>, ids: Set<u64>)
    ensures
        peeled(peeled(s, ids), ids) == peeled(s, ids),
    decreases s.len(),
{
    if s.len() > 0 {
        lemma_peel_idempotent(s.drop_last(), ids);
        let p = peeled(s.drop_last(), ids);
        if survives(s.last(), ids) {
            assert(p.push(s.last()).drop_last() == p);
        }
    }
}

/// An update is kept by peeling exactly when it was there and survives.
pub proof fn lemma_peeled_contains(s: Seq<Update>, ids: Set<u64>, x: Update)
    ensures
        peeled(s, ids).contains(x) <==> s.contains(x) && survives(x, ids),
    decreases s.len(),
{
    if s.len() > 0 {
        lemma_peeled_contains(s.drop_last(), ids, x);
        let p = peeled(s.drop_last(), ids);
        if s.contains(x) && x != s.last() {
            let k = choose|k: int| 0 <= k < s.len() && s[k] == x;
            assert(s.drop_last()[k] == x);
        }
        if s.drop_last().contains(x) {
            let k = choose|k: int| 0 <= k < s.drop_last().len() && s.drop_last()[k] == x;
            assert(s[k] == x);
        }
        if survives(s.last(), ids) {
            assert(p.push(s.last())[p.len() as int] == s.last());
            if p.push(s.last()).contains(x) && x != s.last() {
                let k = choose|k: int| 0 <= k < p.len() + 1 && p.push(s.last())[k] == x;
                assert(p[k] == x);
            }
            if p.contains(x) {
                let k = choose|k: int| 0 <= k < p.len() && p[k] == x;
                assert(p.push(s.last())[k] == x);
            }
        }
        assert(s[s.len() - 1] == s.last());
    }
}

/// With operator `a` at address `[0]` directly containing operator `b` at `[0, 1]`,
/// only `a` is encompassing: peeling drops every record of `a` and keeps every
/// record of `b`.
pub proof fn lemma_parent_peeled_child_kept(a: u64, b: u64, records: Seq<Update>)
    requires
        a != b,
    ensures
        peel_set(seq![(seq![0u64], a), (seq![0u64, 1u64], b)]) == set![a],
        forall|k: int|
            0 <= k < records.len() && (#[trigger] records[k]).0.operator_id == Some(a)
                ==> !peeled(records, set![a]).contains(records[k]),
        forall|k: int|
            0 <= k < records.len() && (#[trigger] records[k]).0.operator_id == Some(b)
                ==> peeled(records, set![a]).contains(records[k]),
{
    let ops = seq![(seq![0u64], a), (seq![0u64, 1u64], b)];
    assert(ops[1].0.drop_last() == ops[0].0);
    assert(has_child(ops, ops[0].0));
    assert(ops[0].0.drop_last().len() != ops[1].0.len());
    assert(ops[1].0.drop_last().len() != ops[1].0.len());
    assert(!has_child(ops, ops[1].0));
    assert forall|id: u64| peel_set(ops).contains(id) <==> id == a by {
        if id == a {
            assert(ops[0].1 == id && has_child(ops, ops[0].0));
        }
        if peel_set(ops).contains(id) {
            let i = choose|i: int| 0 <= i < ops.len() && #[trigger] ops[i].1 == id && has_child(ops, ops[i].0);
            assert(i == 0);
        }
    }
    assert(peel_set(ops) =~= set![a]);
    assert forall|k: int|
        0 <= k < records.len() && (#[trigger] records[k]).0.operator_id == Some(a)
            ==> !peeled(records, set![a]).contains(records[k]) by {
        if 0 <= k < records.len() {
            lemma_peeled_contains(records, set![a], records[k]);
        }
    }
    assert forall|k: int|
        0 <= k < records.len() && (#[trigger] records[k]).0.operator_id == Some(b)
            ==> peeled(records, set![a]).contains(records[k]) by {
        if 0 <= k < records.len() {
            lemma_peeled_contains(records, set![a], records[k]);
            assert(records.contains(records[k]));
        }
    }
}

/// An operator declaration seen outside the bootstrap epoch. The topology is
/// fixed at bootstrap, so such a declaration is reported and left out.
#[derive(Clone, Copy, Debug, PartialEq, Eq)]
pub struct TopologyViolation {
    pub operator_id: u64,
    pub timestamp: u64,
}

/// The `(address, id)` pairs that the operator declarations of `events` at
/// `bootstrap` contribute, in order.
pub open spec fn declared(bootstrap: u64, events: Seq<RawEvent>) -> Seq<(Seq<u64>, u64)>
    decreases events.len(),
{
    if events.len() == 0 {
        seq![]
    } else {
        let prefix = declared(bootstrap, events.drop_last());
        let ev = events.last();
        match ev.payload {
            EventPayload::Operates { address, operator_id } => if ev.timestamp == bootstrap {
                prefix.push((address@, operator_id))
            } else {
                prefix
            },
            _ => prefix,
        }
    }
}

/// The operator declarations of `events` made at another time than `bootstrap`, in order.
pub open spec fn violations(bootstrap: u64, events: Seq<RawEvent>) -> Seq<TopologyViolation>
    decreases events.len(),
{
    if events.len() == 0 {
        seq![]
    } else {
        let prefix = violations(bootstrap, events.drop_last());
        let ev = events.last();
        match ev.payload {
            EventPayload::Operates { operator_id, .. } => if ev.timestamp == bootstrap {
                prefix
            } else {
                prefix.push(TopologyViolation { operator_id, timestamp: ev.timestamp })
            },
            _ => prefix,
        }
    }
}

/// The operators declared during the bootstrap epoch, as `(address, id)` pairs.
pub struct Topology {
    bootstrap_epoch: u64,
    operates: Vec<(Vec<u64>, u64)>,
}

fn copy_address(a: &Vec<u64>) -> (r: Vec<u64>)
    ensures
        r@ == a@,
{
    let mut r: Vec<u64> = Vec::new();
    let mut i: usize = 0;
    while i < a.len()
        invariant
            i <= a@.len(),
            r@ == a@.subrange(0, i as int),
        decreases a@.len() - i,
    {
        r.push(a[i]);
        i = i + 1;
    }
    assert(r@ =~= a@);
    r
}

fn is_child_address_exec(child: &Vec<u64>, parent: &Vec<u64>) -> (r: bool)
    ensures
        r == is_child_address(child@, parent@),
{
    if child.len() == 0 || child.len() - 1 != parent.len() {
        return false;
    }
    let mut i: usize = 0;
    while i < parent.len()
        invariant
            i <= parent@.len(),
            child@.len() == parent@.len() + 1,
            forall|k: int| 0 <= k < i ==> child@[k] == parent@[k],
        decreases parent@.len() - i,
    {
        if child[i] != parent[i] {
            assert(child@.drop_last()[i as int] != parent@[i as int]);
            return false;
        }
        i = i + 1;
    }
    assert(child@.drop_last() =~= parent@);
    true
}

fn has_child_exec(ops: &Vec<(Vec<u64>, u64)>, addr: &Vec<u64>) -> (r: bool)
    ensures
        r == has_child(ops@.map_values(|p: (Vec<u64>, u64)| (p.0@, p.1)), addr@),
{
    let ghost view = ops@.map_values(|p: (Vec<u64>, u64)| (p.0@, p.1));
    let mut j: usize = 0;
    while j < ops.len()
        invariant
            j <= ops@.len(),
            view == ops@.map_values(|p: (Vec<u64>, u64)| (p.0@, p.1)),
            forall|k: int| 0 <= k < j ==> !is_child_address(#[trigger] view[k].0, addr@),
        decreases ops@.len() - j,
    {
        if is_child_address_exec(&ops[j].0, addr) {
            assert(view[j as int].0 == ops@[j as int].0@);
            return true;
        }
        j = j + 1;
    }
    false
}

fn contains_id(v: &Vec<u64>, id: u64) -> (r: bool)
    ensures
        r == v@.contains(id),
{
    let mut i: usize = 0;
    while i < v.len()
        invariant
            i <= v@.len(),
            forall|k: int| 0 <= k < i ==> v@[k] != id,
        decreases v@.len() - i,
    {
        if v[i] == id {
            return true;
        }
        i = i + 1;
    }
    false
}

impl Topology {
    /// The declared operators, in the order they were observed.
    pub closed spec fn operates(&self) -> Seq<(Seq<u64>, u64)> {
        self.operates@.map_values(|p: (Vec<u64>, u64)| (p.0@, p.1))
    }

    /// The epoch at which the topology is declared.
    pub closed spec fn bootstrap(&self) -> u64 {
        self.bootstrap_epoch
    }

    /// An empty topology, to be declared at `bootstrap_epoch`.
    pub fn new(bootstrap_epoch: u64) -> (r: Topology)
        ensures
            r.operates() == Seq::<(Seq<u64>, u64)>::empty(),
            r.bootstrap() == bootstrap_epoch,
    {
        let r = Topology { bootstrap_epoch, operates: Vec::new() };
        assert(r.operates() =~= Seq::<(Seq<u64>, u64)>::empty());
        r
    }

    /// The epoch at which the topology is declared.
    pub fn bootstrap_epoch(&self) -> (r: u64)
        ensures
            r == self.bootstrap(),
    {
        self.bootstrap_epoch
    }

    /// Takes in one raw event. An operator declaration at the bootstrap epoch joins
    /// the topology; one at another time is refused; any other event is ignored.
    pub fn observe(&mut self, ev: &RawEvent) -> (r: Result<(), TopologyViolation>)
        ensures
            final(self).bootstrap() == old(self).bootstrap(),
            match ev.payload {
                EventPayload::Operates { address, operator_id } => if ev.timestamp
                    == old(self).bootstrap() {
                    r is Ok && final(self).operates() == old(self).operates().push(
                        (address@, operator_id),
                    )
                } else {
                    r == Err::<(), _>(TopologyViolation { operator_id, timestamp: ev.timestamp })
                        && final(self).operates() == old(self).operates()
                },
                _ => r is Ok && final(self).operates() == old(self).operates(),
            },
    {
        match &ev.payload {
            EventPayload::Operates { address, operator_id } => {
                if ev.timestamp == self.bootstrap_epoch {
                    let addr = copy_address(address);
                    self.operates.push((addr, *operator_id));
                    assert(self.operates() =~= old(self).operates().push((address@, *operator_id)));
                    Ok(())
                } else {
                    Err(TopologyViolation { operator_id: *operator_id, timestamp: ev.timestamp })
                }
            },
            _ => Ok(()),
        }
    }

    /// Takes in a batch of raw events in order, and returns the refused declarations.
    pub fn observe_all(&mut self, events: &Vec<RawEvent>) -> (r: Vec<TopologyViolation>)
        ensures
            final(self).bootstrap() == old(self).bootstrap(),
            final(self).operates() == old(self).operates() + declared(old(self).bootstrap(), events@),
            r@ == violations(old(self).bootstrap(), events@),
    {
        let ghost start = self.operates();
        let mut out: Vec<TopologyViolation> = Vec::new();
        let mut i: usize = 0;
        while i < events.len()
            invariant
                i <= events@.len(),
                self.bootstrap() == old(self).bootstrap(),
                start == old(self).operates(),
                self.operates() == start + declared(self.bootstrap(), events@.subrange(0, i as int)),
                out@ == violations(self.bootstrap(), events@.subrange(0, i as int)),
            decreases events@.len() - i,
        {
            assert(events@.subrange(0, i + 1).drop_last() == events@.subrange(0, i as int));
            match self.observe(&events[i]) {
                Ok(()) => {},
                Err(v) => out.push(v),
            }
            assert(self.operates() =~= start + declared(self.bootstrap(), events@.subrange(0, i + 1)));
            i = i + 1;
        }
        assert(events@.subrange(0, events@.len() as int) == events@);
        out
    }

    /// The ids of the encompassing operators, each once.
    pub fn peel_ids(&self) -> (r: Vec<u64>)
        ensures
            r@.to_set() == peel_set(self.operates()),
            r@.no_duplicates(),
    {
        let ghost ops = self.operates();
        let mut r: Vec<u64> = Vec::new();
        let mut i: usize = 0;
        while i < self.operates.len()
            invariant
                i <= self.operates@.len(),
                ops == self.operates(),
                r@.no_duplicates(),
                forall|id: u64|
                    r@.contains(id) <==> exists|k: int|
                        0 <= k < i && #[trigger] ops[k].1 == id && has_child(ops, ops[k].0),
            decreases self.operates@.len() - i,
        {
            let found = has_child_exec(&self.operates, &self.operates[i].0);
            let id = self.operates[i].1;
            assert(ops[i as int] == (self.operates@[i as int].0@, id));
            assert(found == has_child(ops, ops[i as int].0));
            let ghost before = r@;
            if found && !contains_id(&r, id) {
                r.push(id);
                assert forall|x: u64| r@.contains(x) <==> before.contains(x) || x == id by {
                    if r@.contains(x) && x != id {
                        let m = choose|m: int| 0 <= m < r@.len() && r@[m] == x;
                        assert(before[m] == x);
                    }
                    if before.contains(x) {
                        let m = choose|m: int| 0 <= m < before.len() && before[m] == x;
                        assert(r@[m] == x);
                    }
                    assert(r@[before.len() as int] == id);
                }
            }
            assert forall|x: u64|
                r@.contains(x) <==> exists|k: int|
                    0 <= k < i + 1 && #[trigger] ops[k].1 == x && has_child(ops, ops[k].0) by {
                if x == id && found {
                    assert(ops[i as int].1 == x);
                }
                if r@.contains(x) {
                    if before.contains(x) {
                        let k = choose|k: int| 0 <= k < i && #[trigger] ops[k].1 == x && has_child(ops, ops[k].0);
                        assert(0 <= k < i + 1 && ops[k].1 == x && has_child(ops, ops[k].0));
                    } else {
                        assert(x == id && found);
                        assert(ops[i as int].1 == x);
                    }
                }
                if exists|k: int| 0 <= k < i + 1 && #[trigger] ops[k].1 == x && has_child(ops, ops[k].0) {
                    let k = choose|k: int| 0 <= k < i + 1 && #[trigger] ops[k].1 == x && has_child(ops, ops[k].0);
                    if k < i {
                        assert(before.contains(x));
                    }
                }
            }
            i = i + 1;
        }
        assert(r@.to_set() =~= peel_set(ops));
        r
    }
}

/// Removes, keeping order, every update attributed to an operator in `ids`;
/// message records carry no operator and always pass.
pub fn peel_records(records: &Vec<Update>, ids: &Vec<u64>) -> (r: Vec<Update>)
    ensures
        r@ == peeled(records@, ids@.to_set()),
{
    let mut out: Vec<Update> = Vec::new();
    let mut i: usize = 0;
    while i < records.len()
        invariant
            i <= records@.len(),
            out@ == peeled(records@.subrange(0, i as int), ids@.to_set()),
        decreases records@.len() - i,
    {
        assert(records@.subrange(0, i + 1).drop_last() == records@.subrange(0, i as int));
        let u = records[i];
        let keep = match u.0.operator_id {
            Some(id) => !contains_id(ids, id),
            None => true,
        };
        if keep {
            out.push(u);
        }
        i = i + 1;
    }
    assert(records@.subrange(0, records@.len() as int) == records@);
    out
}

/// Strips the updates of encompassing operators from `records`, keeping order.
pub fn peel_operators(records: &Vec<Update>, topology: &Topology) -> (r: Vec<Update>)
    ensures
        r@ == peeled(records@, peel_set(topology.operates())),
{
    let ids = topology.peel_ids();
    peel_records(records, &ids)
}

} // verus!
