//! Live tunnels on the IN side: the registry keyed by tunnel identifier
//! and the selection of a tunnel for an intercepted connection.

use vstd::prelude::*;

use crate::addr::SockAddr;
use crate::ids::TunnelId;

verus! {

/// A per-tunnel routing rule carried in the match record.
#[derive(Clone, Copy, PartialEq, Eq, Structural, Debug)]
pub enum OutRule {
    /// Admits every destination.
    Any,
    /// Admits exactly this destination.
    Address(SockAddr),
}

/// Whether one rule admits the destination.
pub open spec fn rule_admits(r: OutRule, dest: SockAddr) -> bool {
    match r {
        OutRule::Any => true,
        OutRule::Address(a) => a == dest,
    }
}

/// An empty rule list admits everything; otherwise some rule must admit.
pub open spec fn rules_admit(rs: Seq<OutRule>, dest: SockAddr) -> bool {
    rs.len() == 0 || exists|i: int| 0 <= i < rs.len() && rule_admits(#[trigger] rs[i], dest)
}

/// Executable form of `rules_admit`.
pub fn rules_admit_exec(rs: &Vec<OutRule>, dest: &SockAddr) -> (b: bool)
    ensures
        b == rules_admit(rs@, *dest),
{
    if rs.len() == 0 {
        return true;
    }
    let mut i: usize = 0;
    while i < rs.len()
        invariant
            i <= rs@.len(),
            forall|k: int| 0 <= k < i ==> !rule_admits(#[trigger] rs@[k], *dest),
        decreases rs@.len() - i,
    {
        let hit = match rs[i] {
            OutRule::Any => true,
            OutRule::Address(a) => a == *dest,
        };
        if hit {
            proof {
                assert(rule_admits(rs@[i as int], *dest));
            }
            return true;
        }
        i = i + 1;
    }
    false
}

/// An empty required set is met by anything; otherwise the tunnel must
/// carry one of the required labels.
pub open spec fn labels_intersect(ls: Seq<Seq<char>>, required: Seq<Seq<char>>) -> bool {
    required.len() == 0 || exists|i: int, j: int|
        0 <= i < ls.len() && 0 <= j < required.len() && #[trigger] ls[i] == #[trigger] required[j]
}

/// Executable form of `labels_intersect`.
pub fn labels_intersect_exec(ls: &Vec<String>, required: &Vec<String>) -> (b: bool)
    ensures
        b == labels_intersect(ls@.map_values(|s: String| s@), required@.map_values(|s: String| s@)),
{
    let ghost lsv = ls@.map_values(|s: String| s@);
    let ghost rqv = required@.map_values(|s: String| s@);
    if required.len() == 0 {
        return true;
    }
    let mut i: usize = 0;
    while i < ls.len()
        invariant
            i <= ls@.len(),
            lsv == ls@.map_values(|s: String| s@),
            rqv == required@.map_values(|s: String| s@),
            rqv.len() > 0,
            forall|k: int, j: int| 0 <= k < i && 0 <= j < rqv.len() ==> #[trigger] lsv[k] != #[trigger] rqv[j],
        decreases ls@.len() - i,
    {
        let mut j: usize = 0;
        while j < required.len()
            invariant
                i < ls@.len(),
                j <= required@.len(),
                lsv == ls@.map_values(|s: String| s@),
                rqv == required@.map_values(|s: String| s@),
                forall|k: int| 0 <= k < j ==> lsv[i as int] != #[trigger] rqv[k],
            decreases required@.len() - j,
        {
            if ls[i].eq(&required[j]) {
                proof {
                    assert(lsv[i as int] == rqv[j as int]);
                }
                return true;
            }
            j = j + 1;
        }
        i = i + 1;
    }
    proof {
        assert(!labels_intersect(lsv, rqv));
    }
    false
}

/// One live tunnel as the IN-side registry sees it.
pub struct TunnelEntry {
    pub id: TunnelId,
    pub labels: Vec<String>,
    pub priority: i64,
    pub rules: Vec<OutRule>,
    pub address: SockAddr,
    pub established_order: u64,
}

/// Whether the tunnel qualifies for a connection with the given required
/// labels and destination.
pub open spec fn eligible(e: &TunnelEntry, required: Seq<Seq<char>>, dest: SockAddr) -> bool {
    labels_intersect(e.labels@.map_values(|s: String| s@), required) && rules_admit(e.rules@, dest)
}

/// The registry of live tunnels on the IN side.
pub struct TunnelRegistry {
    pub tunnels: Vec<TunnelEntry>,
    pub next_order: u64,
}

impl TunnelRegistry {
    /// Identifiers are unique; establishment order stamps are unique and
    /// below the next stamp.
    pub open spec fn wf(&self) -> bool {
        &&& forall|i: int, j: int|
            0 <= i < j < self.tunnels@.len() ==> self.tunnels@[i].id.value
                != self.tunnels@[j].id.value
        &&& forall|i: int, j: int|
            0 <= i < j < self.tunnels@.len() ==> self.tunnels@[i].established_order
                != self.tunnels@[j].established_order
        &&& forall|i: int|
            0 <= i < self.tunnels@.len() ==> #[trigger] self.tunnels@[i].established_order
                < self.next_order
    }

    /// An empty registry.
    pub fn new() -> (r: Self)
        ensures
            r.wf(),
            r.tunnels@.len() == 0,
            r.next_order == 0,
    {
        TunnelRegistry { tunnels: Vec::new(), next_order: 0 }
    }

    /// Whether some live tunnel carries `id`.
    pub fn contains_id(&self, id: TunnelId) -> (b: bool)
        ensures
            b == exists|i: int|
                0 <= i < self.tunnels@.len() && (#[trigger] self.tunnels@[i]).id.value == id.value,
    {
        let mut i: usize = 0;
        while i < self.tunnels.len()
            invariant
                i <= self.tunnels@.len(),
                forall|k: int| 0 <= k < i ==> (#[trigger] self.tunnels@[k]).id.value != id.value,
            decreases self.tunnels@.len() - i,
        {
            if self.tunnels[i].id.value == id.value {
                return true;
            }
            i = i + 1;
        }
        false
    }

    /// Adds a freshly established tunnel.  A duplicate identifier is
    /// refused, which keeps identifiers unique (the registry's invariant).
    pub fn insert(&mut self, entry: TunnelEntry) -> (ok: bool)
        requires
            old(self).wf(),
            old(self).next_order < u64::MAX,
        ensures
            final(self).wf(),
            ok == !(exists|i: int|
                0 <= i < old(self).tunnels@.len() && (#[trigger] old(self).tunnels@[i]).id.value
                    == entry.id.value),
            ok ==> final(self).tunnels@.len() == old(self).tunnels@.len() + 1,
            ok ==> final(self).tunnels@.last().id == entry.id,
            ok ==> final(self).tunnels@.last().established_order == old(self).next_order,
            ok ==> forall|i: int|
                0 <= i < old(self).tunnels@.len() ==> final(self).tunnels@[i] == old(self).tunnels@[i],
            !ok ==> *final(self) == *old(self),
    {
        if self.contains_id(entry.id) {
            return false;
        }
        let stamped = TunnelEntry {
            id: entry.id,
            labels: entry.labels,
            priority: entry.priority,
            rules: entry.rules,
            address: entry.address,
            established_order: self.next_order,
        };
        self.tunnels.push(stamped);
        self.next_order = self.next_order + 1;
        true
    }

    /// Removes the tunnel carrying `id`, if any.
    pub fn remove_by_id(&mut self, id: TunnelId) -> (removed: bool)
        requires
            old(self).wf(),
        ensures
            final(self).wf(),
            removed == exists|i: int|
                0 <= i < old(self).tunnels@.len() && (#[trigger] old(self).tunnels@[i]).id.value
                    == id.value,
            forall|i: int|
                0 <= i < final(self).tunnels@.len() ==> (#[trigger] final(self).tunnels@[i]).id.value
                    != id.value,
            removed ==> final(self).tunnels@.len() + 1 == old(self).tunnels@.len(),
            !removed ==> *final(self) == *old(self),
    {
        let mut i: usize = 0;
        while i < self.tunnels.len()
            invariant
                old(self).wf(),
                *self == *old(self),
                i <= self.tunnels@.len(),
                forall|k: int| 0 <= k < i ==> (#[trigger] self.tunnels@[k]).id.value != id.value,
            decreases self.tunnels@.len() - i,
        {
            if self.tunnels[i].id.value == id.value {
                self.tunnels.swap_remove(i);
                proof {
                    let last = old(self).tunnels@.len() - 1;
                    assert(forall|k: int|
                        0 <= k < self.tunnels@.len() ==> #[trigger] self.tunnels@[k] == (if k
                            == i {
                            old(self).tunnels@[last]
                        } else {
                            old(self).tunnels@[k]
                        }));
                    assert forall|k: int|
                        0 <= k < self.tunnels@.len() implies (#[trigger] self.tunnels@[k]).id.value
                        != id.value by {
                        if k == i {
                            if last != i {
                                assert(old(self).tunnels@[last].id.value != id.value);
                            }
                        }
                    }
                }
                return true;
            }
            i = i + 1;
        }
        false
    }

    /// Picks the tunnel for a connection: among the eligible tunnels, the
    /// one with the highest priority, ties broken towards the most
    /// recently established.
    pub fn select(&self, required: &Vec<String>, dest: SockAddr) -> (r: Option<TunnelId>)
        requires
            self.wf(),
        ensures
            ({
                let rq = required@.map_values(|s: String| s@);
                match r {
                    Some(id) => exists|i: int|
                        {
                            &&& 0 <= i < self.tunnels@.len()
                            &&& (#[trigger] self.tunnels@[i]).id.value == id.value
                            &&& eligible(&self.tunnels@[i], rq, dest)
                            &&& forall|j: int|
                                0 <= j < self.tunnels@.len() && eligible(
                                    &(#[trigger] self.tunnels@[j]),
                                    rq,
                                    dest,
                                ) ==> self.tunnels@[i].priority > self.tunnels@[j].priority || (
                                self.tunnels@[i].priority == self.tunnels@[j].priority
                                    && self.tunnels@[i].established_order
                                    >= self.tunnels@[j].established_order)
                        },
                    None => forall|j: int|
                        0 <= j < self.tunnels@.len() ==> !eligible(
                            &(#[trigger] self.tunnels@[j]),
                            rq,
                            dest,
                        ),
                }
            }),
    {
        let ghost rq = required@.map_values(|s: String| s@);
        let mut best: Option<usize> = None;
        let mut i: usize = 0;
        while i < self.tunnels.len()
            invariant
                self.wf(),
                i <= self.tunnels@.len(),
                rq == required@.map_values(|s: String| s@),
                match best {
                    Some(b) => {
                        &&& b < i
                        &&& eligible(&self.tunnels@[b as int], rq, dest)
                        &&& forall|j: int|
                            0 <= j < i && eligible(&(#[trigger] self.tunnels@[j]), rq, dest)
                                ==> self.tunnels@[b as int].priority > self.tunnels@[j].priority
                                || (self.tunnels@[b as int].priority == self.tunnels@[j].priority
                                && self.tunnels@[b as int].established_order
                                >= self.tunnels@[j].established_order)
                    },
                    None => forall|j: int|
                        0 <= j < i ==> !eligible(&(#[trigger] self.tunnels@[j]), rq, dest),
                },
            decreases self.tunnels@.len() - i,
    {
            let lab_ok = labels_intersect_exec(&self.tunnels[i].labels, required);
            let rule_ok = rules_admit_exec(&self.tunnels[i].rules, &dest);
            if lab_ok && rule_ok {
                proof {
                    assert(eligible(&self.tunnels@[i as int], rq, dest));
                }
                best = match best {
                    None => Some(i),
                    Some(b) => {
                        if self.tunnels[i].priority > self.tunnels[b].priority || (
                        self.tunnels[i].priority == self.tunnels[b].priority
                            && self.tunnels[i].established_order
                            > self.tunnels[b].established_order) {
                            Some(i)
                        } else {
                            Some(b)
                        }
                    },
                };
            }
            i = i + 1;
        }
        match best {
            None => None,
            Some(b) => Some(self.tunnels[b].id),
        }
    }
}

/// Routing monotonicity: whatever tunnel the selector names, its priority
/// is at least that of every other eligible tunnel.
pub proof fn lemma_selection_monotone(
    reg: &TunnelRegistry,
    required: Seq<Seq<char>>,
    dest: SockAddr,
    i: int,
    j: int,
)
    requires
        reg.wf(),
        0 <= i < reg.tunnels@.len(),
        0 <= j < reg.tunnels@.len(),
        eligible(&reg.tunnels@[i], required, dest),
        eligible(&reg.tunnels@[j], required, dest),
        forall|k: int|
            0 <= k < reg.tunnels@.len() && eligible(&(#[trigger] reg.tunnels@[k]), required, dest)
                ==> reg.tunnels@[i].priority > reg.tunnels@[k].priority || (reg.tunnels@[i].priority
                == reg.tunnels@[k].priority && reg.tunnels@[i].established_order
                >= reg.tunnels@[k].established_order),
    ensures
        reg.tunnels@[i].priority >= reg.tunnels@[j].priority,
{
}

/// Identifier uniqueness: in a well-formed registry no two live tunnels
/// share a `TunnelId`.
pub proof fn lemma_tunnel_ids_unique(reg: &TunnelRegistry, i: int, j: int)
    requires
        reg.wf(),
        0 <= i < reg.tunnels@.len(),
        0 <= j < reg.tunnels@.len(),
        i != j,
    ensures
        reg.tunnels@[i].id.value != reg.tunnels@[j].id.value,
{
}

} // verus!
