//! Flows and the connections that they belong to, in the order of the flows.
use vstd::prelude::*;
use crate::net::addr::{ConnId, Flow};

verus! {

/// A flow and its connection.
#[derive(Clone, Copy, Debug)]
pub struct IndexPair {
    pub flow: Flow,
    pub id: ConnId,
}

impl View for IndexPair {
    type V = (Flow, ConnId);

    open spec fn view(&self) -> (Flow, ConnId) {
        (self.flow, self.id)
    }
}

/// The connection of each flow.
#[derive(Debug)]
pub struct FlowIndex {
    pub pairs: Vec<IndexPair>,
}

impl View for FlowIndex {
    type V = Seq<(Flow, ConnId)>;

    open spec fn view(&self) -> Seq<(Flow, ConnId)> {
        self.pairs@.map_values(|p: IndexPair| p@)
    }
}

/// The order of flows: that of their four numbers.
pub open spec fn flow_before(a: Flow, b: Flow) -> bool {
    if a.guest.ip.bits != b.guest.ip.bits {
        a.guest.ip.bits < b.guest.ip.bits
    } else if a.guest.port != b.guest.port {
        a.guest.port < b.guest.port
    } else if a.remote.ip.bits != b.remote.ip.bits {
        a.remote.ip.bits < b.remote.ip.bits
    } else {
        a.remote.port < b.remote.port
    }
}

fn is_flow_before(a: &Flow, b: &Flow) -> (r: bool)
    ensures
        r == flow_before(*a, *b),
{
    if a.guest.ip.bits != b.guest.ip.bits {
        a.guest.ip.bits < b.guest.ip.bits
    } else if a.guest.port != b.guest.port {
        a.guest.port < b.guest.port
    } else if a.remote.ip.bits != b.remote.ip.bits {
        a.remote.ip.bits < b.remote.ip.bits
    } else {
        a.remote.port < b.remote.port
    }
}

/// Every flow once, in ascending order.
pub open spec fn flows_ordered(s: Seq<(Flow, ConnId)>) -> bool {
    forall|i: int, j: int|
        0 <= i < j < s.len() ==> flow_before((#[trigger] s[i]).0, (#[trigger] s[j]).0)
}

/// How many leading flows come before `f`.
pub open spec fn flow_rank(s: Seq<(Flow, ConnId)>, f: Flow) -> int
    decreases s.len(),
{
    if s.len() == 0 || !flow_before(s[0].0, f) {
        0
    } else {
        1 + flow_rank(s.skip(1), f)
    }
}

/// The index has the flow.
pub open spec fn has_flow(s: Seq<(Flow, ConnId)>, f: Flow) -> bool {
    flow_rank(s, f) < s.len() && s[flow_rank(s, f)].0 == f
}

/// The connection of the flow.
pub open spec fn conn_of_flow(s: Seq<(Flow, ConnId)>, f: Flow) -> Option<ConnId> {
    if has_flow(s, f) {
        Some(s[flow_rank(s, f)].1)
    } else {
        None
    }
}

/// The index with `id` under `f`.
pub open spec fn filed(s: Seq<(Flow, ConnId)>, f: Flow, id: ConnId) -> Seq<(Flow, ConnId)> {
    if has_flow(s, f) {
        s.update(flow_rank(s, f), (f, id))
    } else {
        s.insert(flow_rank(s, f), (f, id))
    }
}

/// The index without `f`.
pub open spec fn unfiled(s: Seq<(Flow, ConnId)>, f: Flow) -> Seq<(Flow, ConnId)> {
    if has_flow(s, f) {
        s.remove(flow_rank(s, f))
    } else {
        s
    }
}

/// The index of the first `n` pairs of a list: the last pair of a flow counts.
pub open spec fn indexed(list: Seq<(Flow, ConnId)>, n: nat) -> Seq<(Flow, ConnId)>
    decreases n,
{
    if n == 0 {
        Seq::empty()
    } else {
        filed(indexed(list, (n - 1) as nat), list[n - 1].0, list[n - 1].1)
    }
}

proof fn lemma_flow_rank(s: Seq<(Flow, ConnId)>, f: Flow)
    ensures
        0 <= flow_rank(s, f) <= s.len(),
        forall|k: int| 0 <= k < flow_rank(s, f) ==> flow_before((#[trigger] s[k]).0, f),
        flow_rank(s, f) < s.len() ==> !flow_before(s[flow_rank(s, f)].0, f),
    decreases s.len(),
{
    if s.len() > 0 && flow_before(s[0].0, f) {
        lemma_flow_rank(s.skip(1), f);
        assert forall|k: int| 0 <= k < flow_rank(s, f) implies flow_before((#[trigger] s[k]).0, f) by {
            if k > 0 {
                assert(s.skip(1)[k - 1] == s[k]);
            }
        }
    }
}

proof fn lemma_flow_rank_at(s: Seq<(Flow, ConnId)>, f: Flow, i: int)
    requires
        0 <= i <= s.len(),
        forall|k: int| 0 <= k < i ==> flow_before((#[trigger] s[k]).0, f),
        i < s.len() ==> !flow_before(s[i].0, f),
    ensures
        flow_rank(s, f) == i,
    decreases s.len(),
{
    if i > 0 {
        assert(flow_before(s[0].0, f));
        assert forall|k: int| 0 <= k < i - 1 implies flow_before((#[trigger] s.skip(1)[k]).0, f) by {
            assert(s.skip(1)[k] == s[k + 1]);
        }
        lemma_flow_rank_at(s.skip(1), f, i - 1);
    }
}

/// A flow that is filed is found again, and the order is kept.
pub proof fn law_filed_flow_is_found(s: Seq<(Flow, ConnId)>, f: Flow, id: ConnId)
    requires
        flows_ordered(s),
    ensures
        flows_ordered(filed(s, f, id)),
        conn_of_flow(filed(s, f, id), f) == Some(id),
{
    let r = flow_rank(s, f);
    let t = filed(s, f, id);
    lemma_flow_rank(s, f);
    assert forall|i: int, j: int| 0 <= i < j < t.len() implies flow_before(
        (#[trigger] t[i]).0,
        (#[trigger] t[j]).0,
    ) by {
        if !has_flow(s, f) {
            assert(r < s.len() ==> flow_before(f, s[r].0));
            if j == r {
                assert(t[i] == s[i]);
            } else if i == r {
                assert(t[j] == s[j - 1]);
                if j - 1 > r {
                    assert(flow_before(s[r].0, s[j - 1].0));
                }
            } else {
                assert(t[i] == if i < r { s[i] } else { s[i - 1] });
                assert(t[j] == if j < r { s[j] } else { s[j - 1] });
            }
        }
    }
    assert forall|k: int| 0 <= k < r implies flow_before((#[trigger] t[k]).0, f) by {
        assert(t[k] == s[k]);
    }
    lemma_flow_rank_at(t, f, r);
}

/// A flow that is taken out is not found, and the order is kept.
pub proof fn law_unfiled_flow_is_gone(s: Seq<(Flow, ConnId)>, f: Flow)
    requires
        flows_ordered(s),
    ensures
        flows_ordered(unfiled(s, f)),
        conn_of_flow(unfiled(s, f), f) is None,
{
    let r = flow_rank(s, f);
    let t = unfiled(s, f);
    lemma_flow_rank(s, f);
    if has_flow(s, f) {
        assert forall|i: int, j: int| 0 <= i < j < t.len() implies flow_before(
            (#[trigger] t[i]).0,
            (#[trigger] t[j]).0,
        ) by {
            assert(t[i] == if i < r { s[i] } else { s[i + 1] });
            assert(t[j] == if j < r { s[j] } else { s[j + 1] });
        }
        assert forall|k: int| 0 <= k < r implies flow_before((#[trigger] t[k]).0, f) by {
            assert(t[k] == s[k]);
        }
        if r < t.len() {
            assert(t[r] == s[r + 1]);
            assert(flow_before(s[r].0, s[r + 1].0));
        }
        lemma_flow_rank_at(t, f, r);
    }
}

/// A list in order is its own index.
pub proof fn lemma_indexed(list: Seq<(Flow, ConnId)>, n: nat)
    requires
        flows_ordered(list),
        n <= list.len(),
    ensures
        indexed(list, n) == list.take(n as int),
    decreases n,
{
    if n == 0 {
        assert(list.take(0) =~= Seq::empty());
    } else {
        lemma_indexed(list, (n - 1) as nat);
        let s = list.take(n - 1);
        assert forall|k: int| 0 <= k < n - 1 implies flow_before((#[trigger] s[k]).0, list[n - 1].0) by {
            assert(s[k] == list[k]);
        }
        lemma_flow_rank_at(s, list[n - 1].0, n - 1);
        assert(list.take(n as int) =~= s.insert(n - 1, list[n - 1]));
    }
}

impl FlowIndex {
    pub fn new() -> (r: Self)
        ensures
            r@ == Seq::<(Flow, ConnId)>::empty(),
    {
        let r = FlowIndex { pairs: Vec::new() };
        assert(r@ =~= Seq::<(Flow, ConnId)>::empty());
        r
    }

    /// How many leading flows come before `flow`.
    fn place(&self, flow: Flow) -> (r: usize)
        ensures
            r == flow_rank(self@, flow),
            r <= self.pairs@.len(),
    {
        let mut i: usize = 0;
        while i < self.pairs.len() && is_flow_before(&self.pairs[i].flow, &flow)
            invariant
                i <= self.pairs@.len(),
                forall|k: int| 0 <= k < i ==> flow_before((#[trigger] self@[k]).0, flow),
            decreases self.pairs@.len() - i,
        {
            assert(self@[i as int].0 == self.pairs@[i as int].flow);
            i += 1;
        }
        proof {
            if i < self.pairs@.len() {
                assert(self@[i as int].0 == self.pairs@[i as int].flow);
            }
            lemma_flow_rank_at(self@, flow, i as int);
        }
        i
    }

    /// The connection of the flow.
    pub fn get(&self, flow: Flow) -> (r: Option<ConnId>)
        ensures
            r == conn_of_flow(self@, flow),
    {
        let i: usize = self.place(flow);
        if i < self.pairs.len() && self.pairs[i].flow == flow {
            Some(self.pairs[i].id)
        } else {
            None
        }
    }

    /// Puts `id` under the flow.
    pub fn insert(&mut self, flow: Flow, id: ConnId)
        ensures
            final(self)@ == filed(old(self)@, flow, id),
    {
        let i: usize = self.place(flow);
        if i < self.pairs.len() && self.pairs[i].flow == flow {
            self.pairs.set(i, IndexPair { flow, id });
        } else {
            self.pairs.insert(i, IndexPair { flow, id });
        }
        assert(self@ =~= filed(old(self)@, flow, id));
    }

    /// Takes the flow out.
    pub fn remove(&mut self, flow: Flow)
        ensures
            final(self)@ == unfiled(old(self)@, flow),
    {
        let i: usize = self.place(flow);
        if i < self.pairs.len() && self.pairs[i].flow == flow {
            let _ = self.pairs.remove(i);
        }
        assert(self@ =~= unfiled(old(self)@, flow));
    }
}

} // verus!
