//! A directed graph whose nodes carry string values and are addressed by
//! handles that are never reused: a handle of a removed node stays dead.
use vstd::prelude::*;

verus! {

/// A handle to a node of a [`Graph`].
#[derive(Debug, Clone, Copy, PartialEq, Eq, Hash, Structural)]
pub struct NodeId {
    id: u32,
}

impl NodeId {
    /// The serial number a graph gave this handle when it created the node.
    pub closed spec fn serial(self) -> nat {
        self.id as nat
    }
}

#[derive(Debug)]
struct Node {
    id: u32,
    value: String,
    out: Vec<NodeId>,
}

/// A directed graph. Nodes are kept in the order they were created.
#[derive(Debug)]
pub struct Graph {
    new_id: u32,
    nodes: Vec<Node>,
}

/// `s` with every occurrence of `x` taken out, the rest in order.
pub open spec fn without(s: Seq<NodeId>, x: NodeId) -> Seq<NodeId>
    decreases s.len(),
{
    if s.len() == 0 {
        s
    } else if s.last() == x {
        without(s.drop_last(), x)
    } else {
        without(s.drop_last(), x).push(s.last())
    }
}

impl Graph {
    /// The node with handle `id` is present.
    pub closed spec fn has_node(self, id: NodeId) -> bool {
        exists|i: int| 0 <= i < self.nodes@.len() && #[trigger] self.nodes@[i].id == id.id
    }

    spec fn slot(self, id: NodeId) -> int {
        choose|i: int| 0 <= i < self.nodes@.len() && #[trigger] self.nodes@[i].id == id.id
    }

    /// The value held by each present node.
    pub closed spec fn values(self) -> Map<NodeId, Seq<char>> {
        Map::new(|k: NodeId| self.has_node(k), |k: NodeId| self.nodes@[self.slot(k)].value@)
    }

    /// The out-neighbours of each present node, in the order the edges were added.
    pub closed spec fn edges(self) -> Map<NodeId, Seq<NodeId>> {
        Map::new(|k: NodeId| self.has_node(k), |k: NodeId| self.nodes@[self.slot(k)].out@)
    }

    /// The serial number the next added node will get.
    pub closed spec fn next_serial(self) -> nat {
        self.new_id as nat
    }

    /// Internal consistency of the graph.
    pub closed spec fn wf(self) -> bool {
        &&& forall|i: int, j: int|
            0 <= i < j < self.nodes@.len() ==> #[trigger] self.nodes@[i].id
                < #[trigger] self.nodes@[j].id
        &&& forall|i: int| 0 <= i < self.nodes@.len() ==> #[trigger] self.nodes@[i].id < self.new_id
        &&& forall|i: int| 0 <= i < self.nodes@.len() ==> (#[trigger] self.nodes@[i]).out@.no_duplicates()
        &&& forall|i: int, j: int|
            0 <= i < self.nodes@.len() && 0 <= j < self.nodes@[i].out@.len() ==> self.has_node(
                #[trigger] self.nodes@[i].out@[j],
            )
    }

    proof fn lemma_slot(self, i: int)
        requires
            self.wf(),
            0 <= i < self.nodes@.len(),
        ensures
            self.has_node(NodeId { id: self.nodes@[i].id }),
            self.slot(NodeId { id: self.nodes@[i].id }) == i,
    {
        let k = NodeId { id: self.nodes@[i].id };
        assert(self.nodes@[i].id == k.id);
        let j = self.slot(k);
        if j < i {
            assert(self.nodes@[j].id < self.nodes@[i].id);
        } else if j > i {
            assert(self.nodes@[i].id < self.nodes@[j].id);
        }
    }

    /// Facts every valid graph keeps: the values and edges describe the same
    /// nodes, every handle was issued before, and every edge points to a
    /// present node at most once.
    pub proof fn lemma_wf_facts(self)
        requires
            self.wf(),
        ensures
            self.values().dom() == self.edges().dom(),
            forall|k: NodeId| #[trigger] self.values().contains_key(k) ==> k.serial() < self.next_serial(),
            forall|k: NodeId| #[trigger] self.edges().contains_key(k) ==> self.edges()[k].no_duplicates(),
            forall|k: NodeId, j: int|
                self.edges().contains_key(k) && 0 <= j < self.edges()[k].len()
                    ==> self.values().contains_key(#[trigger] self.edges()[k][j]),
    {
        assert(self.values().dom() =~= self.edges().dom());
        assert forall|k: NodeId| #[trigger] self.values().contains_key(k) implies k.serial()
            < self.next_serial() by {
            let i = self.slot(k);
            assert(self.nodes@[i].id < self.new_id);
        }
        assert forall|k: NodeId| #[trigger] self.edges().contains_key(k) implies self.edges()[k].no_duplicates() by {
            let i = self.slot(k);
            assert(self.nodes@[i].out@.no_duplicates());
        }
        assert forall|k: NodeId, j: int|
            self.edges().contains_key(k) && 0 <= j < self.edges()[k].len()
            implies self.values().contains_key(#[trigger] self.edges()[k][j]) by {
            let i = self.slot(k);
            assert(self.has_node(self.nodes@[i].out@[j]));
        }
    }

    /// Constructs a new, empty graph.
    pub fn new() -> (g: Graph)
        ensures
            g.wf(),
            g.values() == Map::<NodeId, Seq<char>>::empty(),
            g.edges() == Map::<NodeId, Seq<NodeId>>::empty(),
            g.next_serial() == 0,
    {
        let g = Graph { new_id: 0, nodes: Vec::new() };
        assert(g.values() =~= Map::<NodeId, Seq<char>>::empty());
        assert(g.edges() =~= Map::<NodeId, Seq<NodeId>>::empty());
        g
    }

    fn find(&self, id: NodeId) -> (r: Option<usize>)
        requires
            self.wf(),
        ensures
            r is Some <==> self.has_node(id),
            r matches Some(i) ==> i < self.nodes@.len() && self.nodes@[i as int].id == id.id
                && self.slot(id) == i,
    {
        let mut i: usize = 0;
        while i < self.nodes.len()
            invariant
                self.wf(),
                i <= self.nodes@.len(),
                forall|j: int| 0 <= j < i ==> self.nodes@[j].id != id.id,
            decreases self.nodes@.len() - i,
        {
            if self.nodes[i].id == id.id {
                proof {
                    self.lemma_slot(i as int);
                }
                return Some(i);
            }
            i = i + 1;
        }
        None
    }

    /// Adds a node with the given value and returns its new, unique handle.
    pub fn add(&mut self, value: String) -> (id: NodeId)
        requires
            old(self).wf(),
            old(self).next_serial() < u32::MAX,
        ensures
            final(self).wf(),
            !old(self).values().contains_key(id),
            id.serial() == old(self).next_serial(),
            final(self).next_serial() == old(self).next_serial() + 1,
            final(self).values() == old(self).values().insert(id, value@),
            final(self).edges() == old(self).edges().insert(id, Seq::<NodeId>::empty()),
    {
        let ghost old_g = *self;
        let id = NodeId { id: self.new_id };
        self.nodes.push(Node { id: self.new_id, value, out: Vec::new() });
        self.new_id = self.new_id + 1;
        let ghost n = old_g.nodes@.len();
        assert(!old_g.has_node(id)) by {
            if old_g.has_node(id) {
                let i = old_g.slot(id);
                assert(old_g.nodes@[i].id < old_g.new_id);
            }
        }
        assert forall|k: NodeId| old_g.has_node(k) implies self.has_node(k) && self.slot(k)
            == old_g.slot(k) by {
            let i = old_g.slot(k);
            assert(self.nodes@[i] == old_g.nodes@[i]);
            assert(self.nodes@[i].id == k.id);
        }
        assert(self.wf()) by {
            assert forall|i: int, j: int|
                0 <= i < self.nodes@.len() && 0 <= j < self.nodes@[i].out@.len()
                implies self.has_node(#[trigger] self.nodes@[i].out@[j]) by {
                if i < n {
                    assert(self.nodes@[i] == old_g.nodes@[i]);
                    assert(old_g.has_node(old_g.nodes@[i].out@[j]));
                }
            }
        }
        proof {
            self.lemma_slot(n as int);
        }
        assert forall|k: NodeId| self.has_node(k) implies old_g.has_node(k) || k == id by {
            let i = self.slot(k);
            if i < n {
                assert(old_g.nodes@[i].id == k.id);
            }
        }
        assert(self.values() =~= old_g.values().insert(id, value@));
        assert(self.edges() =~= old_g.edges().insert(id, Seq::<NodeId>::empty()));
        id
    }

    /// Returns true if the graph contains the given id.
    pub fn contains(&self, id: NodeId) -> (b: bool)
        requires
            self.wf(),
        ensures
            b == self.values().contains_key(id),
    {
        self.find(id).is_some()
    }

    fn remove_all(v: &mut Vec<NodeId>, x: NodeId)
        ensures
            final(v)@ == without(old(v)@, x),
    {
        let mut r: Vec<NodeId> = Vec::new();
        let mut i: usize = 0;
        while i < v.len()
            invariant
                i <= v@.len(),
                r@ == without(v@.take(i as int), x),
            decreases v@.len() - i,
        {
            assert(v@.take(i as int + 1).drop_last() == v@.take(i as int));
            if v[i] != x {
                r.push(v[i]);
            }
            i = i + 1;
        }
        assert(v@.take(v@.len() as int) == v@);
        *v = r;
    }

    /// Removes a node from the graph, together with every edge into or out of it.
    pub fn remove(&mut self, id: NodeId)
        requires
            old(self).wf(),
            old(self).values().contains_key(id),
        ensures
            final(self).wf(),
            final(self).next_serial() == old(self).next_serial(),
            final(self).values() == old(self).values().remove(id),
            final(self).edges().dom() == old(self).edges().dom().remove(id),
            forall|k: NodeId| #[trigger]
                final(self).edges().contains_key(k) ==> final(self).edges()[k] == without(
                    old(self).edges()[k],
                    id,
                ),
    {
        let ghost old_g = *self;
        let k = match self.find(id) {
            Some(k) => k,
            None => 0,
        };
        let mut j: usize = 0;
        while j < self.nodes.len()
            invariant
                self.new_id == old_g.new_id,
                self.nodes@.len() == old_g.nodes@.len(),
                j <= self.nodes@.len(),
                forall|i: int|
                    0 <= i < self.nodes@.len() ==> #[trigger] self.nodes@[i].id == old_g.nodes@[i].id
                        && self.nodes@[i].value == old_g.nodes@[i].value,
                forall|i: int|
                    0 <= i < j ==> #[trigger] self.nodes@[i].out@ == without(old_g.nodes@[i].out@, id),
                forall|i: int|
                    j <= i < self.nodes@.len() ==> #[trigger] self.nodes@[i].out@ == old_g.nodes@[i].out@,
            decreases self.nodes@.len() - j,
        {
            let node = &mut self.nodes[j];
            Self::remove_all(&mut node.out, id);
            j = j + 1;
        }
        let ghost mid = self.nodes@;
        assert forall|i: int| 0 <= i < mid.len() implies #[trigger] mid[i].id == old_g.nodes@[i].id
            && mid[i].value == old_g.nodes@[i].value && mid[i].out@ == without(
            old_g.nodes@[i].out@,
            id,
        ) by {
            assert(self.nodes@[i].id == old_g.nodes@[i].id);
            assert(self.nodes@[i].out@ == without(old_g.nodes@[i].out@, id));
        }
        let _ = self.nodes.remove(k);
        proof {
            self.lemma_remove_result(old_g, mid, id, k as int);
        }
    }

    proof fn lemma_remove_result(self, old_g: Graph, mid: Seq<Node>, id: NodeId, k: int)
        requires
            old_g.wf(),
            old_g.has_node(id),
            0 <= k < old_g.nodes@.len(),
            old_g.nodes@[k].id == id.id,
            self.new_id == old_g.new_id,
            mid.len() == old_g.nodes@.len(),
            self.nodes@ == mid.remove(k),
            forall|i: int|
                0 <= i < mid.len() ==> #[trigger] mid[i].id == old_g.nodes@[i].id && mid[i].value
                    == old_g.nodes@[i].value && mid[i].out@ == without(old_g.nodes@[i].out@, id),
        ensures
            self.wf(),
            self.values() == old_g.values().remove(id),
            self.edges().dom() == old_g.edges().dom().remove(id),
            forall|q: NodeId| #[trigger]
                self.edges().contains_key(q) ==> self.edges()[q] == without(old_g.edges()[q], id),
    {
        let n = self.nodes@.len();
        // each old index other than k survives, shifted down past k
        assert forall|i: int| 0 <= i < n implies {
            let oi = if i < k { i } else { i + 1 };
            &&& #[trigger] self.nodes@[i].id == old_g.nodes@[oi].id
            &&& self.nodes@[i].value == old_g.nodes@[oi].value
            &&& self.nodes@[i].out@ == without(old_g.nodes@[oi].out@, id)
            &&& old_g.nodes@[oi].id != id.id
        } by {
            let oi = if i < k { i } else { i + 1 };
            assert(self.nodes@[i] == mid[oi]);
            assert(mid[oi].id == old_g.nodes@[oi].id);
            if oi < k {
                assert(old_g.nodes@[oi].id < old_g.nodes@[k].id);
            } else {
                assert(old_g.nodes@[k].id < old_g.nodes@[oi].id);
            }
        }
        assert forall|q: NodeId| #[trigger] self.has_node(q) <==> (old_g.has_node(q) && q != id) by {
            if self.has_node(q) {
                let i = self.slot(q);
                let oi = if i < k { i } else { i + 1 };
                assert(old_g.nodes@[oi].id == q.id);
                assert(q.id != id.id);
            }
            if old_g.has_node(q) && q != id {
                let oi = old_g.slot(q);
                assert(oi != k);
                let i = if oi < k { oi } else { oi - 1 };
                assert(self.nodes@[i].id == q.id);
            }
        }
        assert(self.wf()) by {
            assert forall|i: int, j: int|
                0 <= i < j < n implies #[trigger] self.nodes@[i].id < #[trigger] self.nodes@[j].id by {
                let oi = if i < k { i } else { i + 1 };
                let oj = if j < k { j } else { j + 1 };
                assert(old_g.nodes@[oi].id < old_g.nodes@[oj].id);
            }
            assert forall|i: int| 0 <= i < n implies #[trigger] self.nodes@[i].id < self.new_id by {
                let oi = if i < k { i } else { i + 1 };
                assert(old_g.nodes@[oi].id < old_g.new_id);
            }
            assert forall|i: int| 0 <= i < n implies (#[trigger] self.nodes@[i]).out@.no_duplicates() by {
                let oi = if i < k { i } else { i + 1 };
                assert(self.nodes@[i].id == old_g.nodes@[oi].id);
                assert(old_g.nodes@[oi].out@.no_duplicates());
                lemma_without(old_g.nodes@[oi].out@, id);
            }
            assert forall|i: int, j: int|
                0 <= i < n && 0 <= j < self.nodes@[i].out@.len() implies self.has_node(
                #[trigger] self.nodes@[i].out@[j],
            ) by {
                let oi = if i < k { i } else { i + 1 };
                let y = self.nodes@[i].out@[j];
                assert(self.nodes@[i].id == old_g.nodes@[oi].id);
                assert(self.nodes@[i].out@.contains(y));
                lemma_without(old_g.nodes@[oi].out@, id);
                assert(without(old_g.nodes@[oi].out@, id).contains(y));
                let oj = choose|oj: int| 0 <= oj < old_g.nodes@[oi].out@.len() && old_g.nodes@[oi].out@[oj] == y;
                assert(old_g.has_node(old_g.nodes@[oi].out@[oj]));
            }
        }
        assert forall|q: NodeId| self.has_node(q) implies {
            let oi = old_g.slot(q);
            &&& #[trigger] self.nodes@[self.slot(q)].value == old_g.nodes@[oi].value
            &&& self.nodes@[self.slot(q)].out@ == without(old_g.nodes@[oi].out@, id)
        } by {
            let i = self.slot(q);
            let oi = if i < k { i } else { i + 1 };
            old_g.lemma_slot(oi);
            assert(old_g.nodes@[oi].id == q.id);
        }
        assert(self.values() =~= old_g.values().remove(id));
        assert(self.edges().dom() =~= old_g.edges().dom().remove(id));
    }

    /// Immutably borrows the value stored in a node.
    pub fn value(&self, id: NodeId) -> (v: &String)
        requires
            self.wf(),
            self.values().contains_key(id),
        ensures
            v@ == self.values()[id],
    {
        let i = match self.find(id) {
            Some(i) => i,
            None => 0,
        };
        &self.nodes[i].value
    }

    proof fn lemma_update_node(self, old_g: Graph, i: int)
        requires
            old_g.wf(),
            0 <= i < old_g.nodes@.len(),
            self.new_id == old_g.new_id,
            self.nodes@.len() == old_g.nodes@.len(),
            forall|j: int| 0 <= j < self.nodes@.len() && j != i ==> self.nodes@[j] == old_g.nodes@[j],
            self.nodes@[i].id == old_g.nodes@[i].id,
            self.nodes@[i].out@.no_duplicates(),
            forall|j: int|
                0 <= j < self.nodes@[i].out@.len() ==> old_g.has_node(#[trigger] self.nodes@[i].out@[j]),
        ensures
            self.wf(),
            self.values() == old_g.values().insert(
                NodeId { id: old_g.nodes@[i].id },
                self.nodes@[i].value@,
            ),
            self.edges() == old_g.edges().insert(NodeId { id: old_g.nodes@[i].id }, self.nodes@[i].out@),
    {
        let key = NodeId { id: old_g.nodes@[i].id };
        assert forall|q: NodeId| #[trigger] self.has_node(q) <==> old_g.has_node(q) by {
            if self.has_node(q) {
                let j = self.slot(q);
                assert(old_g.nodes@[j].id == q.id);
            }
            if old_g.has_node(q) {
                let j = old_g.slot(q);
                assert(self.nodes@[j].id == q.id);
            }
        }
        assert(self.wf()) by {
            assert forall|a: int, b: int|
                0 <= a < b < self.nodes@.len() implies #[trigger] self.nodes@[a].id
                < #[trigger] self.nodes@[b].id by {
                assert(old_g.nodes@[a].id < old_g.nodes@[b].id);
            }
            assert forall|a: int| 0 <= a < self.nodes@.len() implies #[trigger] self.nodes@[a].id
                < self.new_id by {
                assert(old_g.nodes@[a].id < old_g.new_id);
            }
            assert forall|a: int| 0 <= a < self.nodes@.len() implies (
            #[trigger] self.nodes@[a]).out@.no_duplicates() by {
                assert(old_g.nodes@[a].out@.no_duplicates());
            }
            assert forall|a: int, b: int|
                0 <= a < self.nodes@.len() && 0 <= b < self.nodes@[a].out@.len() implies self.has_node(
                #[trigger] self.nodes@[a].out@[b],
            ) by {
                if a != i {
                    assert(old_g.has_node(old_g.nodes@[a].out@[b]));
                }
            }
        }
        old_g.lemma_slot(i);
        self.lemma_slot(i);
        assert forall|q: NodeId| self.has_node(q) && q != key implies #[trigger] self.slot(q) == old_g.slot(q) by {
            let j = old_g.slot(q);
            assert(j != i);
            self.lemma_slot(j);
            assert(self.nodes@[j].id == q.id);
        }
        assert(self.values() =~= old_g.values().insert(key, self.nodes@[i].value@));
        assert(self.edges() =~= old_g.edges().insert(key, self.nodes@[i].out@));
    }

    /// Mutably borrows the value stored in a node.
    pub fn value_mut(&mut self, id: NodeId) -> (v: &mut String)
        requires
            old(self).wf(),
            old(self).values().contains_key(id),
        ensures
            v@ == old(self).values()[id],
            final(self).wf(),
            final(self).next_serial() == old(self).next_serial(),
            final(self).values() == old(self).values().insert(id, final(v)@),
            final(self).edges() == old(self).edges(),
    {
        let i = match self.find(id) {
            Some(i) => i,
            None => 0,
        };
        proof {
            Self::lemma_value_update(*self, i as int);
        }
        let node = &mut self.nodes[i];
        &mut node.value
    }

    proof fn lemma_value_update(old_g: Graph, i: int)
        requires
            old_g.wf(),
            0 <= i < old_g.nodes@.len(),
        ensures
            forall|g: Graph|
                #![trigger g.values()]
                #![trigger g.wf()]
                #![trigger g.edges()]
                g.new_id == old_g.new_id && g.nodes@.len() == old_g.nodes@.len() && (forall|j: int|
                    0 <= j < g.nodes@.len() && j != i ==> g.nodes@[j] == old_g.nodes@[j])
                    && g.nodes@[i].id == old_g.nodes@[i].id && g.nodes@[i].out == old_g.nodes@[i].out
                    ==> g.wf() && g.values() == old_g.values().insert(
                    NodeId { id: old_g.nodes@[i].id },
                    g.nodes@[i].value@,
                ) && g.edges() == old_g.edges(),
    {
        assert forall|g: Graph|
            g.new_id == old_g.new_id && g.nodes@.len() == old_g.nodes@.len() && (forall|j: int|
                0 <= j < g.nodes@.len() && j != i ==> g.nodes@[j] == old_g.nodes@[j])
                && g.nodes@[i].id == old_g.nodes@[i].id && g.nodes@[i].out == old_g.nodes@[i].out
            implies g.wf() && g.values() == old_g.values().insert(
            NodeId { id: old_g.nodes@[i].id },
            g.nodes@[i].value@,
        ) && g.edges() == old_g.edges() by {
            assert(old_g.nodes@[i].out@.no_duplicates());
            assert forall|j: int| 0 <= j < g.nodes@[i].out@.len() implies old_g.has_node(
                #[trigger] g.nodes@[i].out@[j],
            ) by {
                assert(old_g.has_node(old_g.nodes@[i].out@[j]));
            }
            g.lemma_update_node(old_g, i);
            old_g.lemma_slot(i);
            assert(old_g.edges().insert(NodeId { id: old_g.nodes@[i].id }, g.nodes@[i].out@)
                =~= old_g.edges());
        }
    }

    fn vec_contains(v: &Vec<NodeId>, x: NodeId) -> (b: bool)
        ensures
            b == v@.contains(x),
    {
        let mut i: usize = 0;
        while i < v.len()
            invariant
                i <= v@.len(),
                forall|j: int| 0 <= j < i ==> v@[j] != x,
            decreases v@.len() - i,
        {
            if v[i] == x {
                return true;
            }
            i = i + 1;
        }
        false
    }

    /// Adds a directed edge from the `from` node to the `to` node, if there is none yet.
    pub fn connect(&mut self, from: NodeId, to: NodeId)
        requires
            old(self).wf(),
            old(self).values().contains_key(from),
            old(self).values().contains_key(to),
            !(from == to && old(self).edges()[from].contains(to)),
        ensures
            final(self).wf(),
            final(self).next_serial() == old(self).next_serial(),
            final(self).values() == old(self).values(),
            final(self).edges() == if old(self).edges()[from].contains(to) {
                old(self).edges()
            } else {
                old(self).edges().insert(from, old(self).edges()[from].push(to))
            },
    {
        let i = match self.find(from) {
            Some(i) => i,
            None => 0,
        };
        let ghost old_g = *self;
        if !Self::vec_contains(&self.nodes[i].out, to) {
            let node = &mut self.nodes[i];
            node.out.push(to);
            proof {
                let o = old_g.nodes@[i as int].out@;
                assert forall|a: int, b: int|
                    0 <= a < o.push(to).len() && 0 <= b < o.push(to).len() && a != b implies o.push(
                    to,
                )[a] != o.push(to)[b] by {
                    if a < o.len() && b < o.len() {
                        assert(old_g.nodes@[i as int].out@.no_duplicates());
                    } else if a < o.len() {
                        assert(o.contains(o[a]));
                    } else if b < o.len() {
                        assert(o.contains(o[b]));
                    }
                }
                assert forall|j: int| 0 <= j < o.push(to).len() implies old_g.has_node(
                    #[trigger] o.push(to)[j],
                ) by {
                    if j < o.len() {
                        assert(old_g.has_node(old_g.nodes@[i as int].out@[j]));
                    }
                }
                self.lemma_update_node(old_g, i as int);
                assert(self.nodes@[i as int].value == old_g.nodes@[i as int].value);
                assert(old_g.values().insert(from, self.nodes@[i as int].value@) =~= old_g.values());
            }
        } else {
            proof {
                old_g.lemma_slot(i as int);
                assert(old_g.edges().insert(from, old_g.edges()[from]) =~= old_g.edges());
            }
        }
    }

    /// Removes the directed edge from the `from` node to the `to` node, if there is one.
    pub fn disconnect(&mut self, from: NodeId, to: NodeId)
        requires
            old(self).wf(),
            old(self).values().contains_key(from),
            old(self).values().contains_key(to),
        ensures
            final(self).wf(),
            final(self).next_serial() == old(self).next_serial(),
            final(self).values() == old(self).values(),
            final(self).edges() == old(self).edges().insert(from, without(old(self).edges()[from], to)),
    {
        let i = match self.find(from) {
            Some(i) => i,
            None => 0,
        };
        let ghost old_g = *self;
        let node = &mut self.nodes[i];
        Self::remove_all(&mut node.out, to);
        proof {
            let o = old_g.nodes@[i as int].out@;
            assert(old_g.nodes@[i as int].out@.no_duplicates());
            lemma_without(o, to);
            assert forall|j: int| 0 <= j < without(o, to).len() implies old_g.has_node(
                #[trigger] without(o, to)[j],
            ) by {
                let y = without(o, to)[j];
                assert(without(o, to).contains(y));
                let oj = choose|oj: int| 0 <= oj < o.len() && o[oj] == y;
                assert(old_g.has_node(old_g.nodes@[i as int].out@[oj]));
            }
            self.lemma_update_node(old_g, i as int);
            old_g.lemma_slot(i as int);
            assert(old_g.values().insert(from, self.nodes@[i as int].value@) =~= old_g.values());
        }
    }

    /// Returns the handles of all nodes present in the graph.
    pub fn ids(&self) -> (r: Vec<NodeId>)
        requires
            self.wf(),
        ensures
            r@.no_duplicates(),
            forall|k: NodeId| #[trigger] r@.contains(k) <==> self.values().contains_key(k),
    {
        let mut r: Vec<NodeId> = Vec::new();
        let mut i: usize = 0;
        while i < self.nodes.len()
            invariant
                self.wf(),
                i <= self.nodes@.len(),
                r@.len() == i,
                forall|j: int| 0 <= j < i ==> #[trigger] r@[j] == (NodeId { id: self.nodes@[j].id }),
            decreases self.nodes@.len() - i,
        {
            r.push(NodeId { id: self.nodes[i].id });
            i = i + 1;
        }
        assert forall|a: int, b: int| 0 <= a < r@.len() && 0 <= b < r@.len() && a != b implies r@[a]
            != r@[b] by {
            if a < b {
                assert(self.nodes@[a].id < self.nodes@[b].id);
            } else {
                assert(self.nodes@[b].id < self.nodes@[a].id);
            }
        }
        assert forall|k: NodeId| #[trigger] r@.contains(k) <==> self.values().contains_key(k) by {
            if r@.contains(k) {
                let j = choose|j: int| 0 <= j < r@.len() && r@[j] == k;
                assert(self.nodes@[j].id == k.id);
            }
            if self.has_node(k) {
                let j = self.slot(k);
                assert(r@[j] == k);
            }
        }
        r
    }

    /// Returns the out-neighbours of a node, in the order the edges were added.
    pub fn neighbors(&self, id: NodeId) -> (r: Vec<NodeId>)
        requires
            self.wf(),
            self.values().contains_key(id),
        ensures
            r@ == self.edges()[id],
    {
        let i = match self.find(id) {
            Some(i) => i,
            None => 0,
        };
        let r = self.nodes[i].out.clone();
        assert(r@ =~= self.nodes@[i as int].out@);
        r
    }
}

/// A handle is never issued twice: each present node's handle was issued
/// before the graph's next serial number, `add` issues that number, and no
/// operation lowers it. So once a node is removed, no later node gets its
/// handle back, and the old handle stays dead.
pub proof fn law_removed_handle_stays_dead(g: Graph, removed: NodeId, later: Graph, id: NodeId)
    requires
        g.wf(),
        g.values().contains_key(removed),
        later.next_serial() >= g.next_serial(),
        id.serial() == later.next_serial(),
    ensures
        id != removed,
{
    g.lemma_wf_facts();
}

/// Removing a node takes away every edge into it: no remaining node keeps
/// it as a neighbour.
pub proof fn law_remove_drops_incoming_edges(g: Graph, id: NodeId, after: Graph)
    requires
        g.wf(),
        g.values().contains_key(id),
        after.edges().dom() == g.edges().dom().remove(id),
        forall|k: NodeId| #[trigger]
            after.edges().contains_key(k) ==> after.edges()[k] == without(g.edges()[k], id),
    ensures
        forall|k: NodeId| #[trigger]
            after.edges().contains_key(k) ==> !after.edges()[k].contains(id),
{
    assert forall|k: NodeId| #[trigger] after.edges().contains_key(k) implies !after.edges()[k].contains(
        id,
    ) by {
        lemma_without(g.edges()[k], id);
    }
}

/// A call that changes which nodes a graph holds: an `add` that returned
/// the handle, or a `remove` of the handle.
pub enum GraphOp {
    Added(NodeId),
    Removed(NodeId),
}

/// `after` is what `before` becomes by the call `op`, as [`Graph::add`] and
/// [`Graph::remove`] state it of the handles present and the next serial.
pub open spec fn step_ok(before: Graph, op: GraphOp, after: Graph) -> bool {
    match op {
        GraphOp::Added(id) => {
            &&& id.serial() == before.next_serial()
            &&& after.next_serial() == before.next_serial() + 1
            &&& after.values().dom() == before.values().dom().insert(id)
        },
        GraphOp::Removed(id) => {
            &&& before.values().contains_key(id)
            &&& after.next_serial() == before.next_serial()
            &&& after.values().dom() == before.values().dom().remove(id)
        },
    }
}

/// `id` was returned by one of the adds of `ops` and not removed after it.
pub open spec fn live_in(ops: Seq<GraphOp>, id: NodeId) -> bool {
    exists|i: int|
        0 <= i < ops.len() && #[trigger] ops[i] == GraphOp::Added(id) && forall|j: int|
            i < j < ops.len() ==> #[trigger] ops[j] != GraphOp::Removed(id)
}

/// Over any run of adds and removes on a graph that starts empty (as
/// [`Graph::new`] makes it), with the graphs `gs` between the calls `ops`:
/// no two adds return the same handle, and the graph at the end holds
/// exactly the handles that an add returned and no later remove took away.
pub proof fn law_graph_history(gs: Seq<Graph>, ops: Seq<GraphOp>)
    requires
        gs.len() == ops.len() + 1,
        gs[0].values().dom() == Set::<NodeId>::empty(),
        forall|i: int| 0 <= i < ops.len() ==> #[trigger] step_ok(gs[i], ops[i], gs[i + 1]),
    ensures
        forall|i: int, j: int|
            0 <= i < j < ops.len() && #[trigger] ops[i] is Added && #[trigger] ops[j] is Added ==> ops[i]
                != ops[j],
        forall|id: NodeId| gs.last().values().contains_key(id) <==> #[trigger] live_in(ops, id),
        forall|i: int|
            0 <= i < ops.len() ==> (#[trigger] ops[i] matches GraphOp::Added(a) ==> a.serial()
                < gs.last().next_serial()),
    decreases ops.len(),
{
    if ops.len() == 0 {
        assert forall|id: NodeId| gs.last().values().contains_key(id) <==> #[trigger] live_in(ops, id) by {
            assert(gs.last() == gs[0]);
        }
    } else {
        let n = ops.len() - 1;
        let gp = gs.drop_last();
        let op = ops.drop_last();
        assert forall|i: int| 0 <= i < op.len() implies #[trigger] step_ok(gp[i], op[i], gp[i + 1]) by {
            assert(step_ok(gs[i], ops[i], gs[i + 1]));
        }
        law_graph_history(gp, op);
        assert(step_ok(gs[n], ops[n], gs[n + 1]));
        assert(gp.last() == gs[n]);
        assert(gs.last() == gs[n + 1]);
        assert forall|i: int| 0 <= i < ops.len() implies (#[trigger] ops[i] matches GraphOp::Added(
            a,
        ) ==> a.serial() < gs.last().next_serial()) by {
            if i < n {
                assert(op[i] == ops[i]);
            }
        }
        assert forall|i: int, j: int|
            0 <= i < j < ops.len() && #[trigger] ops[i] is Added && #[trigger] ops[j] is Added implies ops[i]
                != ops[j] by {
            assert(op[i] == ops[i]);
            if j < n {
                assert(op[j] == ops[j]);
            }
        }
        assert forall|id: NodeId| gs.last().values().contains_key(id) <==> #[trigger] live_in(ops, id) by {
            if live_in(op, id) {
                let i = choose|i: int|
                    0 <= i < op.len() && #[trigger] op[i] == GraphOp::Added(id) && forall|j: int|
                        i < j < op.len() ==> #[trigger] op[j] != GraphOp::Removed(id);
                assert(ops[i] == op[i]);
                if ops[n] != GraphOp::Removed(id) {
                    assert forall|j: int| i < j < ops.len() implies #[trigger] ops[j] != GraphOp::Removed(id) by {
                        if j < n {
                            assert(op[j] == ops[j]);
                        }
                    }
                }
            }
            if live_in(ops, id) {
                let i = choose|i: int|
                    0 <= i < ops.len() && #[trigger] ops[i] == GraphOp::Added(id) && forall|j: int|
                        i < j < ops.len() ==> #[trigger] ops[j] != GraphOp::Removed(id);
                if i < n {
                    assert(op[i] == ops[i]);
                    assert forall|j: int| i < j < op.len() implies #[trigger] op[j] != GraphOp::Removed(id) by {
                        assert(op[j] == ops[j]);
                        assert(ops[j] != GraphOp::Removed(id));
                    }
                    assert(live_in(op, id));
                }
                assert(ops[n] != GraphOp::Removed(id)) by {
                    if i < n {
                        assert(ops[n] != GraphOp::Removed(id));
                    }
                }
            }
            match ops[n] {
                GraphOp::Added(x) => {
                    if x == id {
                        assert(ops[n] == GraphOp::Added(id));
                        assert(live_in(ops, id));
                    }
                },
                GraphOp::Removed(x) => {},
            }
        }
    }
}

proof fn lemma_push_contains(s: Seq<NodeId>, v: NodeId, y: NodeId)
    ensures
        s.push(v).contains(y) <==> (s.contains(y) || y == v),
{
    if s.contains(y) {
        let i = choose|i: int| 0 <= i < s.len() && s[i] == y;
        assert(s.push(v)[i] == y);
    }
    if y == v {
        assert(s.push(v)[s.len() as int] == y);
    }
    if s.push(v).contains(y) {
        let i = choose|i: int| 0 <= i < s.push(v).len() && s.push(v)[i] == y;
        if i < s.len() {
            assert(s[i] == y);
        }
    }
}

/// Facts about taking every occurrence of `x` out of `s`.
pub proof fn lemma_without(s: Seq<NodeId>, x: NodeId)
    ensures
        forall|y: NodeId| #[trigger] without(s, x).contains(y) <==> (s.contains(y) && y != x),
        s.no_duplicates() ==> without(s, x).no_duplicates(),
        !s.contains(x) ==> without(s, x) == s,
    decreases s.len(),
{
    if s.len() > 0 {
        let t = s.drop_last();
        let l = s.last();
        let w = without(t, x);
        lemma_without(t, x);
        assert(s == t.push(l));
        assert forall|y: NodeId| #[trigger] without(s, x).contains(y) <==> (s.contains(y) && y != x) by {
            lemma_push_contains(t, l, y);
            lemma_push_contains(w, l, y);
        }
        if s.no_duplicates() {
            assert(t.no_duplicates()) by {
                assert forall|i: int, j: int|
                    0 <= i < t.len() && 0 <= j < t.len() && i != j implies t[i] != t[j] by {
                    assert(s[i] != s[j]);
                }
            }
            if l != x {
                assert(!t.contains(l)) by {
                    if t.contains(l) {
                        let i = choose|i: int| 0 <= i < t.len() && t[i] == l;
                        assert(s[i] == s[s.len() - 1]);
                    }
                }
                assert(!w.contains(l));
                assert forall|i: int, j: int|
                    0 <= i < w.push(l).len() && 0 <= j < w.push(l).len() && i != j implies w.push(l)[i]
                    != w.push(l)[j] by {
                    if i < w.len() && j < w.len() {
                    } else if i < w.len() {
                        assert(w.contains(w[i]));
                    } else if j < w.len() {
                        assert(w.contains(w[j]));
                    }
                }
            }
        }
        if !s.contains(x) {
            assert(!t.contains(x)) by {
                lemma_push_contains(t, l, x);
            }
            lemma_push_contains(t, l, x);
        }
    }
}

} // verus!
