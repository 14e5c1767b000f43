//! The workspace registry: the root aggregate that owns every node of a
//! run, keyed by identity, together with the derived parent index.
//!
//! The registry is built once by [`ingest`](WorkspaceContext::ingest) and
//! is read-only afterwards.  Well-formedness ([`WorkspaceContext::wf`])
//! guarantees that parent links mirror the ownership structure and that
//! every parent chain and every subtree is finite, which makes all
//! relationship and extraction queries terminate.

use vstd::prelude::*;
use std::collections::HashMap;
use crate::ast::{AstPayload, Node, NodeBody, NodeId, NodeType, RawNode, SourceSpan};

verus! {

broadcast use vstd::std_specs::hash::group_hash_axioms;

/// Ingestion failure: the raw payload does not describe a single
/// well-formed forest of source-unit trees.
#[derive(Clone, Copy, PartialEq, Eq, Structural, Debug)]
pub struct MalformedAst;

/// The registry.  `nodes` owns every node; `parents` is the derived
/// back-reference relation (absent for source-unit roots); `order` is the
/// registration order, in which every parent precedes its children; `pos`
/// is the ghost inverse of `order`, the termination measure of chain and
/// subtree walks; `units` lists the source-unit roots in payload order.
pub struct WorkspaceContext {
    nodes: HashMap<NodeId, Node>,
    parents: HashMap<NodeId, NodeId>,
    order: Vec<NodeId>,
    pos: Ghost<Map<NodeId, usize>>,
    units: Vec<NodeId>,
}

impl WorkspaceContext {
    /// The identity-to-node mapping this registry owns.
    pub closed spec fn node_map(self) -> Map<NodeId, Node> {
        self.nodes@
    }

    /// The derived child-to-parent relation.
    pub closed spec fn parent_map(self) -> Map<NodeId, NodeId> {
        self.parents@
    }

    /// The source-unit roots, in payload order.
    pub closed spec fn unit_ids(self) -> Seq<NodeId> {
        self.units@
    }

    /// Every registered identity, in registration order (every parent
    /// before its children).
    pub closed spec fn order_seq(self) -> Seq<NodeId> {
        self.order@
    }

    /// Whether `id` is a known identity of this registry.
    pub open spec fn registered(self, id: NodeId) -> bool {
        self.node_map().contains_key(id)
    }

    /// Well-formedness: established by ingestion, preserved forever after
    /// (the registry is immutable once built).
    pub closed spec fn wf(self) -> bool {
        let m = self.nodes@;
        let par = self.parents@;
        let ord = self.order@;
        let pos = self.pos@;
        &&& (forall|id: NodeId| #[trigger] m.contains_key(id) ==> m[id].id == id)
        &&& (forall|id: NodeId| #[trigger] m.contains_key(id) ==> pos.contains_key(id))
        &&& (forall|id: NodeId| #[trigger] pos.contains_key(id) ==> m.contains_key(id))
        &&& (forall|id: NodeId| #[trigger]
            pos.contains_key(id) ==> pos[id] < ord.len() && ord[pos[id] as int] == id)
        &&& (forall|i: int|
            0 <= i < ord.len() ==> pos.contains_key(#[trigger] ord[i]) && pos[ord[i]] == i)
        &&& (forall|id: NodeId, j: int|
            m.contains_key(id) && 0 <= j < m[id].body.spec_children().len() ==> {
                let c = #[trigger] m[id].body.spec_children()[j];
                &&& m.contains_key(c)
                &&& par.contains_key(c)
                &&& par[c] == id
                &&& pos[id] < pos[c]
            })
        &&& (forall|c: NodeId| #[trigger]
            par.contains_key(c) ==> m.contains_key(c) && m.contains_key(par[c])
                && m[par[c]].body.spec_children().contains(c))
        &&& (forall|id: NodeId| #[trigger]
            m.contains_key(id) ==> (!par.contains_key(id) <==> m[id].spec_node_type()
                == NodeType::SourceUnit))
        &&& self.units@.no_duplicates()
        &&& (forall|k: int|
            0 <= k < self.units@.len() ==> m.contains_key(#[trigger] self.units@[k])
                && m[self.units@[k]].spec_node_type() == NodeType::SourceUnit)
        &&& (forall|id: NodeId| #[trigger]
            m.contains_key(id) && m[id].spec_node_type() == NodeType::SourceUnit
                ==> self.units@.contains(id))
        &&& (forall|id: NodeId| #[trigger]
            m.contains_key(id) ==> m[id].body.spec_children().no_duplicates())
    }

    pub closed spec fn measure_of(self, id: NodeId) -> int {
        if self.pos@.contains_key(id) {
            self.pos@[id] as int
        } else {
            0
        }
    }

    /// The ordered ancestor chain of `id`: immediate parent first, then
    /// its parent, up to and including the owning source-unit root.
    /// Empty for unknown identities and for roots themselves.
    pub closed spec fn ancestor_seq(self, id: NodeId) -> Seq<NodeId>
        decreases self.measure_of(id),
            when self.wf()
    {
        if self.parents@.contains_key(id) {
            proof {
                let p = self.parents@[id];
                let cs = self.nodes@[p].body.spec_children();
                assert(cs.contains(id));
                let j = choose|j: int| 0 <= j < cs.len() && cs[j] == id;
                assert(cs[j] == id);
            }
            seq![self.parents@[id]] + self.ancestor_seq(self.parents@[id])
        } else {
            Seq::empty()
        }
    }

    pub closed spec fn descent_measure(self, id: NodeId) -> int {
        self.order@.len() - self.measure_of(id)
    }

    pub closed spec fn child_count(self, id: NodeId) -> int {
        self.nodes@[id].body.spec_children().len() as int
    }

    /// The subtree rooted at `id` in pre-order: `id` itself, then each
    /// child's subtree in declaration order.
    pub closed spec fn subtree_seq(self, id: NodeId) -> Seq<NodeId>
        decreases self.descent_measure(id), 1int, 0int,
            when self.wf() && self.registered(id)
    {
        seq![id] + self.forest_seq(id, 0)
    }

    /// The concatenated subtrees of the children of `id` from index `j`
    /// on, in declaration order.
    pub closed spec fn forest_seq(self, id: NodeId, j: int) -> Seq<NodeId>
        decreases self.descent_measure(id), 0int, self.child_count(id) - j,
            when self.wf() && self.registered(id)
    {
        let cs = self.nodes@[id].body.spec_children();
        if j < 0 || j >= cs.len() {
            Seq::empty()
        } else {
            self.subtree_seq(cs[j]) + self.forest_seq(id, j + 1)
        }
    }

    /// Facts the invariant gives about one registered node.
    pub proof fn lemma_wf_node(self, id: NodeId)
        requires
            self.wf(),
            self.registered(id),
        ensures
            self.node_map()[id].id == id,
            !self.parent_map().contains_key(id) <==> self.node_map()[id].spec_node_type()
                == NodeType::SourceUnit,
            self.node_map()[id].spec_node_type() == NodeType::SourceUnit ==> self.unit_ids()
                .contains(id),
            self.node_map()[id].body.spec_children().no_duplicates(),
    {
    }

    /// Facts the invariant gives about one child reference.
    pub proof fn lemma_wf_child(self, id: NodeId, j: int)
        requires
            self.wf(),
            self.registered(id),
            0 <= j < self.node_map()[id].body.spec_children().len(),
        ensures
            self.registered(self.node_map()[id].body.spec_children()[j]),
            self.parent_map().contains_key(self.node_map()[id].body.spec_children()[j]),
            self.parent_map()[self.node_map()[id].body.spec_children()[j]] == id,
    {
        let c = self.node_map()[id].body.spec_children()[j];
        assert(self.nodes@[id].body.spec_children()[j] == c);
    }

    /// Facts the invariant gives about one parent link.
    pub proof fn lemma_wf_parent(self, c: NodeId)
        requires
            self.wf(),
            self.parent_map().contains_key(c),
        ensures
            self.registered(c),
            self.registered(self.parent_map()[c]),
            self.node_map()[self.parent_map()[c]].body.spec_children().contains(c),
    {
    }

    /// Facts the invariant gives about the source-unit list.
    pub proof fn lemma_wf_units(self, k: int)
        requires
            self.wf(),
            0 <= k < self.unit_ids().len(),
        ensures
            self.registered(self.unit_ids()[k]),
            self.node_map()[self.unit_ids()[k]].spec_node_type() == NodeType::SourceUnit,
            !self.parent_map().contains_key(self.unit_ids()[k]),
    {
    }

    /// Facts the invariant gives about the registration order.
    pub proof fn lemma_wf_order(self)
        requires
            self.wf(),
        ensures
            self.order_seq().no_duplicates(),
            forall|i: int|
                0 <= i < self.order_seq().len() ==> self.registered(#[trigger] self.order_seq()[i]),
            forall|id: NodeId| #[trigger] self.registered(id) ==> self.order_seq().contains(id),
    {
        assert forall|i: int, i2: int|
            0 <= i < self.order@.len() && 0 <= i2 < self.order@.len() && i != i2 implies self.order@[i]
            != self.order@[i2] by {
            assert(self.pos@[self.order@[i]] == i);
            assert(self.pos@[self.order@[i2]] == i2);
        }
        assert forall|id: NodeId| #[trigger] self.registered(id) implies self.order_seq().contains(
            id,
        ) by {
            assert(self.order@[self.pos@[id] as int] == id);
        }
    }

    /// One unfolding step of the ancestor chain.
    pub proof fn lemma_ancestor_unfold(self, id: NodeId)
        requires
            self.wf(),
        ensures
            self.ancestor_seq(id) == if self.parent_map().contains_key(id) {
                seq![self.parent_map()[id]] + self.ancestor_seq(self.parent_map()[id])
            } else {
                Seq::<NodeId>::empty()
            },
    {
    }

    /// One unfolding step of the subtree sequence.
    pub proof fn lemma_subtree_unfold(self, id: NodeId)
        requires
            self.wf(),
            self.registered(id),
        ensures
            self.subtree_seq(id) == seq![id] + self.forest_seq(id, 0),
    {
    }

    /// One unfolding step of a forest sequence.
    pub proof fn lemma_forest_unfold(self, id: NodeId, j: int)
        requires
            self.wf(),
            self.registered(id),
        ensures
            self.forest_seq(id, j) == {
                let cs = self.node_map()[id].body.spec_children();
                if j < 0 || j >= cs.len() {
                    Seq::<NodeId>::empty()
                } else {
                    self.subtree_seq(cs[j]) + self.forest_seq(id, j + 1)
                }
            },
    {
    }

    /// O(1) identity lookup; `None` for unknown (detached) identities.
    pub fn get(&self, id: NodeId) -> (r: Option<&Node>)
        ensures
            match r {
                Some(n) => self.registered(id) && *n == self.node_map()[id],
                None => !self.registered(id),
            },
    {
        self.nodes.get(&id)
    }

    /// Whether `id` is a known identity of this registry.
    pub fn contains(&self, id: NodeId) -> (r: bool)
        ensures
            r == self.registered(id),
    {
        self.nodes.contains_key(&id)
    }

    /// The immediate parent; `None` for source-unit roots and for unknown
    /// identities.
    pub fn parent_of(&self, id: NodeId) -> (r: Option<NodeId>)
        ensures
            r == if self.parent_map().contains_key(id) {
                Some(self.parent_map()[id])
            } else {
                None::<NodeId>
            },
    {
        match self.parents.get(&id) {
            Some(p) => Some(*p),
            None => None,
        }
    }

    /// The source-unit roots, in payload order.
    pub fn source_units(&self) -> (r: &Vec<NodeId>)
        ensures
            r@ == self.unit_ids(),
    {
        &self.units
    }

    /// Every registered identity, in registration order.
    pub fn node_ids(&self) -> (r: &Vec<NodeId>)
        ensures
            r@ == self.order_seq(),
    {
        &self.order
    }
}

/// The identity a raw node claims (meaningful only when present).
pub open spec fn raw_id(n: RawNode) -> NodeId {
    match n.id {
        Some(i) => i,
        None => 0,
    }
}

/// The registered form of a raw node.
pub open spec fn raw_to_node(n: RawNode) -> Node {
    Node { id: raw_id(n), span: n.span, body: n.body }
}

/// Every raw node carries an identity.
pub open spec fn payload_ids_present(p: AstPayload) -> bool {
    forall|i: int| 0 <= i < p.nodes@.len() ==> (#[trigger] p.nodes@[i].id) is Some
}

/// No two raw nodes claim the same identity.
pub open spec fn payload_ids_unique(p: AstPayload) -> bool {
    forall|i: int, k: int|
        0 <= i < k < p.nodes@.len() ==> raw_id(#[trigger] p.nodes@[i]) != raw_id(
            #[trigger] p.nodes@[k],
        )
}

/// The identity-to-node mapping of the first `n` raw nodes.
pub open spec fn prefix_node_map(p: AstPayload, n: int) -> Map<NodeId, Node>
    decreases n,
{
    if n <= 0 {
        Map::empty()
    } else {
        prefix_node_map(p, n - 1).insert(raw_id(p.nodes@[n - 1]), raw_to_node(p.nodes@[n - 1]))
    }
}

/// The identity-to-node mapping the whole payload describes.
pub open spec fn payload_node_map(p: AstPayload) -> Map<NodeId, Node> {
    prefix_node_map(p, p.nodes@.len() as int)
}

/// The source-unit identities among the first `n` raw nodes, in payload
/// order.
pub open spec fn prefix_unit_ids(p: AstPayload, n: int) -> Seq<NodeId>
    decreases n,
{
    if n <= 0 {
        Seq::empty()
    } else {
        prefix_unit_ids(p, n - 1) + if p.nodes@[n - 1].body.spec_node_type()
            == NodeType::SourceUnit {
            seq![raw_id(p.nodes@[n - 1])]
        } else {
            Seq::empty()
        }
    }
}

/// The source-unit identities of the whole payload, in payload order.
pub open spec fn payload_unit_ids(p: AstPayload) -> Seq<NodeId> {
    prefix_unit_ids(p, p.nodes@.len() as int)
}

/// Every child reference resolves to a registered node.
pub open spec fn children_resolve(m: Map<NodeId, Node>) -> bool {
    forall|id: NodeId, j: int|
        m.contains_key(id) && 0 <= j < m[id].body.spec_children().len() ==> m.contains_key(
            #[trigger] m[id].body.spec_children()[j],
        )
}

/// Every node is owned by at most one parent, and owned once by it.
pub open spec fn unique_parentage(m: Map<NodeId, Node>) -> bool {
    &&& (forall|id1: NodeId, id2: NodeId, c: NodeId|
        m.contains_key(id1) && m.contains_key(id2) && #[trigger] m[id1].body.spec_children()
            .contains(c) && #[trigger] m[id2].body.spec_children().contains(c) ==> id1 == id2)
    &&& (forall|id: NodeId| #[trigger]
        m.contains_key(id) ==> m[id].body.spec_children().no_duplicates())
}

/// Whether `c` is owned by some node of `m`.
pub open spec fn is_child(m: Map<NodeId, Node>, c: NodeId) -> bool {
    exists|q: NodeId| m.contains_key(q) && #[trigger] m[q].body.spec_children().contains(c)
}

/// A node has no owner exactly when it is a source-unit root.
pub open spec fn roots_are_units(m: Map<NodeId, Node>) -> bool {
    forall|id: NodeId| #[trigger]
        m.contains_key(id) ==> (!is_child(m, id) <==> m[id].spec_node_type()
            == NodeType::SourceUnit)
}

/// An order of all registered identities in which every owner precedes
/// everything it owns: the witness that the ownership relation is a
/// forest (acyclic and of finite depth).
pub open spec fn valid_order(m: Map<NodeId, Node>, ord: Seq<NodeId>) -> bool {
    &&& ord.no_duplicates()
    &&& (forall|i: int| 0 <= i < ord.len() ==> m.contains_key(#[trigger] ord[i]))
    &&& (forall|id: NodeId| #[trigger] m.contains_key(id) ==> ord.contains(id))
    &&& (forall|a: int, b: int|
        0 <= a < ord.len() && 0 <= b < ord.len() && #[trigger] m[ord[a]].body.spec_children()
            .contains(ord[b]) ==> a < b)
}

/// The ownership relation admits a parent-first order.
pub open spec fn acyclic(m: Map<NodeId, Node>) -> bool {
    exists|ord: Seq<NodeId>| valid_order(m, ord)
}

/// The whole ingestion precondition: what makes a raw payload a single
/// well-formed forest of source-unit trees.
pub open spec fn payload_ok(p: AstPayload) -> bool {
    &&& payload_ids_present(p)
    &&& payload_ids_unique(p)
    &&& children_resolve(payload_node_map(p))
    &&& unique_parentage(payload_node_map(p))
    &&& roots_are_units(payload_node_map(p))
    &&& acyclic(payload_node_map(p))
}

proof fn lemma_prefix_map_domain(p: AstPayload, n: int)
    requires
        0 <= n <= p.nodes@.len(),
    ensures
        forall|id: NodeId|
            #[trigger] prefix_node_map(p, n).contains_key(id) <==> exists|k: int|
                0 <= k < n && raw_id(#[trigger] p.nodes@[k]) == id,
    decreases n,
{
    if n > 0 {
        lemma_prefix_map_domain(p, n - 1);
        assert forall|id: NodeId| #[trigger] prefix_node_map(p, n).contains_key(id) implies exists|
            k: int,
        | 0 <= k < n && raw_id(#[trigger] p.nodes@[k]) == id by {
            if id == raw_id(p.nodes@[n - 1]) {
                assert(raw_id(p.nodes@[n - 1]) == id);
            } else {
                assert(prefix_node_map(p, n - 1).contains_key(id));
            }
        }
        assert forall|id: NodeId|
            (exists|k: int| 0 <= k < n && raw_id(#[trigger] p.nodes@[k]) == id) implies #[trigger]
        prefix_node_map(p, n).contains_key(id) by {
            let k = choose|k: int| 0 <= k < n && raw_id(#[trigger] p.nodes@[k]) == id;
            if k == n - 1 {
                assert(prefix_node_map(p, n).contains_key(raw_id(p.nodes@[n - 1])));
            } else {
                assert(0 <= k < n - 1 && raw_id(p.nodes@[k]) == id);
                assert(exists|k2: int| 0 <= k2 < n - 1 && raw_id(#[trigger] p.nodes@[k2]) == id);
                assert(prefix_node_map(p, n - 1).contains_key(id));
            }
        }
    }
}

proof fn lemma_prefix_map_value(p: AstPayload, n: int, k: int)
    requires
        0 <= k < n <= p.nodes@.len(),
        forall|i: int, k2: int|
            0 <= i < k2 < n ==> raw_id(#[trigger] p.nodes@[i]) != raw_id(#[trigger] p.nodes@[k2]),
    ensures
        prefix_node_map(p, n).contains_key(raw_id(p.nodes@[k])),
        prefix_node_map(p, n)[raw_id(p.nodes@[k])] == raw_to_node(p.nodes@[k]),
    decreases n,
{
    if k == n - 1 {
    } else {
        lemma_prefix_map_value(p, n - 1, k);
        assert(raw_id(p.nodes@[k]) != raw_id(p.nodes@[n - 1]));
    }
}

proof fn lemma_prefix_units(p: AstPayload, n: int)
    requires
        0 <= n <= p.nodes@.len(),
        forall|i: int, k2: int|
            0 <= i < k2 < n ==> raw_id(#[trigger] p.nodes@[i]) != raw_id(#[trigger] p.nodes@[k2]),
    ensures
        prefix_unit_ids(p, n).no_duplicates(),
        forall|x: NodeId|
            #[trigger] prefix_unit_ids(p, n).contains(x) <==> exists|k: int|
                0 <= k < n && raw_id(#[trigger] p.nodes@[k]) == x && p.nodes@[k].body.spec_node_type()
                    == NodeType::SourceUnit,
    decreases n,
{
    if n > 0 {
        lemma_prefix_units(p, n - 1);
        let prev = prefix_unit_ids(p, n - 1);
        let cur = prefix_unit_ids(p, n);
        if p.nodes@[n - 1].body.spec_node_type() == NodeType::SourceUnit {
            assert(cur == prev + seq![raw_id(p.nodes@[n - 1])]);
            assert forall|x: NodeId| #[trigger] cur.contains(x) implies exists|k: int|
                0 <= k < n && raw_id(#[trigger] p.nodes@[k]) == x && p.nodes@[k].body.spec_node_type()
                    == NodeType::SourceUnit by {
                let i = choose|i: int| 0 <= i < cur.len() && cur[i] == x;
                if i < prev.len() {
                    assert(prev.contains(x));
                } else {
                    assert(x == raw_id(p.nodes@[n - 1]));
                    assert(raw_id(p.nodes@[n - 1]) == x && p.nodes@[n - 1].body.spec_node_type()
                        == NodeType::SourceUnit);
                }
            }
            assert forall|x: NodeId|
                (exists|k: int|
                    0 <= k < n && raw_id(#[trigger] p.nodes@[k]) == x
                        && p.nodes@[k].body.spec_node_type() == NodeType::SourceUnit) implies #[trigger]
            cur.contains(x) by {
                let k = choose|k: int|
                    0 <= k < n && raw_id(#[trigger] p.nodes@[k]) == x
                        && p.nodes@[k].body.spec_node_type() == NodeType::SourceUnit;
                if k == n - 1 {
                    assert(cur[cur.len() - 1] == x);
                } else {
                    assert(prev.contains(x));
                    let i = choose|i: int| 0 <= i < prev.len() && prev[i] == x;
                    assert(cur[i] == x);
                }
            }
            // the appended identity is fresh, so no duplicates arise
            assert forall|i: int, j: int| 0 <= i < j < cur.len() implies cur[i] != cur[j] by {
                if j < prev.len() {
                } else {
                    assert(cur[j] == raw_id(p.nodes@[n - 1]));
                    assert(prev.contains(cur[i]));
                    if cur[i] == cur[j] {
                        let k = choose|k: int|
                            0 <= k < n - 1 && raw_id(#[trigger] p.nodes@[k]) == cur[i]
                                && p.nodes@[k].body.spec_node_type() == NodeType::SourceUnit;
                        assert(raw_id(p.nodes@[k]) != raw_id(p.nodes@[n - 1]));
                    }
                }
            }
        } else {
            assert(cur =~= prev);
            assert forall|x: NodeId|
                (exists|k: int|
                    0 <= k < n && raw_id(#[trigger] p.nodes@[k]) == x
                        && p.nodes@[k].body.spec_node_type() == NodeType::SourceUnit) implies #[trigger]
            cur.contains(x) by {
                let k = choose|k: int|
                    0 <= k < n && raw_id(#[trigger] p.nodes@[k]) == x
                        && p.nodes@[k].body.spec_node_type() == NodeType::SourceUnit;
                assert(0 <= k < n - 1);
            }
        }
    }
}

/// Registers every raw node by identity: the single ingestion traversal's
/// first phase.  Also records the payload identity list and the
/// source-unit roots in payload order.
#[verifier::loop_isolation(false)]
#[verifier::rlimit(30)]
fn build_node_map(payload: AstPayload) -> (r: Result<
    (HashMap<NodeId, Node>, Vec<NodeId>, Vec<NodeId>),
    MalformedAst,
>)
    ensures
        match r {
            Ok(t) => {
                &&& payload_ids_present(payload)
                &&& payload_ids_unique(payload)
                &&& t.0@ == payload_node_map(payload)
                &&& t.1@.len() == payload.nodes@.len()
                &&& (forall|k: int|
                    0 <= k < t.1@.len() ==> t.1@[k] == raw_id(#[trigger] payload.nodes@[k]))
                &&& t.2@ == payload_unit_ids(payload)
            },
            Err(_) => !(payload_ids_present(payload) && payload_ids_unique(payload)),
        },
{
    let ghost p = payload;
    let mut working = payload.nodes;
    let total: usize = working.len();
    let mut nodes: HashMap<NodeId, Node> = HashMap::new();
    let mut all_ids: Vec<NodeId> = Vec::new();
    let mut units: Vec<NodeId> = Vec::new();
    let mut i: usize = 0;
    proof {
        assert(working@ =~= p.nodes@.skip(0));
    }
    while working.len() > 0
        invariant
            0 <= i <= p.nodes@.len(),
            working@ == p.nodes@.skip(i as int),
            i + working@.len() == p.nodes@.len(),
            total == p.nodes@.len(),
            i <= total,
            forall|k: int| 0 <= k < i ==> (#[trigger] p.nodes@[k].id) is Some,
            forall|a: int, b: int|
                0 <= a < b < i ==> raw_id(#[trigger] p.nodes@[a]) != raw_id(#[trigger] p.nodes@[b]),
            nodes@ == prefix_node_map(p, i as int),
            all_ids@.len() == i,
            forall|k: int| 0 <= k < i ==> all_ids@[k] == raw_id(#[trigger] p.nodes@[k]),
            units@ == prefix_unit_ids(p, i as int),
        decreases working@.len(),
    {
        let rn = working.remove(0);
        proof {
            assert(rn == p.nodes@[i as int]);
            assert(working@ =~= p.nodes@.skip(i as int + 1));
        }
        let id = match rn.id {
            Some(id) => id,
            None => {
                proof {
                    assert((p.nodes@[i as int].id) is None);
                    assert(!payload_ids_present(p));
                }
                return Err(MalformedAst);
            },
        };
        if nodes.contains_key(&id) {
            proof {
                lemma_prefix_map_domain(p, i as int);
                let k = choose|k: int| 0 <= k < i && raw_id(#[trigger] p.nodes@[k]) == id;
                assert(raw_id(p.nodes@[k]) == raw_id(p.nodes@[i as int]));
                assert(0 <= k && k < i as int && (i as int) < p.nodes@.len());
                assert(!payload_ids_unique(p));
            }
            return Err(MalformedAst);
        }
        if rn.body.node_type() == NodeType::SourceUnit {
            units.push(id);
        }
        all_ids.push(id);
        let node = Node { id, span: rn.span, body: rn.body };
        proof {
            assert(node == raw_to_node(p.nodes@[i as int]));
            lemma_prefix_map_domain(p, i as int);
        }
        nodes.insert(id, node);
        i = i + 1;
        proof {
            assert(nodes@ =~= prefix_node_map(p, i as int));
            assert(units@ =~= prefix_unit_ids(p, i as int));
            assert forall|a: int, b: int| 0 <= a < b < i implies raw_id(#[trigger] p.nodes@[a])
                != raw_id(#[trigger] p.nodes@[b]) by {
                if b == i - 1 {
                    assert((exists|k: int|
                        0 <= k < i - 1 && raw_id(#[trigger] p.nodes@[k]) == raw_id(
                            p.nodes@[b],
                        )) ==> prefix_node_map(p, i - 1).contains_key(raw_id(p.nodes@[b])));
                }
            }
        }
    }
    proof {
        assert(i == p.nodes@.len());
    }
    Ok((nodes, all_ids, units))
}

/// Whether the pair `(a, b)` lies strictly before the scan point `(i, j)`
/// in the row-major traversal of children lists.
spec fn pair_before(a: int, b: int, i: int, j: int) -> bool {
    a < i || (a == i && b < j)
}

/// Records each node's parent: the single ingestion traversal's second
/// phase.  Fails when a child reference dangles or a node is owned twice.
#[verifier::loop_isolation(false)]
#[verifier::rlimit(60)]
fn build_parents(nodes: &HashMap<NodeId, Node>, all_ids: &Vec<NodeId>) -> (r: Result<
    HashMap<NodeId, NodeId>,
    MalformedAst,
>)
    requires
        forall|k: int| 0 <= k < all_ids@.len() ==> nodes@.contains_key(#[trigger] all_ids@[k]),
        forall|id: NodeId| #[trigger] nodes@.contains_key(id) ==> all_ids@.contains(id),
        all_ids@.no_duplicates(),
    ensures
        match r {
            Ok(par) => {
                &&& children_resolve(nodes@)
                &&& unique_parentage(nodes@)
                &&& (forall|c: NodeId| #[trigger] par@.contains_key(c) <==> is_child(nodes@, c))
                &&& (forall|c: NodeId| #[trigger]
                    par@.contains_key(c) ==> nodes@.contains_key(par@[c])
                        && nodes@[par@[c]].body.spec_children().contains(c))
            },
            Err(_) => !(children_resolve(nodes@) && unique_parentage(nodes@)),
        },
{
    let n = all_ids.len();
    let mut parents: HashMap<NodeId, NodeId> = HashMap::new();
    let mut i: usize = 0;
    while i < n
        invariant
            0 <= i <= n,
            forall|c: NodeId| #[trigger]
                parents@.contains_key(c) <==> exists|a: int, b: int|
                    pair_before(a, b, i as int, 0) && 0 <= a < n && 0 <= b
                        < nodes@[all_ids@[a]].body.spec_children().len() && #[trigger] nodes@[(
                        #[trigger] all_ids@[a]
                    )].body.spec_children()[b] == c,
            forall|a: int, b: int|
                pair_before(a, b, i as int, 0) && 0 <= a < n && 0 <= b
                    < nodes@[all_ids@[a]].body.spec_children().len() ==> {
                    let c = #[trigger] nodes@[(#[trigger] all_ids@[a])].body.spec_children()[b];
                    &&& nodes@.contains_key(c)
                    &&& parents@[c] == all_ids@[a]
                },
            forall|a: int, b: int, a2: int, b2: int|
                pair_before(a, b, i as int, 0) && 0 <= a < n && 0 <= b
                    < nodes@[all_ids@[a]].body.spec_children().len() && pair_before(
                    a2,
                    b2,
                    i as int,
                    0,
                ) && 0 <= a2 < n && 0 <= b2 < nodes@[all_ids@[a2]].body.spec_children().len() && (a
                    != a2 || b != b2) ==> #[trigger] nodes@[(
                #[trigger] all_ids@[a]
                )].body.spec_children()[b] != #[trigger] nodes@[(
                #[trigger] all_ids@[a2]
                )].body.spec_children()[b2],
        decreases n - i,
    {
        let id = all_ids[i];
        let cs = match nodes.get(&id) {
            Some(node) => node.body.children(),
            None => {
                proof {
                    assert(false);
                }
                Vec::new()
            },
        };
        let m = cs.len();
        let ghost csspec = nodes@[id].body.spec_children();
        let mut j: usize = 0;
        while j < m
            invariant
                0 <= j <= m,
                forall|c: NodeId| #[trigger]
                    parents@.contains_key(c) <==> exists|a: int, b: int|
                        pair_before(a, b, i as int, j as int) && 0 <= a < n && 0 <= b
                            < nodes@[all_ids@[a]].body.spec_children().len() && #[trigger] nodes@[(
                            #[trigger] all_ids@[a]
                        )].body.spec_children()[b] == c,
                forall|a: int, b: int|
                    pair_before(a, b, i as int, j as int) && 0 <= a < n && 0 <= b
                        < nodes@[all_ids@[a]].body.spec_children().len() ==> {
                        let c = #[trigger] nodes@[(#[trigger] all_ids@[a])].body.spec_children()[b];
                        &&& nodes@.contains_key(c)
                        &&& parents@[c] == all_ids@[a]
                    },
                forall|a: int, b: int, a2: int, b2: int|
                    pair_before(a, b, i as int, j as int) && 0 <= a < n && 0 <= b
                        < nodes@[all_ids@[a]].body.spec_children().len() && pair_before(
                        a2,
                        b2,
                        i as int,
                        j as int,
                    ) && 0 <= a2 < n && 0 <= b2 < nodes@[all_ids@[a2]].body.spec_children().len()
                        && (a != a2 || b != b2) ==> #[trigger] nodes@[(
                    #[trigger] all_ids@[a]
                    )].body.spec_children()[b] != #[trigger] nodes@[(
                    #[trigger] all_ids@[a2]
                    )].body.spec_children()[b2],
            decreases m - j,
        {
            let c = cs[j];
            proof {
                assert(csspec[j as int] == c);
            }
            if !nodes.contains_key(&c) {
                proof {
                    assert(!children_resolve(nodes@));
                }
                return Err(MalformedAst);
            }
            if parents.contains_key(&c) {
                proof {
                    let (a, b) = choose|a: int, b: int|
                        pair_before(a, b, i as int, j as int) && 0 <= a < n && 0 <= b
                            < nodes@[all_ids@[a]].body.spec_children().len() && #[trigger] nodes@[(
                            #[trigger] all_ids@[a]
                        )].body.spec_children()[b] == c;
                    let ia = all_ids@[a];
                    let iid = all_ids@[i as int];
                    assert(nodes@[ia].body.spec_children().contains(c));
                    assert(nodes@[iid].body.spec_children().contains(c));
                    if ia == iid {
                        // the same parent owns `c` twice
                        assert(a == i as int) by {
                            if a != i as int {
                                assert(all_ids@[a] != all_ids@[i as int]);
                            }
                        }
                        assert(!nodes@[iid].body.spec_children().no_duplicates());
                        assert(!unique_parentage(nodes@));
                    } else {
                        // two distinct parents own `c`
                        assert(!unique_parentage(nodes@));
                    }
                }
                return Err(MalformedAst);
            }
            parents.insert(c, id);
            j = j + 1;
            proof {
                assert forall|c2: NodeId| #[trigger] parents@.contains_key(c2) implies exists|
                    a: int,
                    b: int,
                |
                    pair_before(a, b, i as int, j as int) && 0 <= a < n && 0 <= b
                        < nodes@[all_ids@[a]].body.spec_children().len() && #[trigger] nodes@[(
                        #[trigger] all_ids@[a]
                    )].body.spec_children()[b] == c2 by {
                    if c2 == c {
                        assert(pair_before(i as int, j - 1, i as int, j as int));
                        assert(0 <= i as int && (i as int) < n);
                        assert(0 <= j - 1 && j - 1 < nodes@[all_ids@[i as int]].body.spec_children().len());
                        assert(nodes@[all_ids@[i as int]].body.spec_children()[j - 1] == c2);
                    }
                }
            }
        }
        i = i + 1;
    }
    proof {
        assert forall|id: NodeId, jx: int|
            nodes@.contains_key(id) && 0 <= jx < nodes@[id].body.spec_children().len() implies nodes@.contains_key(
            #[trigger] nodes@[id].body.spec_children()[jx],
        ) by {
            let a = choose|a: int| 0 <= a < all_ids@.len() && all_ids@[a] == id;
            assert(nodes@[all_ids@[a]].body.spec_children()[jx] == nodes@[id].body.spec_children()[jx]);
        }
        assert forall|id1: NodeId, id2: NodeId, c: NodeId|
            nodes@.contains_key(id1) && nodes@.contains_key(id2) && #[trigger] nodes@[id1].body.spec_children().contains(
            c,
        ) && #[trigger] nodes@[id2].body.spec_children().contains(c) implies id1 == id2 by {
            let a1 = choose|a: int| 0 <= a < all_ids@.len() && all_ids@[a] == id1;
            let a2 = choose|a: int| 0 <= a < all_ids@.len() && all_ids@[a] == id2;
            let b1 = choose|b: int|
                0 <= b < nodes@[id1].body.spec_children().len() && nodes@[id1].body.spec_children()[b]
                    == c;
            let b2 = choose|b: int|
                0 <= b < nodes@[id2].body.spec_children().len() && nodes@[id2].body.spec_children()[b]
                    == c;
            if id1 != id2 {
                assert(a1 != a2);
                assert(nodes@[all_ids@[a1]].body.spec_children()[b1] == c);
                assert(nodes@[all_ids@[a2]].body.spec_children()[b2] == c);
            }
        }
        assert forall|id: NodeId| #[trigger] nodes@.contains_key(id) implies nodes@[id].body.spec_children().no_duplicates() by {
            let a = choose|a: int| 0 <= a < all_ids@.len() && all_ids@[a] == id;
            let cs = nodes@[id].body.spec_children();
            assert forall|b1: int, b2: int| 0 <= b1 < b2 < cs.len() implies cs[b1] != cs[b2] by {
                assert(nodes@[all_ids@[a]].body.spec_children()[b1] == cs[b1]);
                assert(nodes@[all_ids@[a]].body.spec_children()[b2] == cs[b2]);
            }
        }
        assert forall|c: NodeId| #[trigger] parents@.contains_key(c) implies is_child(nodes@, c) by {
            let (a, b) = choose|a: int, b: int|
                pair_before(a, b, all_ids@.len() as int, 0) && 0 <= a < all_ids@.len() && 0 <= b
                    < nodes@[all_ids@[a]].body.spec_children().len() && #[trigger] nodes@[(
                    #[trigger] all_ids@[a]
                )].body.spec_children()[b] == c;
            assert(nodes@.contains_key(all_ids@[a]) && nodes@[all_ids@[a]].body.spec_children()
                .contains(c));
        }
        assert forall|c: NodeId| is_child(nodes@, c) implies #[trigger] parents@.contains_key(c) by {
            let q = choose|q: NodeId|
                nodes@.contains_key(q) && #[trigger] nodes@[q].body.spec_children().contains(c);
            let a = choose|a: int| 0 <= a < all_ids@.len() && all_ids@[a] == q;
            let b = choose|b: int|
                0 <= b < nodes@[q].body.spec_children().len() && nodes@[q].body.spec_children()[b]
                    == c;
            assert(nodes@[all_ids@[a]].body.spec_children()[b] == c);
            assert(pair_before(a, b, all_ids@.len() as int, 0) && 0 <= a < all_ids@.len() && 0 <= b
                < nodes@[all_ids@[a]].body.spec_children().len() && nodes@[all_ids@[a]].body.spec_children()[b]
                == c);
        }
        assert forall|c: NodeId| #[trigger] parents@.contains_key(c) implies nodes@.contains_key(
            parents@[c],
        ) && nodes@[parents@[c]].body.spec_children().contains(c) by {
            let (a, b) = choose|a: int, b: int|
                pair_before(a, b, all_ids@.len() as int, 0) && 0 <= a < all_ids@.len() && 0 <= b
                    < nodes@[all_ids@[a]].body.spec_children().len() && #[trigger] nodes@[(
                    #[trigger] all_ids@[a]
                )].body.spec_children()[b] == c;
            assert(parents@[c] == all_ids@[a]);
            assert(nodes@[all_ids@[a]].body.spec_children().contains(c));
        }
    }
    Ok(parents)
}

/// A sequence of distinct identities drawn from a larger pool of distinct
/// identities, missing at least one member, is strictly shorter.
proof fn lemma_placed_bound(ord: Seq<NodeId>, ids: Seq<NodeId>, id: NodeId)
    requires
        ord.no_duplicates(),
        ids.no_duplicates(),
        forall|x: NodeId| #[trigger] ord.contains(x) ==> ids.contains(x),
        ids.contains(id),
        !ord.contains(id),
    ensures
        ord.len() < ids.len(),
{
    broadcast use vstd::seq_lib::seq_to_set_is_finite;
    broadcast use vstd::set::group_set_axioms;

    ord.unique_seq_to_set();
    ids.unique_seq_to_set();
    assert forall|x: NodeId| ord.to_set().insert(id).contains(x) implies ids.to_set().contains(
        x,
    ) by {
        if x != id {
            assert(ord.contains(x));
        }
    }
    assert(ord.to_set().insert(id).subset_of(ids.to_set()));
    vstd::set_lib::lemma_len_subset(ord.to_set().insert(id), ids.to_set());
    assert(ord.to_set().insert(id).len() == ord.to_set().len() + 1);
}

/// If a pass placed nothing although a parent-first order exists, then
/// everything was already placed: each element of the order is placed, by
/// strong induction on its index.
#[verifier::rlimit(100)]
#[verifier::spinoff_prover]
proof fn lemma_stall_placed(
    m: Map<NodeId, Node>,
    par: Map<NodeId, NodeId>,
    placed: Map<NodeId, usize>,
    ord: Seq<NodeId>,
    k: int,
)
    requires
        valid_order(m, ord),
        forall|c: NodeId| #[trigger]
            par.contains_key(c) ==> m.contains_key(par[c]) && m[par[c]].body.spec_children()
                .contains(c),
        forall|q: NodeId, c: NodeId|
            m.contains_key(q) && #[trigger] m[q].body.spec_children().contains(c)
                ==> par.contains_key(c),
        forall|id: NodeId|
            m.contains_key(id) && !(#[trigger] placed.contains_key(id)) ==> par.contains_key(id)
                && !placed.contains_key(par[id]),
        0 <= k < ord.len(),
    ensures
        placed.contains_key(ord[k]),
    decreases k,
{
    if !placed.contains_key(ord[k]) {
        let id = ord[k];
        assert(m.contains_key(id));
        let p = par[id];
        assert(m[p].body.spec_children().contains(id));
        assert(ord.contains(p));
        let a = choose|a: int| 0 <= a < ord.len() && ord[a] == p;
        assert(m[ord[a]].body.spec_children().contains(ord[k]));
        assert(a < k);
        lemma_stall_placed(m, par, placed, ord, a);
        assert(false);
    }
}

/// Assigns every node a registration position in which each parent comes
/// before its children: the single ingestion traversal's third phase.
/// Fails exactly when the ownership relation admits no such order.
#[verifier::loop_isolation(false)]
#[verifier::rlimit(100)]
fn build_order(
    nodes: &HashMap<NodeId, Node>,
    parents: &HashMap<NodeId, NodeId>,
    all_ids: &Vec<NodeId>,
) -> (r: Result<(Vec<NodeId>, HashMap<NodeId, usize>), MalformedAst>)
    requires
        forall|k: int| 0 <= k < all_ids@.len() ==> nodes@.contains_key(#[trigger] all_ids@[k]),
        forall|id: NodeId| #[trigger] nodes@.contains_key(id) ==> all_ids@.contains(id),
        all_ids@.no_duplicates(),
        forall|c: NodeId| #[trigger] parents@.contains_key(c) <==> is_child(nodes@, c),
        forall|c: NodeId| #[trigger]
            parents@.contains_key(c) ==> nodes@.contains_key(parents@[c])
                && nodes@[parents@[c]].body.spec_children().contains(c),
        children_resolve(nodes@),
        unique_parentage(nodes@),
    ensures
        match r {
            Ok(t) => {
                &&& valid_order(nodes@, t.0@)
                &&& (forall|id: NodeId|
                    #[trigger] t.1@.contains_key(id) <==> nodes@.contains_key(id))
                &&& (forall|id: NodeId| #[trigger]
                    t.1@.contains_key(id) ==> t.1@[id] < t.0@.len() && t.0@[t.1@[id] as int] == id)
                &&& (forall|i: int|
                    0 <= i < t.0@.len() ==> t.1@.contains_key(#[trigger] t.0@[i]) && t.1@[t.0@[i]]
                        == i)
                &&& (forall|c: NodeId| #[trigger]
                    parents@.contains_key(c) ==> t.1@[parents@[c]] < t.1@[c])
            },
            Err(_) => !acyclic(nodes@),
        },
{
    let n = all_ids.len();
    let mut order: Vec<NodeId> = Vec::new();
    let mut position: HashMap<NodeId, usize> = HashMap::new();
    let mut stalled = false;
    while !stalled && order.len() < n
        invariant
            order@.len() <= n,
            forall|id: NodeId| #[trigger] position@.contains_key(id) ==> nodes@.contains_key(id),
            forall|id: NodeId| #[trigger]
                position@.contains_key(id) ==> position@[id] < order@.len()
                    && order@[position@[id] as int] == id,
            forall|i: int|
                0 <= i < order@.len() ==> position@.contains_key(#[trigger] order@[i])
                    && position@[order@[i]] == i,
            forall|c: NodeId|
                #[trigger] position@.contains_key(c) && parents@.contains_key(c)
                    ==> position@.contains_key(parents@[c]) && position@[parents@[c]]
                    < position@[c],
            stalled ==> forall|id: NodeId|
                nodes@.contains_key(id) && !(#[trigger] position@.contains_key(id))
                    ==> parents@.contains_key(id) && !position@.contains_key(parents@[id]),
        decreases n - order@.len(), (if stalled { 0int } else { 1int }),
    {
        let before = order.len();
        let ghost pos0 = position@;
        let mut i: usize = 0;
        while i < n
            invariant
                0 <= i <= n,
                before <= order@.len() <= n,
                forall|id: NodeId| #[trigger]
                    position@.contains_key(id) ==> nodes@.contains_key(id),
                forall|id: NodeId| #[trigger]
                    position@.contains_key(id) ==> position@[id] < order@.len()
                        && order@[position@[id] as int] == id,
                forall|i2: int|
                    0 <= i2 < order@.len() ==> position@.contains_key(#[trigger] order@[i2])
                        && position@[order@[i2]] == i2,
                forall|c: NodeId|
                    #[trigger] position@.contains_key(c) && parents@.contains_key(c)
                        ==> position@.contains_key(parents@[c]) && position@[parents@[c]]
                        < position@[c],
                order@.len() == before ==> position@ == pos0,
                order@.len() == before ==> forall|k: int|
                    0 <= k < i ==> pos0.contains_key(#[trigger] all_ids@[k]) || (
                    parents@.contains_key(all_ids@[k]) && !pos0.contains_key(
                        parents@[all_ids@[k]],
                    )),
            decreases n - i,
        {
            let id = all_ids[i];
            if !position.contains_key(&id) {
                let placeable = match parents.get(&id) {
                    None => true,
                    Some(q) => position.contains_key(q),
                };
                if placeable {
                    proof {
                        assert(!order@.contains(id)) by {
                            if order@.contains(id) {
                                let k = choose|k: int|
                                    0 <= k < order@.len() && order@[k] == id;
                                assert(position@.contains_key(order@[k]));
                            }
                        }
                        assert forall|i2: int, j2: int|
                            0 <= i2 < order@.len() && 0 <= j2 < order@.len() && i2 != j2 implies
                        order@[i2] != order@[j2] by {
                            assert(position@[order@[i2]] == i2);
                            assert(position@[order@[j2]] == j2);
                        }
                        lemma_placed_bound(order@, all_ids@, id);
                    }
                    position.insert(id, order.len());
                    order.push(id);
                }
            }
            i = i + 1;
        }
        if order.len() == before {
            stalled = true;
            proof {
                assert forall|id: NodeId|
                    nodes@.contains_key(id) && !(#[trigger] position@.contains_key(id)) implies
                parents@.contains_key(id) && !position@.contains_key(parents@[id]) by {
                    assert(all_ids@.contains(id));
                    let k = choose|k: int| 0 <= k < all_ids@.len() && all_ids@[k] == id;
                    assert(pos0.contains_key(all_ids@[k]) || (parents@.contains_key(all_ids@[k])
                        && !pos0.contains_key(parents@[all_ids@[k]])));
                }
            }
        }
    }
    if order.len() < n {
        // a pass placed nothing while nodes remain: the ownership
        // relation has a cycle, so no parent-first order exists
        proof {
            assert forall|q: NodeId, c: NodeId|
                nodes@.contains_key(q) && #[trigger] nodes@[q].body.spec_children().contains(
                    c,
                ) implies parents@.contains_key(c) by {
                assert(is_child(nodes@, c));
            }
            lemma_stalled_not_acyclic(nodes@, parents@, order@, position@, all_ids@);
        }
        return Err(MalformedAst);
    }
    proof {
        lemma_complete_order(nodes@, parents@, order@, position@, all_ids@);
    }
    Ok((order, position))
}

/// The invariants of the placement loop, shared by the two terminal
/// arguments below.
spec fn placement_inv(
    nodes: Map<NodeId, Node>,
    parents: Map<NodeId, NodeId>,
    order: Seq<NodeId>,
    position: Map<NodeId, usize>,
    all_ids: Seq<NodeId>,
) -> bool {
    &&& (forall|k: int| 0 <= k < all_ids.len() ==> nodes.contains_key(#[trigger] all_ids[k]))
    &&& (forall|id: NodeId| #[trigger] nodes.contains_key(id) ==> all_ids.contains(id))
    &&& all_ids.no_duplicates()
    &&& (forall|c: NodeId| #[trigger] parents.contains_key(c) <==> is_child(nodes, c))
    &&& (forall|c: NodeId| #[trigger]
        parents.contains_key(c) ==> nodes.contains_key(parents[c])
            && nodes[parents[c]].body.spec_children().contains(c))
    &&& children_resolve(nodes)
    &&& unique_parentage(nodes)
    &&& (forall|id: NodeId| #[trigger] position.contains_key(id) ==> nodes.contains_key(id))
    &&& (forall|id: NodeId| #[trigger]
        position.contains_key(id) ==> position[id] < order.len() && order[position[id] as int]
            == id)
    &&& (forall|i: int|
        0 <= i < order.len() ==> position.contains_key(#[trigger] order[i]) && position[order[i]]
            == i)
    &&& (forall|c: NodeId|
        #[trigger] position.contains_key(c) && parents.contains_key(c) ==> position.contains_key(
            parents[c],
        ) && position[parents[c]] < position[c])
}

#[verifier::rlimit(100)]
#[verifier::spinoff_prover]
proof fn lemma_order_no_duplicates(order: Seq<NodeId>, position: Map<NodeId, usize>)
    requires
        forall|i: int|
            0 <= i < order.len() ==> position.contains_key(#[trigger] order[i])
                && position[order[i]] == i,
    ensures
        order.no_duplicates(),
{
    assert forall|i2: int, j2: int|
        0 <= i2 < order.len() && 0 <= j2 < order.len() && i2 != j2 implies order[i2]
        != order[j2] by {
        assert(position[order[i2]] == i2);
        assert(position[order[j2]] == j2);
    }
}

/// A stalled pass with nodes left over refutes every candidate order.
#[verifier::rlimit(100)]
#[verifier::spinoff_prover]
proof fn lemma_stalled_not_acyclic(
    nodes: Map<NodeId, Node>,
    parents: Map<NodeId, NodeId>,
    order: Seq<NodeId>,
    position: Map<NodeId, usize>,
    all_ids: Seq<NodeId>,
)
    requires
        forall|k: int| 0 <= k < all_ids.len() ==> nodes.contains_key(#[trigger] all_ids[k]),
        forall|id: NodeId| #[trigger] nodes.contains_key(id) ==> all_ids.contains(id),
        all_ids.no_duplicates(),
        forall|c: NodeId| #[trigger]
            parents.contains_key(c) ==> nodes.contains_key(parents[c])
                && nodes[parents[c]].body.spec_children().contains(c),
        forall|q: NodeId, c: NodeId|
            nodes.contains_key(q) && #[trigger] nodes[q].body.spec_children().contains(c)
                ==> parents.contains_key(c),
        forall|id: NodeId| #[trigger]
            position.contains_key(id) ==> position[id] < order.len() && order[position[id] as int]
                == id,
        forall|i: int|
            0 <= i < order.len() ==> position.contains_key(#[trigger] order[i])
                && position[order[i]] == i,
        order.len() < all_ids.len(),
        forall|id: NodeId|
            nodes.contains_key(id) && !(#[trigger] position.contains_key(id))
                ==> parents.contains_key(id) && !position.contains_key(parents[id]),
    ensures
        !acyclic(nodes),
{
    lemma_order_no_duplicates(order, position);
    lemma_some_unplaced(nodes, order, position, all_ids);
    let missing = choose|id: NodeId| nodes.contains_key(id) && !position.contains_key(id);
    lemma_unplaced_refutes_order(nodes, parents, position, missing);
}

/// One reachable-but-unplaced identity after a stalled pass refutes every
/// candidate parent-first order.
#[verifier::rlimit(100)]
#[verifier::spinoff_prover]
proof fn lemma_unplaced_refutes_order(
    nodes: Map<NodeId, Node>,
    parents: Map<NodeId, NodeId>,
    position: Map<NodeId, usize>,
    missing: NodeId,
)
    requires
        nodes.contains_key(missing),
        !position.contains_key(missing),
        forall|c: NodeId| #[trigger]
            parents.contains_key(c) ==> nodes.contains_key(parents[c])
                && nodes[parents[c]].body.spec_children().contains(c),
        forall|q: NodeId, c: NodeId|
            nodes.contains_key(q) && #[trigger] nodes[q].body.spec_children().contains(c)
                ==> parents.contains_key(c),
        forall|id: NodeId|
            nodes.contains_key(id) && !(#[trigger] position.contains_key(id))
                ==> parents.contains_key(id) && !position.contains_key(parents[id]),
    ensures
        !acyclic(nodes),
{
    if acyclic(nodes) {
        let ord = choose|ord: Seq<NodeId>| valid_order(nodes, ord);
        assert(ord.contains(missing));
        let k = choose|k: int| 0 <= k < ord.len() && ord[k] == missing;
        lemma_stall_placed(nodes, parents, position, ord, k);
        assert(false);
    }
}

/// A placement shorter than the pool leaves some identity unplaced.
#[verifier::rlimit(100)]
#[verifier::spinoff_prover]
proof fn lemma_some_unplaced(
    nodes: Map<NodeId, Node>,
    order: Seq<NodeId>,
    position: Map<NodeId, usize>,
    all_ids: Seq<NodeId>,
)
    requires
        forall|k: int| 0 <= k < all_ids.len() ==> nodes.contains_key(#[trigger] all_ids[k]),
        forall|id: NodeId| #[trigger] nodes.contains_key(id) ==> all_ids.contains(id),
        all_ids.no_duplicates(),
        order.no_duplicates(),
        forall|id: NodeId| #[trigger]
            position.contains_key(id) ==> position[id] < order.len() && order[position[id] as int]
                == id,
        forall|i: int|
            0 <= i < order.len() ==> position.contains_key(#[trigger] order[i])
                && position[order[i]] == i,
        order.len() < all_ids.len(),
    ensures
        exists|id: NodeId| nodes.contains_key(id) && !position.contains_key(id),
{
    if forall|id: NodeId| #[trigger] nodes.contains_key(id) ==> position.contains_key(id) {
        // then every identity of the pool is placed, which the count
        // forbids
        broadcast use vstd::seq_lib::seq_to_set_is_finite;
        broadcast use vstd::set::group_set_axioms;

        order.unique_seq_to_set();
        all_ids.unique_seq_to_set();
        assert forall|x: NodeId| all_ids.to_set().contains(x) implies order.to_set().contains(
            x,
        ) by {
            assert(all_ids.contains(x));
            assert(nodes.contains_key(x));
            assert(position.contains_key(x));
            assert(order[position[x] as int] == x);
            assert(order.contains(x));
        }
        vstd::set_lib::lemma_len_subset(all_ids.to_set(), order.to_set());
        assert(false);
    }
}

/// A full placement is a parent-first order of the whole pool.
#[verifier::rlimit(100)]
#[verifier::spinoff_prover]
proof fn lemma_complete_order(
    nodes: Map<NodeId, Node>,
    parents: Map<NodeId, NodeId>,
    order: Seq<NodeId>,
    position: Map<NodeId, usize>,
    all_ids: Seq<NodeId>,
)
    requires
        placement_inv(nodes, parents, order, position, all_ids),
        order.len() == all_ids.len(),
    ensures
        valid_order(nodes, order),
        forall|id: NodeId| #[trigger] position.contains_key(id) <==> nodes.contains_key(id),
        forall|c: NodeId| #[trigger] parents.contains_key(c) ==> position[parents[c]] < position[c],
{
    lemma_order_no_duplicates(order, position);
    assert forall|id: NodeId| #[trigger] nodes.contains_key(id) implies position.contains_key(
        id,
    ) by {
        if !position.contains_key(id) {
            assert(!order.contains(id)) by {
                if order.contains(id) {
                    let k = choose|k: int| 0 <= k < order.len() && order[k] == id;
                    assert(position.contains_key(order[k]));
                }
            }
            lemma_placed_bound(order, all_ids, id);
        }
    }
    assert forall|a: int, b: int|
        0 <= a < order.len() && 0 <= b < order.len()
            && #[trigger] nodes[order[a]].body.spec_children().contains(order[b]) implies a < b by {
        assert(nodes.contains_key(order[a]));
        assert(is_child(nodes, order[b]));
        assert(parents.contains_key(order[b]));
        let q = parents[order[b]];
        assert(nodes[q].body.spec_children().contains(order[b]));
        assert(q == order[a]);
        assert(position[order[a]] < position[order[b]]);
    }
    assert forall|c: NodeId| #[trigger] parents.contains_key(c) implies position[parents[c]]
        < position[c] by {
        assert(is_child(nodes, c));
        let q = choose|q: NodeId|
            nodes.contains_key(q) && #[trigger] nodes[q].body.spec_children().contains(c);
        let b = choose|b: int|
            0 <= b < nodes[q].body.spec_children().len() && nodes[q].body.spec_children()[b] == c;
        assert(nodes.contains_key(nodes[q].body.spec_children()[b]));
        assert(position.contains_key(c));
    }
    assert forall|id: NodeId| #[trigger] nodes.contains_key(id) implies order.contains(id) by {
        assert(order[position[id] as int] == id);
    }
}


/// Checks that ownerless nodes are exactly the source-unit roots: the
/// single ingestion traversal's last phase.
#[verifier::loop_isolation(false)]
fn check_roots(
    nodes: &HashMap<NodeId, Node>,
    parents: &HashMap<NodeId, NodeId>,
    all_ids: &Vec<NodeId>,
) -> (ok: bool)
    requires
        forall|k: int| 0 <= k < all_ids@.len() ==> nodes@.contains_key(#[trigger] all_ids@[k]),
        forall|id: NodeId| #[trigger] nodes@.contains_key(id) ==> all_ids@.contains(id),
        forall|c: NodeId| #[trigger] parents@.contains_key(c) <==> is_child(nodes@, c),
    ensures
        ok <==> roots_are_units(nodes@),
{
    let n = all_ids.len();
    let mut i: usize = 0;
    while i < n
        invariant
            0 <= i <= n,
            forall|k: int|
                0 <= k < i ==> {
                    let id = #[trigger] all_ids@[k];
                    !parents@.contains_key(id) <==> nodes@[id].spec_node_type()
                        == NodeType::SourceUnit
                },
        decreases n - i,
    {
        let id = all_ids[i];
        let has_parent = parents.contains_key(&id);
        let is_unit = match nodes.get(&id) {
            Some(nd) => nd.body.node_type() == NodeType::SourceUnit,
            None => vstd::pervasive::unreached(),
        };
        if has_parent == is_unit {
            proof {
                assert(nodes@.contains_key(id));
                assert(!(!is_child(nodes@, id) <==> nodes@[id].spec_node_type()
                    == NodeType::SourceUnit));
            }
            return false;
        }
        i = i + 1;
    }
    proof {
        assert forall|id: NodeId| #[trigger] nodes@.contains_key(id) implies (!is_child(nodes@, id)
            <==> nodes@[id].spec_node_type() == NodeType::SourceUnit) by {
            let k = choose|k: int| 0 <= k < all_ids@.len() && all_ids@[k] == id;
            assert(all_ids@[k] == id);
        }
    }
    true
}

impl WorkspaceContext {
    /// Accepts the raw parsed-AST payload once at load time, registering
    /// every node by identity and recording its parent, and returns the
    /// immutable registry.  Fails with `MalformedAst` exactly when the
    /// payload is not a single well-formed forest of source-unit trees:
    /// a missing or duplicated identity, a dangling child reference, a
    /// node owned twice, an ownership cycle, or an ownerless node that is
    /// not a source unit (and conversely).
    #[verifier::rlimit(100)]
    #[verifier::spinoff_prover]
    pub fn ingest(payload: AstPayload) -> (r: Result<WorkspaceContext, MalformedAst>)
        ensures
            match r {
                Ok(ctx) => {
                    &&& payload_ok(payload)
                    &&& ctx.wf()
                    &&& ctx.node_map() == payload_node_map(payload)
                    &&& ctx.unit_ids() == payload_unit_ids(payload)
                },
                Err(_) => !payload_ok(payload),
            },
    {
        let ghost p = payload;
        let (nodes, all_ids, units) = match build_node_map(payload) {
            Ok(t) => t,
            Err(e) => {
                return Err(e);
            },
        };
        proof {
            lemma_prefix_map_domain(p, p.nodes@.len() as int);
            assert forall|a: int, b: int| 0 <= a < b < all_ids@.len() implies all_ids@[a]
                != all_ids@[b] by {
                assert(raw_id(p.nodes@[a]) != raw_id(p.nodes@[b]));
            }
            assert forall|k: int| 0 <= k < all_ids@.len() implies nodes@.contains_key(
                #[trigger] all_ids@[k],
            ) by {
                assert(raw_id(p.nodes@[k]) == all_ids@[k]);
            }
            assert forall|id: NodeId| #[trigger] nodes@.contains_key(id) implies all_ids@.contains(
                id,
            ) by {
                let k = choose|k: int| 0 <= k < p.nodes@.len() && raw_id(#[trigger] p.nodes@[k]) == id;
                assert(all_ids@[k] == id);
            }
        }
        let parents = match build_parents(&nodes, &all_ids) {
            Ok(t) => t,
            Err(e) => {
                return Err(e);
            },
        };
        let (order, position) = match build_order(&nodes, &parents, &all_ids) {
            Ok(t) => t,
            Err(e) => {
                return Err(e);
            },
        };
        if !check_roots(&nodes, &parents, &all_ids) {
            return Err(MalformedAst);
        }
        proof {
            assert(valid_order(nodes@, order@));
            assert(acyclic(nodes@));
        }
        let ctx = WorkspaceContext {
            nodes,
            parents,
            order,
            pos: Ghost(position@),
            units,
        };
        proof {
            let m = ctx.nodes@;
            assert forall|id: NodeId| #[trigger] m.contains_key(id) implies m[id].id == id by {
                let k = choose|k: int| 0 <= k < p.nodes@.len() && raw_id(#[trigger] p.nodes@[k]) == id;
                lemma_prefix_map_value(p, p.nodes@.len() as int, k);
            }
            lemma_prefix_units(p, p.nodes@.len() as int);
            assert forall|k: int| 0 <= k < ctx.units@.len() implies m.contains_key(
                #[trigger] ctx.units@[k],
            ) && m[ctx.units@[k]].spec_node_type() == NodeType::SourceUnit by {
                assert(ctx.units@.contains(ctx.units@[k]));
                let k2 = choose|k2: int|
                    0 <= k2 < p.nodes@.len() && raw_id(#[trigger] p.nodes@[k2]) == ctx.units@[k]
                        && p.nodes@[k2].body.spec_node_type() == NodeType::SourceUnit;
                lemma_prefix_map_value(p, p.nodes@.len() as int, k2);
            }
            assert forall|id: NodeId|
                #[trigger] m.contains_key(id) && m[id].spec_node_type()
                    == NodeType::SourceUnit implies ctx.units@.contains(id) by {
                let k = choose|k: int| 0 <= k < p.nodes@.len() && raw_id(#[trigger] p.nodes@[k]) == id;
                lemma_prefix_map_value(p, p.nodes@.len() as int, k);
                assert(p.nodes@[k].body.spec_node_type() == NodeType::SourceUnit);
            }
            assert forall|id: NodeId, j: int|
                m.contains_key(id) && 0 <= j < m[id].body.spec_children().len() implies {
                let c = #[trigger] m[id].body.spec_children()[j];
                &&& m.contains_key(c)
                &&& ctx.parents@.contains_key(c)
                &&& ctx.parents@[c] == id
                &&& ctx.pos@[id] < ctx.pos@[c]
            } by {
                let c = m[id].body.spec_children()[j];
                assert(m.contains_key(c));
                assert(m[id].body.spec_children().contains(c));
                assert(is_child(m, c));
                assert(ctx.parents@.contains_key(c));
                let q = ctx.parents@[c];
                assert(m[q].body.spec_children().contains(c));
                assert(q == id);
                assert(ctx.pos@[ctx.parents@[c]] < ctx.pos@[c]);
            }
            assert forall|id: NodeId| #[trigger] m.contains_key(id) implies (
                !ctx.parents@.contains_key(id) <==> m[id].spec_node_type()
                    == NodeType::SourceUnit) by {
                assert(ctx.parents@.contains_key(id) <==> is_child(m, id));
            }
            assert(ctx.wf());
        }
        Ok(ctx)
    }

    /// The ordered ancestor chain of `id` as identities: immediate parent
    /// first, up to and including the owning source unit.  Empty for
    /// unknown identities, which signal "no ancestors", not an error.
    pub fn get_ancestors(&self, id: NodeId) -> (r: Vec<NodeId>)
        requires
            self.wf(),
        ensures
            r@ == self.ancestor_seq(id),
    {
        let mut r: Vec<NodeId> = Vec::new();
        let mut cur: NodeId = id;
        loop
            invariant
                self.wf(),
                self.ancestor_seq(id) == r@ + self.ancestor_seq(cur),
            ensures
                r@ == self.ancestor_seq(id),
            decreases self.measure_of(cur),
        {
            match self.parent_of(cur) {
                Some(q) => {
                    proof {
                        assert(self.ancestor_seq(cur) == seq![q] + self.ancestor_seq(q));
                        assert(r@ + self.ancestor_seq(cur) =~= (r@ + seq![q])
                            + self.ancestor_seq(q));
                        let cs = self.nodes@[q].body.spec_children();
                        assert(cs.contains(cur));
                        let j = choose|j: int| 0 <= j < cs.len() && cs[j] == cur;
                        assert(cs[j] == cur);
                        assert(self.pos@[q] < self.pos@[cur]);
                    }
                    r.push(q);
                    cur = q;
                },
                None => {
                    proof {
                        assert(self.ancestor_seq(cur) =~= Seq::<NodeId>::empty());
                        assert(r@ + self.ancestor_seq(cur) =~= r@);
                    }
                    break ;
                },
            }
        }
        r
    }

    /// The first element of `s` that is registered with kind `t`.
    pub open spec fn first_of_type(self, s: Seq<NodeId>, t: NodeType) -> Option<NodeId>
        decreases s.len(),
    {
        if s.len() == 0 {
            None
        } else if self.registered(s[0]) && self.node_map()[s[0]].spec_node_type() == t {
            Some(s[0])
        } else {
            self.first_of_type(s.drop_first(), t)
        }
    }

    /// The nearest ancestor of kind `t`: the first match on the ancestor
    /// chain, `None` when the chain is exhausted without one, including
    /// when `id` itself is unknown.
    pub open spec fn spec_closest_ancestor_of_type(self, id: NodeId, t: NodeType) -> Option<
        NodeId,
    > {
        self.first_of_type(self.ancestor_seq(id), t)
    }

    /// Linear walk up the ancestor chain for the nearest node of kind `t`.
    pub fn closest_ancestor_of_type(&self, id: NodeId, t: NodeType) -> (r: Option<NodeId>)
        requires
            self.wf(),
        ensures
            r == self.spec_closest_ancestor_of_type(id, t),
    {
        let mut cur: NodeId = id;
        loop
            invariant
                self.wf(),
                self.spec_closest_ancestor_of_type(id, t) == self.first_of_type(
                    self.ancestor_seq(cur),
                    t,
                ),
            ensures
                self.first_of_type(self.ancestor_seq(cur), t) == None::<NodeId>,
            decreases self.measure_of(cur),
        {
            match self.parent_of(cur) {
                Some(q) => {
                    proof {
                        assert(self.ancestor_seq(cur) == seq![q] + self.ancestor_seq(q));
                        assert(self.ancestor_seq(cur)[0] == q);
                        assert(self.ancestor_seq(cur).drop_first() =~= self.ancestor_seq(q));
                        let cs = self.nodes@[q].body.spec_children();
                        assert(cs.contains(cur));
                        let j = choose|j: int| 0 <= j < cs.len() && cs[j] == cur;
                        assert(cs[j] == cur);
                        assert(self.pos@[q] < self.pos@[cur]);
                    }
                    let matches_kind = match self.get(q) {
                        Some(nd) => nd.body.node_type() == t,
                        None => vstd::pervasive::unreached(),
                    };
                    if matches_kind {
                        return Some(q);
                    }
                    cur = q;
                },
                None => {
                    proof {
                        assert(self.ancestor_seq(cur) =~= Seq::<NodeId>::empty());
                    }
                    break ;
                },
            }
        }
        None
    }

    /// One level of the owned-subnode structure, in source order; empty
    /// for unknown identities.
    pub open spec fn spec_immediate_children(self, id: NodeId) -> Seq<NodeId> {
        if self.registered(id) {
            self.node_map()[id].body.spec_children()
        } else {
            Seq::empty()
        }
    }

    /// One level of the owned-subnode structure, in source order.
    pub fn immediate_children(&self, id: NodeId) -> (r: Vec<NodeId>)
        ensures
            r@ == self.spec_immediate_children(id),
    {
        match self.nodes.get(&id) {
            Some(nd) => nd.body.children(),
            None => Vec::new(),
        }
    }

    /// The sibling context of `id`: all nodes sharing its immediate
    /// parent, in source order (including `id` itself); empty for roots
    /// and for unknown identities.
    pub open spec fn spec_siblings(self, id: NodeId) -> Seq<NodeId> {
        if self.parent_map().contains_key(id) {
            self.node_map()[self.parent_map()[id]].body.spec_children()
        } else {
            Seq::empty()
        }
    }

    /// A peek at the nodes sharing the immediate parent of `id`.
    pub fn siblings(&self, id: NodeId) -> (r: Vec<NodeId>)
        requires
            self.wf(),
        ensures
            r@ == self.spec_siblings(id),
    {
        match self.parents.get(&id) {
            Some(q) => match self.nodes.get(q) {
                Some(nd) => nd.body.children(),
                None => vstd::pervasive::unreached(),
            },
            None => Vec::new(),
        }
    }

    /// The owning source unit: the root of the ancestor chain, or `id`
    /// itself when it is a registered source unit; `None` for unknown
    /// identities.
    pub open spec fn spec_source_unit_of(self, id: NodeId) -> Option<NodeId> {
        if !self.registered(id) {
            None
        } else if self.ancestor_seq(id).len() == 0 {
            Some(id)
        } else {
            Some(self.ancestor_seq(id).last())
        }
    }

    /// Resolves the owning source unit by walking the ancestor chain.
    pub fn source_unit_of(&self, id: NodeId) -> (r: Option<NodeId>)
        requires
            self.wf(),
        ensures
            r == self.spec_source_unit_of(id),
    {
        if !self.contains(id) {
            return None;
        }
        let chain = self.get_ancestors(id);
        if chain.len() == 0 {
            Some(id)
        } else {
            Some(chain[chain.len() - 1])
        }
    }

    /// Whether `c` is registered with kind `t`.
    pub open spec fn matches_type(self, c: NodeId, t: NodeType) -> bool {
        self.registered(c) && self.node_map()[c].spec_node_type() == t
    }

    /// The nodes of kind `t` in the subtree rooted at `id`, in pre-order
    /// (source declaration order).
    pub open spec fn matching_subtree(self, id: NodeId, t: NodeType) -> Seq<NodeId> {
        self.subtree_seq(id).filter(|c: NodeId| self.matches_type(c, t))
    }

    /// What extraction returns: the matching subtree for a registered
    /// root, nothing for an unknown one.
    pub open spec fn spec_extract_of_type(self, root: NodeId, t: NodeType) -> Seq<NodeId> {
        if self.registered(root) {
            self.matching_subtree(root, t)
        } else {
            Seq::empty()
        }
    }

    /// The matching part of the forest below `id`, from child `j` on.
    pub open spec fn matching_forest(self, id: NodeId, j: int, t: NodeType) -> Seq<NodeId> {
        self.forest_seq(id, j).filter(|c: NodeId| self.matches_type(c, t))
    }

    #[verifier::loop_isolation(false)]
    #[verifier::rlimit(60)]
    fn extract_into(&self, id: NodeId, t: NodeType, out: &mut Vec<NodeId>)
        requires
            self.wf(),
            self.registered(id),
        ensures
            final(out)@ == old(out)@ + self.matching_subtree(id, t),
        decreases self.descent_measure(id),
    {
        broadcast use vstd::seq_lib::group_filter_ensures;

        let ghost pred = |c: NodeId| self.matches_type(c, t);
        let node = match self.nodes.get(&id) {
            Some(n) => n,
            None => vstd::pervasive::unreached(),
        };
        proof {
            assert(self.subtree_seq(id) == seq![id] + self.forest_seq(id, 0));
            Seq::filter_distributes_over_add(seq![id], self.forest_seq(id, 0), pred);
            assert(seq![id].filter(pred) =~= if pred(id) {
                seq![id]
            } else {
                Seq::<NodeId>::empty()
            }) by {
                reveal_with_fuel(Seq::filter, 2);
                assert(seq![id].drop_last() =~= Seq::<NodeId>::empty());
            }
        }
        if node.body.node_type() == t {
            out.push(id);
        }
        let cs = node.body.children();
        let ghost out_head = out@;
        let mut j: usize = 0;
        while j < cs.len()
            invariant
                cs@ == self.node_map()[id].body.spec_children(),
                out@ + self.matching_forest(id, j as int, t) == out_head + self.matching_forest(
                    id,
                    0,
                    t,
                ),
                0 <= j <= cs@.len(),
            decreases cs@.len() - j,
        {
            let c = cs[j];
            proof {
                assert(cs@[j as int] == c);
                assert(self.pos@[id] < self.pos@[c]);
                assert(self.forest_seq(id, j as int) == self.subtree_seq(c) + self.forest_seq(
                    id,
                    j as int + 1,
                ));
                Seq::filter_distributes_over_add(
                    self.subtree_seq(c),
                    self.forest_seq(id, j as int + 1),
                    pred,
                );
            }
            let ghost out_before = out@;
            self.extract_into(c, t, out);
            j = j + 1;
            proof {
                assert(out@ + self.matching_forest(id, j as int, t) =~= out_head
                    + self.matching_forest(id, 0, t));
            }
        }
        proof {
            assert(self.forest_seq(id, cs@.len() as int) =~= Seq::<NodeId>::empty());
            assert(self.matching_forest(id, cs@.len() as int, t) =~= Seq::<NodeId>::empty());
            assert(out@ =~= out_head + self.matching_forest(id, 0, t));
            assert(out@ =~= old(out)@ + self.matching_subtree(id, t));
        }
    }

    /// Extraction: collects every node of kind `t` within the subtree
    /// rooted at `root` (the root included when it matches), in source
    /// order; empty for unknown roots.
    pub fn extract_of_type(&self, root: NodeId, t: NodeType) -> (r: Vec<NodeId>)
        requires
            self.wf(),
        ensures
            r@ == self.spec_extract_of_type(root, t),
    {
        let mut out: Vec<NodeId> = Vec::new();
        if self.contains(root) {
            self.extract_into(root, t, &mut out);
        }
        out
    }

    /// All registered nodes of kind `t`, in registration order.
    pub open spec fn spec_nodes_of_type(self, t: NodeType) -> Seq<NodeId> {
        self.order_seq().filter(|c: NodeId| self.matches_type(c, t))
    }

    /// Lists every registered node of kind `t`, in registration order.
    #[verifier::loop_isolation(false)]
    pub fn nodes_of_type(&self, t: NodeType) -> (r: Vec<NodeId>)
        requires
            self.wf(),
        ensures
            r@ == self.spec_nodes_of_type(t),
    {
        let ghost pred = |c: NodeId| self.matches_type(c, t);
        let mut r: Vec<NodeId> = Vec::new();
        let mut i: usize = 0;
        while i < self.order.len()
            invariant
                0 <= i <= self.order@.len(),
                r@ == self.order@.subrange(0, i as int).filter(pred),
            decreases self.order@.len() - i,
        {
            let id = self.order[i];
            let keep = match self.nodes.get(&id) {
                Some(nd) => nd.body.node_type() == t,
                None => vstd::pervasive::unreached(),
            };
            proof {
                let prefix = self.order@.subrange(0, i as int);
                let next = self.order@.subrange(0, i as int + 1);
                assert(next.drop_last() =~= prefix);
                assert(next.last() == id);
                reveal(Seq::filter);
                assert(next.filter(pred) == prefix.filter(pred) + if pred(id) {
                    seq![id]
                } else {
                    Seq::<NodeId>::empty()
                }) by {
                    if pred(id) {
                        assert(next.filter(pred) =~= prefix.filter(pred).push(id));
                        assert(prefix.filter(pred).push(id) =~= prefix.filter(pred) + seq![id]);
                    } else {
                        assert(next.filter(pred) + Seq::<NodeId>::empty() =~= next.filter(pred));
                    }
                }
            }
            if keep {
                r.push(id);
            }
            i = i + 1;
        }
        proof {
            assert(self.order@.subrange(0, self.order@.len() as int) =~= self.order@);
        }
        r
    }

    /// The registered pragma directives, in registration order.
    pub fn pragma_directives(&self) -> (r: Vec<NodeId>)
        requires
            self.wf(),
        ensures
            r@ == self.spec_nodes_of_type(NodeType::PragmaDirective),
    {
        self.nodes_of_type(NodeType::PragmaDirective)
    }

    /// The registered identifiers, in registration order.
    pub fn identifiers(&self) -> (r: Vec<NodeId>)
        requires
            self.wf(),
        ensures
            r@ == self.spec_nodes_of_type(NodeType::Identifier),
    {
        self.nodes_of_type(NodeType::Identifier)
    }

    /// The registered function definitions, in registration order.
    pub fn function_definitions(&self) -> (r: Vec<NodeId>)
        requires
            self.wf(),
        ensures
            r@ == self.spec_nodes_of_type(NodeType::FunctionDefinition),
    {
        self.nodes_of_type(NodeType::FunctionDefinition)
    }

    /// The registered variable declarations, in registration order.
    pub fn variable_declarations(&self) -> (r: Vec<NodeId>)
        requires
            self.wf(),
        ensures
            r@ == self.spec_nodes_of_type(NodeType::VariableDeclaration),
    {
        self.nodes_of_type(NodeType::VariableDeclaration)
    }
}



/// Membership in a concatenation.
proof fn lemma_concat_contains(a: Seq<NodeId>, b: Seq<NodeId>, x: NodeId)
    ensures
        (a + b).contains(x) <==> a.contains(x) || b.contains(x),
{
    if (a + b).contains(x) {
        let i = choose|i: int| 0 <= i < (a + b).len() && (a + b)[i] == x;
        if i < a.len() {
            assert(a[i] == x);
        } else {
            assert(b[i - a.len()] == x);
        }
    }
    if a.contains(x) {
        let i = choose|i: int| 0 <= i < a.len() && a[i] == x;
        assert((a + b)[i] == x);
    }
    if b.contains(x) {
        let i = choose|i: int| 0 <= i < b.len() && b[i] == x;
        assert((a + b)[a.len() + i] == x);
    }
}

/// Membership in a filtered sequence.
proof fn lemma_filter_members(s: Seq<NodeId>, pred: spec_fn(NodeId) -> bool, x: NodeId)
    ensures
        s.filter(pred).contains(x) <==> s.contains(x) && pred(x),
    decreases s.len(),
{
    reveal(Seq::filter);
    if s.len() == 0 {
    } else {
        lemma_filter_members(s.drop_last(), pred, x);
        let f = s.filter(pred);
        let fd = s.drop_last().filter(pred);
        if s.contains(x) && pred(x) {
            if x == s.last() {
                assert(f[f.len() - 1] == x);
            } else {
                let i = choose|i: int| 0 <= i < s.len() && s[i] == x;
                assert(s.drop_last()[i] == x);
                assert(fd.contains(x));
                let k = choose|k: int| 0 <= k < fd.len() && fd[k] == x;
                assert(f[k] == x);
            }
        }
        if f.contains(x) {
            let k = choose|k: int| 0 <= k < f.len() && f[k] == x;
            if pred(s.last()) && k == f.len() - 1 {
                assert(s.contains(s.last()));
            } else {
                assert(fd[k] == x);
                assert(fd.contains(x));
                let i = choose|i: int| 0 <= i < s.drop_last().len() && s.drop_last()[i] == x;
                assert(s[i] == x);
            }
        }
    }
}

impl WorkspaceContext {
    /// Every element of an ancestor chain is registered.
    pub proof fn lemma_ancestor_chain_registered(self, id: NodeId)
        requires
            self.wf(),
        ensures
            forall|i: int|
                0 <= i < self.ancestor_seq(id).len() ==> self.registered(
                    #[trigger] self.ancestor_seq(id)[i],
                ),
        decreases self.measure_of(id),
    {
        if self.parents@.contains_key(id) {
            let q = self.parents@[id];
            let cs = self.nodes@[q].body.spec_children();
            assert(cs.contains(id));
            let j = choose|j: int| 0 <= j < cs.len() && cs[j] == id;
            assert(cs[j] == id);
            self.lemma_ancestor_chain_registered(q);
            assert forall|i: int| 0 <= i < self.ancestor_seq(id).len() implies self.registered(
                #[trigger] self.ancestor_seq(id)[i],
            ) by {
                if i == 0 {
                    assert(self.ancestor_seq(id)[0] == q);
                } else {
                    assert(self.ancestor_seq(id)[i] == self.ancestor_seq(q)[i - 1]);
                }
            }
        }
    }

    /// The chain of the element at position `i` of a chain is the rest of
    /// that chain.
    pub proof fn lemma_ancestor_suffix(self, id: NodeId, i: int)
        requires
            self.wf(),
            0 <= i < self.ancestor_seq(id).len(),
        ensures
            self.ancestor_seq(self.ancestor_seq(id)[i]) == self.ancestor_seq(id).skip(i + 1),
        decreases i,
    {
        let q = self.parents@[id];
        let cs = self.nodes@[q].body.spec_children();
        assert(cs.contains(id));
        let j = choose|j: int| 0 <= j < cs.len() && cs[j] == id;
        assert(cs[j] == id);
        if i == 0 {
            assert(self.ancestor_seq(id)[0] == q);
            assert(self.ancestor_seq(id).skip(1) =~= self.ancestor_seq(q));
        } else {
            self.lemma_ancestor_suffix(q, i - 1);
            assert(self.ancestor_seq(id)[i] == self.ancestor_seq(q)[i - 1]);
            assert(self.ancestor_seq(id).skip(i + 1) =~= self.ancestor_seq(q).skip(i));
        }
    }

    /// LAW: for every node with a registered parent, the ancestor chain is
    /// non-empty, its first element is that parent, and its last element
    /// is the node's owning source unit.
    pub proof fn lemma_ancestors_shape(self, id: NodeId)
        requires
            self.wf(),
            self.parent_map().contains_key(id),
        ensures
            self.ancestor_seq(id).len() > 0,
            self.ancestor_seq(id)[0] == self.parent_map()[id],
            self.registered(self.ancestor_seq(id).last()),
            self.node_map()[self.ancestor_seq(id).last()].spec_node_type() == NodeType::SourceUnit,
            self.spec_source_unit_of(id) == Some(self.ancestor_seq(id).last()),
        decreases self.measure_of(id),
    {
        let q = self.parents@[id];
        let cs = self.nodes@[q].body.spec_children();
        assert(cs.contains(id));
        let j = choose|j: int| 0 <= j < cs.len() && cs[j] == id;
        assert(cs[j] == id);
        assert(self.ancestor_seq(id) == seq![q] + self.ancestor_seq(q));
        if self.parents@.contains_key(q) {
            self.lemma_ancestors_shape(q);
            assert(self.ancestor_seq(id).last() == self.ancestor_seq(q).last());
        } else {
            assert(self.ancestor_seq(q) =~= Seq::<NodeId>::empty());
            assert(self.ancestor_seq(id).last() == q);
            assert(self.nodes@[q].spec_node_type() == NodeType::SourceUnit);
        }
    }

    /// LAW: an unknown identity makes every relationship and extraction
    /// query return nothing, never a failure.
    pub proof fn lemma_unknown_identity(self, id: NodeId)
        requires
            self.wf(),
            !self.registered(id),
        ensures
            self.ancestor_seq(id) == Seq::<NodeId>::empty(),
            forall|t: NodeType| #[trigger]
                self.spec_closest_ancestor_of_type(id, t) == None::<NodeId>,
            self.spec_immediate_children(id) == Seq::<NodeId>::empty(),
            self.spec_siblings(id) == Seq::<NodeId>::empty(),
            self.spec_source_unit_of(id) == None::<NodeId>,
            forall|t: NodeType| #[trigger] self.spec_extract_of_type(id, t) == Seq::<NodeId>::empty(),
    {
        assert(!self.parents@.contains_key(id));
        assert(self.ancestor_seq(id) == Seq::<NodeId>::empty());
    }

    /// A subtree contains its own root.
    proof fn lemma_subtree_self(self, x: NodeId)
        requires
            self.wf(),
            self.registered(x),
        ensures
            self.subtree_seq(x).contains(x),
    {
        assert(self.subtree_seq(x) == seq![x] + self.forest_seq(x, 0));
        assert(self.subtree_seq(x)[0] == x);
    }

    /// Membership in a forest is membership in some child subtree.
    proof fn lemma_forest_members(self, id: NodeId, j: int, x: NodeId)
        requires
            self.wf(),
            self.registered(id),
            0 <= j,
        ensures
            self.forest_seq(id, j).contains(x) <==> exists|j2: int|
                j <= j2 < self.node_map()[id].body.spec_children().len() && self.subtree_seq(
                    #[trigger] self.node_map()[id].body.spec_children()[j2],
                ).contains(x),
        decreases self.child_count(id) - j,
    {
        let cs = self.nodes@[id].body.spec_children();
        if j < 0 || j >= cs.len() {
        } else {
            assert(cs.contains(cs[j]));
            assert(self.pos@[id] < self.pos@[cs[j]]);
            self.lemma_forest_members(id, j + 1, x);
            lemma_concat_contains(self.subtree_seq(cs[j]), self.forest_seq(id, j + 1), x);
            if self.forest_seq(id, j).contains(x) {
                if self.subtree_seq(cs[j]).contains(x) {
                    assert(j <= j < cs.len() && self.subtree_seq(cs[j]).contains(x));
                } else {
                    assert(self.forest_seq(id, j + 1).contains(x));
                    let j2 = choose|j2: int|
                        j + 1 <= j2 < cs.len() && self.subtree_seq(#[trigger] cs[j2]).contains(x);
                    assert(j <= j2 < cs.len() && self.subtree_seq(cs[j2]).contains(x));
                }
            }
            if exists|j2: int| j <= j2 < cs.len() && self.subtree_seq(#[trigger] cs[j2]).contains(x) {
                let j2 = choose|j2: int|
                    j <= j2 < cs.len() && self.subtree_seq(#[trigger] cs[j2]).contains(x);
                if j2 == j {
                    assert(self.forest_seq(id, j).contains(x));
                } else {
                    assert(j + 1 <= j2 < cs.len() && self.subtree_seq(cs[j2]).contains(x));
                    assert(self.forest_seq(id, j + 1).contains(x));
                    assert(self.forest_seq(id, j).contains(x));
                }
            }
        }
    }

    /// Descending one ownership step stays inside the subtree.
    proof fn lemma_subtree_step(self, root: NodeId, y: NodeId, x: NodeId)
        requires
            self.wf(),
            self.registered(root),
            self.subtree_seq(root).contains(y),
            self.parent_map().contains_key(x),
            self.parent_map()[x] == y,
        ensures
            self.subtree_seq(root).contains(x),
        decreases self.descent_measure(root),
    {
        let cs = self.nodes@[root].body.spec_children();
        assert(self.subtree_seq(root) == seq![root] + self.forest_seq(root, 0));
        lemma_concat_contains(seq![root], self.forest_seq(root, 0), y);
        lemma_concat_contains(seq![root], self.forest_seq(root, 0), x);
        if y == root {
            let ys = self.nodes@[y].body.spec_children();
            assert(ys.contains(x));
            let j = choose|j: int| 0 <= j < ys.len() && ys[j] == x;
            assert(ys[j] == x);
            self.lemma_subtree_self(x);
            self.lemma_forest_members(root, 0, x);
            assert(0 <= j < cs.len() && self.subtree_seq(cs[j]).contains(x));
        } else {
            assert(self.forest_seq(root, 0).contains(y));
            self.lemma_forest_members(root, 0, y);
            let j2 = choose|j2: int|
                0 <= j2 < cs.len() && self.subtree_seq(#[trigger] cs[j2]).contains(y);
            assert(cs.contains(cs[j2]));
            assert(self.pos@[root] < self.pos@[cs[j2]]);
            self.lemma_subtree_step(cs[j2], y, x);
            self.lemma_forest_members(root, 0, x);
        }
    }

    /// A node whose chain passes through `root` lies in `root`'s subtree.
    proof fn lemma_chain_to_subtree(self, root: NodeId, x: NodeId)
        requires
            self.wf(),
            self.registered(root),
            self.registered(x),
            self.ancestor_seq(x).contains(root),
        ensures
            self.subtree_seq(root).contains(x),
        decreases self.measure_of(x),
    {
        assert(self.parents@.contains_key(x)) by {
            if !self.parents@.contains_key(x) {
                assert(self.ancestor_seq(x) == Seq::<NodeId>::empty());
            }
        }
        let q = self.parents@[x];
        let cs = self.nodes@[q].body.spec_children();
        assert(cs.contains(x));
        let j = choose|j: int| 0 <= j < cs.len() && cs[j] == x;
        assert(cs[j] == x);
        assert(self.ancestor_seq(x) == seq![q] + self.ancestor_seq(q));
        if q == root {
            self.lemma_subtree_self(root);
            self.lemma_subtree_step(root, root, x);
        } else {
            lemma_concat_contains(seq![q], self.ancestor_seq(q), root);
            assert(self.ancestor_seq(q).contains(root));
            self.lemma_chain_to_subtree(root, q);
            self.lemma_subtree_step(root, q, x);
        }
    }

    /// Membership in a subtree is exactly "root itself, or a node whose
    /// ancestor chain passes through the root".
    pub proof fn lemma_subtree_members(self, root: NodeId, x: NodeId)
        requires
            self.wf(),
            self.registered(root),
        ensures
            self.subtree_seq(root).contains(x) <==> (x == root || (self.registered(x)
                && self.ancestor_seq(x).contains(root))),
        decreases self.descent_measure(root),
    {
        if self.subtree_seq(root).contains(x) && x != root {
            lemma_concat_contains(seq![root], self.forest_seq(root, 0), x);
            assert(self.forest_seq(root, 0).contains(x));
            self.lemma_forest_members(root, 0, x);
            let cs = self.nodes@[root].body.spec_children();
            let j = choose|j: int|
                0 <= j < cs.len() && self.subtree_seq(#[trigger] cs[j]).contains(x);
            let c = cs[j];
            assert(self.pos@[root] < self.pos@[c]);
            self.lemma_subtree_members(c, x);
            assert(self.ancestor_seq(c) == seq![root] + self.ancestor_seq(root));
            if x == c {
                assert(self.ancestor_seq(x)[0] == root);
            } else {
                let i = choose|i: int|
                    0 <= i < self.ancestor_seq(x).len() && self.ancestor_seq(x)[i] == c;
                self.lemma_ancestor_suffix(x, i);
                assert(self.ancestor_seq(c).contains(root)) by {
                    assert(self.ancestor_seq(c)[0] == root);
                }
                let k = choose|k: int|
                    0 <= k < self.ancestor_seq(c).len() && self.ancestor_seq(c)[k] == root;
                assert(self.ancestor_seq(x).skip(i + 1)[k] == root);
                assert(self.ancestor_seq(x)[i + 1 + k] == root);
            }
        }
        if x == root {
            self.lemma_subtree_self(root);
        } else if self.registered(x) && self.ancestor_seq(x).contains(root) {
            self.lemma_chain_to_subtree(root, x);
        }
    }

    /// LAW: extraction by kind returns exactly the nodes of that kind
    /// whose ancestor chain passes through the given root (the root
    /// itself included when it matches), in source order.
    pub proof fn lemma_extract_characterization(self, root: NodeId, t: NodeType, x: NodeId)
        requires
            self.wf(),
            self.registered(root),
        ensures
            self.spec_extract_of_type(root, t).contains(x) <==> (self.matches_type(x, t) && (x
                == root || self.ancestor_seq(x).contains(root))),
    {
        lemma_filter_members(self.subtree_seq(root), |c: NodeId| self.matches_type(c, t), x);
        self.lemma_subtree_members(root, x);
    }

    /// What the first match on a sequence means.
    proof fn lemma_first_of_type_characterization(self, s: Seq<NodeId>, t: NodeType)
        ensures
            match self.first_of_type(s, t) {
                None => forall|i: int| 0 <= i < s.len() ==> !self.matches_type(#[trigger] s[i], t),
                Some(a) => exists|i: int|
                    0 <= i < s.len() && s[i] == a && self.matches_type(a, t) && (forall|k: int|
                        0 <= k < i ==> !self.matches_type(#[trigger] s[k], t)),
            },
        decreases s.len(),
    {
        if s.len() == 0 {
        } else if self.matches_type(s[0], t) {
            assert(0 <= 0 < s.len() && s[0] == s[0] && self.matches_type(s[0], t) && (forall|k: int|
                0 <= k < 0 ==> !self.matches_type(#[trigger] s[k], t)));
        } else {
            self.lemma_first_of_type_characterization(s.drop_first(), t);
            match self.first_of_type(s.drop_first(), t) {
                None => {
                    assert forall|i: int| 0 <= i < s.len() implies !self.matches_type(
                        #[trigger] s[i],
                        t,
                    ) by {
                        if i > 0 {
                            assert(s.drop_first()[i - 1] == s[i]);
                        }
                    }
                },
                Some(a) => {
                    let i = choose|i: int|
                        0 <= i < s.drop_first().len() && s.drop_first()[i] == a
                            && self.matches_type(a, t) && (forall|k: int|
                            0 <= k < i ==> !self.matches_type(#[trigger] s.drop_first()[k], t));
                    assert(s[i + 1] == a);
                    assert forall|k: int| 0 <= k < i + 1 implies !self.matches_type(
                        #[trigger] s[k],
                        t,
                    ) by {
                        if k > 0 {
                            assert(s.drop_first()[k - 1] == s[k]);
                        }
                    }
                },
            }
        }
    }

    /// LAW: the closest ancestor of a kind is `None` exactly when no
    /// ancestor of that kind exists up to the root, and otherwise the
    /// nearest one by proximity on the chain.
    pub proof fn lemma_closest_ancestor_characterization(self, id: NodeId, t: NodeType)
        requires
            self.wf(),
        ensures
            match self.spec_closest_ancestor_of_type(id, t) {
                None => forall|i: int|
                    0 <= i < self.ancestor_seq(id).len() ==> !self.matches_type(
                        #[trigger] self.ancestor_seq(id)[i],
                        t,
                    ),
                Some(a) => exists|i: int|
                    0 <= i < self.ancestor_seq(id).len() && self.ancestor_seq(id)[i] == a
                        && self.matches_type(a, t) && (forall|k: int|
                        0 <= k < i ==> !self.matches_type(
                            #[trigger] self.ancestor_seq(id)[k],
                            t,
                        )),
            },
    {
        self.lemma_first_of_type_characterization(self.ancestor_seq(id), t);
    }
}

/// The parent-chain capability of a node: every relationship query builds
/// on the chain it yields.
pub trait GetAncestors {
    /// The ancestor chain of this node within `context`, parent first,
    /// up to and including the owning source unit.
    fn ancestors(&self, context: &WorkspaceContext) -> (r: Option<Vec<NodeId>>)
        requires
            context.wf(),
    ;
}

impl GetAncestors for Node {
    /// The chain of this node's own identity; `Some` of the empty chain
    /// when the identity is unknown to the registry.
    fn ancestors(&self, context: &WorkspaceContext) -> (r: Option<Vec<NodeId>>)
        ensures
            r is Some,
            r->Some_0@ == context.ancestor_seq(self.id),
    {
        Some(context.get_ancestors(self.id))
    }
}


/// Members of a kind query are registered with that kind.
pub proof fn lemma_nodes_of_type_members(ctx: WorkspaceContext, t: NodeType, i: int)
    requires
        ctx.wf(),
        0 <= i < ctx.spec_nodes_of_type(t).len(),
    ensures
        ctx.matches_type(ctx.spec_nodes_of_type(t)[i], t),
        ctx.spec_nodes_of_type(t).contains(ctx.spec_nodes_of_type(t)[i]),
{
    let pred = |c: NodeId| ctx.matches_type(c, t);
    ctx.order_seq().lemma_filter_pred(pred, i);
    assert(ctx.spec_nodes_of_type(t).contains(ctx.spec_nodes_of_type(t)[i]));
}

/// Members of an extraction are registered with the extracted kind.
pub proof fn lemma_matching_subtree_members(
    ctx: WorkspaceContext,
    root: NodeId,
    t: NodeType,
    i: int,
)
    requires
        ctx.wf(),
        ctx.registered(root),
        0 <= i < ctx.matching_subtree(root, t).len(),
    ensures
        ctx.matches_type(ctx.matching_subtree(root, t)[i], t),
        ctx.matching_subtree(root, t).contains(ctx.matching_subtree(root, t)[i]),
{
    let pred = |c: NodeId| ctx.matches_type(c, t);
    ctx.subtree_seq(root).lemma_filter_pred(pred, i);
    assert(ctx.matching_subtree(root, t).contains(ctx.matching_subtree(root, t)[i]));
}

} // verus!
