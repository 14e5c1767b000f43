//! The finding-instance model: a key of (file path, line, textual range)
//! mapped to the identity of the node that triggered it, with key
//! uniqueness as the deduplication contract.

use vstd::prelude::*;
use crate::ast::{NodeBody, NodeId};
use crate::location::spec_resolve;
use crate::workspace::WorkspaceContext;

verus! {

/// The key of one finding: source file path, 1-based line number, and
/// the literal source range that triggered it.
pub struct InstanceKey {
    pub file: String,
    pub line: usize,
    pub range: String,
}

/// The mathematical value of an instance key.
pub type InstanceKeyModel = (Seq<char>, int, Seq<char>);

impl InstanceKey {
    /// The mathematical value of this key.
    pub open spec fn key_model(self) -> InstanceKeyModel {
        (self.file@, self.line as int, self.range@)
    }
}

/// The path and raw text of the source unit owning a node, as the
/// capture operation reads them; empty path when the owner is unknown.
pub open spec fn spec_unit_path(ctx: WorkspaceContext, id: NodeId) -> Seq<char> {
    match ctx.spec_source_unit_of(id) {
        Some(u) => match ctx.node_map()[u].body {
            NodeBody::SourceUnit { absolute_path, .. } => absolute_path@,
            _ => Seq::empty(),
        },
        None => Seq::empty(),
    }
}

/// The raw source text of the owning unit, if attached.
pub open spec fn spec_unit_source(ctx: WorkspaceContext, id: NodeId) -> Option<Seq<char>> {
    match ctx.spec_source_unit_of(id) {
        Some(u) => match ctx.node_map()[u].body {
            NodeBody::SourceUnit { source: Some(src), .. } => Some(src@),
            _ => None,
        },
        None => None,
    }
}

/// The instance key derived for a node: its owning unit's path, and the
/// resolved line and snippet of its locator; line 0 and an empty range
/// when the location is unknown (graceful degradation, never a failure).
pub open spec fn spec_sort_key(ctx: WorkspaceContext, id: NodeId) -> InstanceKeyModel {
    let path = spec_unit_path(ctx, id);
    if ctx.registered(id) {
        match (ctx.node_map()[id].span, spec_unit_source(ctx, id)) {
            (Some(span), Some(src)) => match spec_resolve(src, span.offset as int, span.length as int) {
                Some(t) => (path, t.0, t.1),
                None => (path, 0, Seq::empty()),
            },
            _ => (path, 0, Seq::empty()),
        }
    } else {
        (path, 0, Seq::empty())
    }
}

/// One entry of a detector's instance mapping.
pub type InstanceEntry = (InstanceKeyModel, NodeId);

/// No two entries share a key.
pub open spec fn keys_unique(s: Seq<InstanceEntry>) -> bool {
    forall|i: int, j: int| 0 <= i < j < s.len() ==> (#[trigger] s[i]).0 != (#[trigger] s[j]).0
}

/// The capture operation on the model: overwrite on key collision,
/// append otherwise.
pub open spec fn spec_capture(s: Seq<InstanceEntry>, k: InstanceKeyModel, v: NodeId) -> Seq<
    InstanceEntry,
> {
    if exists|i: int| 0 <= i < s.len() && (#[trigger] s[i]).0 == k {
        s.update(choose|i: int| 0 <= i < s.len() && (#[trigger] s[i]).0 == k, (k, v))
    } else {
        s.push((k, v))
    }
}

/// A detector's own instance store: insertion-ordered entries with
/// unique keys.
pub struct InstanceMap {
    entries: Vec<(InstanceKey, NodeId)>,
}

impl View for InstanceMap {
    type V = Seq<InstanceEntry>;

    closed spec fn view(&self) -> Seq<InstanceEntry> {
        self.entries@.map_values(|e: (InstanceKey, NodeId)| (e.0.key_model(), e.1))
    }
}

impl InstanceMap {
    /// Key uniqueness: the deduplication invariant every operation
    /// preserves.
    pub open spec fn well_formed(self) -> bool {
        keys_unique(self@)
    }

    /// An empty store.
    pub fn new() -> (r: InstanceMap)
        ensures
            r@ == Seq::<InstanceEntry>::empty(),
            r.well_formed(),
    {
        let r = InstanceMap { entries: Vec::new() };
        proof {
            assert(r@ =~= Seq::<InstanceEntry>::empty());
        }
        r
    }

    /// How many distinct findings are stored.
    pub fn len(&self) -> (r: usize)
        ensures
            r == self@.len(),
    {
        self.entries.len()
    }

    /// Whether no finding is stored.
    pub fn is_empty(&self) -> (r: bool)
        ensures
            r == (self@.len() == 0),
    {
        self.entries.len() == 0
    }

    /// The stored entries, in insertion order.
    pub fn entries(&self) -> (r: &Vec<(InstanceKey, NodeId)>)
        ensures
            r@.len() == self@.len(),
            forall|i: int|
                0 <= i < r@.len() ==> (#[trigger] r@[i]).0.key_model() == self@[i].0 && r@[i].1
                    == self@[i].1,
    {
        &self.entries
    }

    /// A copy of this store with the same entries in the same order.
    pub fn duplicate(&self) -> (r: InstanceMap)
        ensures
            r@ == self@,
    {
        let mut entries: Vec<(InstanceKey, NodeId)> = Vec::new();
        let mut i: usize = 0;
        while i < self.entries.len()
            invariant
                0 <= i <= self.entries@.len(),
                entries@.len() == i,
                forall|q: int|
                    0 <= q < i ==> (#[trigger] entries@[q]).0.key_model()
                        == self.entries@[q].0.key_model() && entries@[q].1 == self.entries@[q].1,
            decreases self.entries@.len() - i,
        {
            let e = &self.entries[i];
            entries.push(
                (
                    InstanceKey { file: e.0.file.clone(), line: e.0.line, range: e.0.range.clone() },
                    e.1,
                ),
            );
            i = i + 1;
        }
        let r = InstanceMap { entries };
        proof {
            assert(r@ =~= self@);
        }
        r
    }

    /// Inserts a finding under `key`, overwriting any finding already
    /// stored under the same key: the idempotent capture primitive.
    #[verifier::loop_isolation(false)]
    pub fn insert(&mut self, key: InstanceKey, value: NodeId)
        requires
            old(self).well_formed(),
        ensures
            final(self)@ == spec_capture(old(self)@, key.key_model(), value),
            final(self).well_formed(),
    {
        let ghost k = key.key_model();
        let ghost orig = self@;
        let n = self.entries.len();
        let mut i: usize = 0;
        while i < n
            invariant
                0 <= i <= n,
                n == self.entries@.len(),
                self@ == orig,
                forall|q: int| 0 <= q < i ==> (#[trigger] orig[q]).0 != k,
            decreases n - i,
        {
            let same = {
                let e = &self.entries[i];
                e.0.file == key.file && e.0.line == key.line && e.0.range == key.range
            };
            if same {
                proof {
                    assert(orig[i as int].0 == k);
                    assert(exists|q: int| 0 <= q < orig.len() && (#[trigger] orig[q]).0 == k);
                    let w = choose|q: int| 0 <= q < orig.len() && (#[trigger] orig[q]).0 == k;
                    assert(w == i as int) by {
                        if w < i as int {
                            assert(orig[w].0 != k);
                        }
                        if w > i as int {
                            assert(orig[i as int].0 != orig[w].0);
                        }
                    }
                }
                self.entries.remove(i);
                self.entries.insert(i, (key, value));
                proof {
                    assert(self@ =~= spec_capture(orig, k, value));
                    assert forall|a: int, b: int|
                        0 <= a < b < self@.len() implies (#[trigger] self@[a]).0 != (
                    #[trigger] self@[b]).0 by {
                        assert(orig[a].0 == self@[a].0 || a == i as int);
                        assert(orig[b].0 == self@[b].0 || b == i as int);
                    }
                }
                return ;
            }
            i = i + 1;
        }
        proof {
            assert(!(exists|q: int| 0 <= q < orig.len() && (#[trigger] orig[q]).0 == k));
        }
        self.entries.push((key, value));
        proof {
            assert(self@ =~= orig.push((k, value)));
            assert forall|a: int, b: int|
                0 <= a < b < self@.len() implies (#[trigger] self@[a]).0 != (
            #[trigger] self@[b]).0 by {
                if b < self@.len() - 1 {
                    assert(orig[a].0 != orig[b].0);
                } else {
                    assert(orig[a].0 != k);
                }
            }
        }
    }

    /// The capture operation: derives the node's instance key (owning
    /// file, resolved line, literal range) and stores the finding,
    /// overwriting on key collision.
    pub fn capture(&mut self, ctx: &WorkspaceContext, id: NodeId)
        requires
            ctx.wf(),
            old(self).well_formed(),
        ensures
            final(self)@ == spec_capture(old(self)@, spec_sort_key(*ctx, id), id),
            final(self).well_formed(),
    {
        let key = get_node_sort_key(ctx, id);
        self.insert(key, id);
    }
}

/// Derives the instance key of a node: the owning source unit's path,
/// and the 1-based line and literal snippet of the node's locator within
/// that unit's raw text; line 0 and an empty range when either is
/// missing or out of bounds.
pub fn get_node_sort_key(ctx: &WorkspaceContext, id: NodeId) -> (r: InstanceKey)
    requires
        ctx.wf(),
    ensures
        r.key_model() == spec_sort_key(*ctx, id),
{
    let mut path = String::new();
    let mut source: Option<String> = None;
    proof {
        ctx.lemma_ancestor_chain_registered(id);
    }
    match ctx.source_unit_of(id) {
        Some(u) => {
            match ctx.get(u) {
                Some(unit) => {
                    match &unit.body {
                        NodeBody::SourceUnit { absolute_path, source: src, .. } => {
                            path = absolute_path.clone();
                            source = match src {
                                Some(text) => Some(text.clone()),
                                None => None,
                            };
                        },
                        _ => {},
                    }
                },
                None => {},
            }
        },
        None => {},
    }
    let span = match ctx.get(id) {
        Some(node) => node.span,
        None => None,
    };
    proof {
        assert(path@ == spec_unit_path(*ctx, id));
        assert(match source {
            Some(t) => spec_unit_source(*ctx, id) == Some(t@),
            None => spec_unit_source(*ctx, id) is None,
        });
        assert(match span {
            Some(sp) => ctx.registered(id) && ctx.node_map()[id].span == Some(sp),
            None => !ctx.registered(id) || ctx.node_map()[id].span is None,
        });
    }
    match (span, source) {
        (Some(sp), Some(text)) => match crate::location::resolve_location(
            text.as_str(),
            sp.offset,
            sp.length,
        ) {
            Some(t) => InstanceKey { file: path, line: t.0, range: t.1 },
            None => InstanceKey { file: path, line: 0, range: String::new() },
        },
        _ => InstanceKey { file: path, line: 0, range: String::new() },
    }
}

/// LAW: capture is idempotent. Capturing the same node twice into the
/// same store yields exactly the store of a single capture.
pub proof fn lemma_capture_idempotent(s: Seq<InstanceEntry>, k: InstanceKeyModel, v: NodeId)
    requires
        keys_unique(s),
    ensures
        spec_capture(spec_capture(s, k, v), k, v) == spec_capture(s, k, v),
{
    let s1 = spec_capture(s, k, v);
    if exists|i: int| 0 <= i < s.len() && (#[trigger] s[i]).0 == k {
        let i = choose|i: int| 0 <= i < s.len() && (#[trigger] s[i]).0 == k;
        assert(s1 == s.update(i, (k, v)));
        assert(s1[i].0 == k);
        assert(exists|q: int| 0 <= q < s1.len() && (#[trigger] s1[q]).0 == k);
        let w = choose|q: int| 0 <= q < s1.len() && (#[trigger] s1[q]).0 == k;
        assert(w == i) by {
            if w != i {
                assert(s1[w] == s[w]);
                assert(s[w].0 != s[i].0);
            }
        }
        assert(spec_capture(s1, k, v) =~= s1);
    } else {
        assert(s1 == s.push((k, v)));
        assert(s1[s.len() as int].0 == k);
        assert(exists|q: int| 0 <= q < s1.len() && (#[trigger] s1[q]).0 == k);
        let w = choose|q: int| 0 <= q < s1.len() && (#[trigger] s1[q]).0 == k;
        assert(w == s.len() as int) by {
            if w < s.len() {
                assert(s[w].0 == k);
            }
        }
        assert(spec_capture(s1, k, v) =~= s1);
    }
}

} // verus!
