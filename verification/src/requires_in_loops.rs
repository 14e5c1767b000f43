//! Flags `require` / `revert` calls whose enclosing statement chain
//! passes through a loop: a single bad item then fails the whole
//! transaction.

use vstd::prelude::*;
use crate::ast::{NodeBody, NodeId, NodeType};
use crate::detector::{DetectorError, IssueDetector, IssueSeverity};
use crate::instances::{spec_capture, spec_sort_key, InstanceEntry, InstanceMap};
use crate::workspace::WorkspaceContext;

verus! {

/// The name an identifier node references; empty for other kinds.
pub open spec fn identifier_name(ctx: WorkspaceContext, id: NodeId) -> Seq<char> {
    if ctx.registered(id) {
        match ctx.node_map()[id].body {
            NodeBody::Identifier { name, .. } => name@,
            _ => Seq::empty(),
        }
    } else {
        Seq::empty()
    }
}

/// Whether this identifier invokes the revert or require built-in.
pub open spec fn is_revert_or_require(ctx: WorkspaceContext, id: NodeId) -> bool {
    identifier_name(ctx, id) == "revert"@ || identifier_name(ctx, id) == "require"@
}

/// The store after scanning the identifiers from index `i` on: each
/// `revert`/`require` identifier is captured once per loop kind (for,
/// then while) found on its ancestor chain; the capture key dedupes.
pub open spec fn loops_outcome(
    ctx: WorkspaceContext,
    m: Seq<InstanceEntry>,
    ids: Seq<NodeId>,
    i: int,
) -> Seq<InstanceEntry>
    decreases ids.len() - i,
{
    if i < 0 || i >= ids.len() {
        m
    } else {
        let id = ids[i];
        let m1 = if is_revert_or_require(ctx, id) && ctx.spec_closest_ancestor_of_type(
            id,
            NodeType::ForStatement,
        ) is Some {
            spec_capture(m, spec_sort_key(ctx, id), id)
        } else {
            m
        };
        let m2 = if is_revert_or_require(ctx, id) && ctx.spec_closest_ancestor_of_type(
            id,
            NodeType::WhileStatement,
        ) is Some {
            spec_capture(m1, spec_sort_key(ctx, id), id)
        } else {
            m1
        };
        loops_outcome(ctx, m2, ids, i + 1)
    }
}

/// Flags `require`/`revert` statements inside loops.
pub struct RevertsAndRequiresInLoopsDetector {
    found_instances: InstanceMap,
}

impl RevertsAndRequiresInLoopsDetector {
    /// The findings captured so far.
    pub closed spec fn spec_instances(self) -> Seq<InstanceEntry> {
        self.found_instances@
    }

    #[verifier::type_invariant]
    spec fn type_inv(self) -> bool {
        self.found_instances.well_formed()
    }
}

impl Default for RevertsAndRequiresInLoopsDetector {
    /// A fresh detector with no findings.
    fn default() -> (r: Self)
        ensures
            r.spec_instances() == Seq::<InstanceEntry>::empty(),
    {
        RevertsAndRequiresInLoopsDetector { found_instances: InstanceMap::new() }
    }
}

impl IssueDetector for RevertsAndRequiresInLoopsDetector {
    /// Collects every `revert`/`require` identifier and captures those
    /// with a for- or while-statement among their ancestors.
    #[verifier::loop_isolation(false)]
    fn detect(&mut self, context: &WorkspaceContext) -> (r: Result<bool, DetectorError>)
        ensures
            final(self).spec_instances() == loops_outcome(
                *context,
                old(self).spec_instances(),
                context.spec_nodes_of_type(NodeType::Identifier),
                0,
            ),
            r == Result::<bool, DetectorError>::Ok(final(self).spec_instances().len() > 0),
    {
        proof {
            use_type_invariant(&*self);
        }
        let mut found = InstanceMap::new();
        core::mem::swap(&mut found, &mut self.found_instances);
        let ghost orig = found@;
        let identifiers = context.identifiers();
        let ghost ids = identifiers@;
        let mut i: usize = 0;
        while i < identifiers.len()
            invariant
                0 <= i <= ids.len(),
                found.well_formed(),
                loops_outcome(*context, found@, ids, i as int) == loops_outcome(
                    *context,
                    orig,
                    ids,
                    0,
                ),
            decreases ids.len() - i,
        {
            let id = identifiers[i];
            let is_match = match context.get(id) {
                Some(node) => match &node.body {
                    NodeBody::Identifier { name, .. } => *name == String::from_str("revert")
                        || *name == String::from_str("require"),
                    _ => false,
                },
                None => false,
            };
            if is_match {
                match context.closest_ancestor_of_type(id, NodeType::ForStatement) {
                    Some(_) => {
                        found.capture(context, id);
                    },
                    None => {},
                }
                match context.closest_ancestor_of_type(id, NodeType::WhileStatement) {
                    Some(_) => {
                        found.capture(context, id);
                    },
                    None => {},
                }
            }
            i = i + 1;
        }
        let found_any = !found.is_empty();
        self.found_instances = found;
        Ok(found_any)
    }

    /// This detector reports at the low tier.
    fn severity(&self) -> (r: IssueSeverity)
        ensures
            r == IssueSeverity::Low,
    {
        IssueSeverity::Low
    }

    /// The issue title.
    fn title(&self) -> (r: String)
        ensures
            r@ == "Loop contains `require`/`revert` statements"@,
    {
        String::from_str("Loop contains `require`/`revert` statements")
    }

    /// The issue description.
    fn description(&self) -> (r: String)
        ensures
            r@
                == "Avoid `require` / `revert` statements in a loop because a single bad item can cause the whole transaction to fail. It's better to forgive on fail and return failed elements post processing of the loop"@,
    {
        String::from_str(
            "Avoid `require` / `revert` statements in a loop because a single bad item can cause the whole transaction to fail. It's better to forgive on fail and return failed elements post processing of the loop",
        )
    }

    /// The findings captured so far.
    fn instances(&self) -> (r: InstanceMap)
        ensures
            r@ == self.spec_instances(),
    {
        proof {
            use_type_invariant(&*self);
        }
        self.found_instances.duplicate()
    }

    /// The registry name of this detector.
    fn name(&self) -> (r: String)
        ensures
            r@ == "reverts-and-requires-in-loops"@,
    {
        String::from_str("reverts-and-requires-in-loops")
    }
}

} // verus!
