//! Flags compiler-version pragmas that admit versions whose default
//! target emits the PUSH0 opcode, which not every chain supports.

use vstd::prelude::*;
use crate::ast::{NodeBody, NodeId, NodeType};
use crate::detector::{DetectorError, IssueDetector, IssueSeverity};
use crate::instances::{spec_capture, spec_sort_key, InstanceEntry, InstanceMap};
use crate::semver_req::{
    parse_version_requirement, req_comparators_of, spec_allows_above_0_8_19,
    version_req_allows_above_0_8_19,
};
use crate::strings::{contains_sub, spec_contains_sub};
use crate::workspace::WorkspaceContext;

verus! {

/// The requirement string a pragma's literal tokens assemble into, from
/// token `i` on, with `acc` already assembled: the `solidity` keyword is
/// skipped, a bare version gets a leading exact-match mark, and a second
/// bound gets a separating comma.
pub open spec fn version_string_rec(lits: Seq<Seq<char>>, i: int, acc: Seq<char>) -> Seq<char>
    decreases lits.len() - i,
{
    if i < 0 || i >= lits.len() {
        acc
    } else {
        let lit = lits[i];
        if lit == "solidity"@ {
            version_string_rec(lits, i + 1, acc)
        } else {
            let acc1 = if acc.len() == 0 && spec_contains_sub(lit, "0."@) {
                acc + "="@
            } else {
                acc
            };
            let acc2 = if acc1.len() > 5 && (lit == "<"@ || lit == "="@) {
                acc1 + ","@
            } else {
                acc1
            };
            version_string_rec(lits, i + 1, acc2 + lit)
        }
    }
}

/// The requirement string assembled from a pragma's literal tokens.
pub open spec fn spec_version_string(lits: Seq<Seq<char>>) -> Seq<char> {
    version_string_rec(lits, 0, Seq::empty())
}

/// The literal tokens of a pragma directive node; empty for anything
/// else.
pub open spec fn pragma_literals(ctx: WorkspaceContext, id: NodeId) -> Seq<Seq<char>> {
    if ctx.registered(id) {
        match ctx.node_map()[id].body {
            NodeBody::PragmaDirective { literals } => literals@.map_values(|s: String| s@),
            _ => Seq::empty(),
        }
    } else {
        Seq::empty()
    }
}

/// The outcome of scanning the pragma directives from index `i` on with
/// instance store `m`: the final store, and `Some(found)` on success or
/// `None` when some pragma's requirement string fails to parse (at which
/// point the scan aborts with the captures made so far).
pub open spec fn push0_outcome(
    ctx: WorkspaceContext,
    m: Seq<InstanceEntry>,
    ps: Seq<NodeId>,
    i: int,
) -> (Seq<InstanceEntry>, Option<bool>)
    decreases ps.len() - i,
{
    if i < 0 || i >= ps.len() {
        (m, Some(m.len() > 0))
    } else {
        let vs = spec_version_string(pragma_literals(ctx, ps[i]));
        match req_comparators_of(vs) {
            None => (m, None),
            Some(cs) => {
                let m1 = if spec_allows_above_0_8_19(cs) {
                    spec_capture(m, spec_sort_key(ctx, ps[i]), ps[i])
                } else {
                    m
                };
                push0_outcome(ctx, m1, ps, i + 1)
            },
        }
    }
}

/// Assembles the requirement string of one pragma's literal tokens.
#[verifier::loop_isolation(false)]
fn build_version_string(literals: &Vec<String>) -> (r: String)
    ensures
        r@ == spec_version_string(literals@.map_values(|s: String| s@)),
{
    let ghost lits = literals@.map_values(|s: String| s@);
    let mut acc = String::new();
    let mut i: usize = 0;
    while i < literals.len()
        invariant
            0 <= i <= literals@.len(),
            version_string_rec(lits, i as int, acc@) == version_string_rec(
                lits,
                0,
                Seq::<char>::empty(),
            ),
        decreases literals@.len() - i,
    {
        let lit = &literals[i];
        proof {
            assert(lits[i as int] == lit@);
        }
        if !(*lit == String::from_str("solidity")) {
            if acc.unicode_len() == 0 && contains_sub(lit.as_str(), "0.") {
                acc.append("=");
            }
            if acc.unicode_len() > 5 && (*lit == String::from_str("<") || *lit == String::from_str(
                "=",
            )) {
                acc.append(",");
            }
            acc.append(lit.as_str());
        }
        i = i + 1;
    }
    acc
}

/// Flags pragmas admitting compiler versions above 0.8.19.
pub struct PushZeroOpcodeDetector {
    found_instances: InstanceMap,
}

impl PushZeroOpcodeDetector {
    /// The findings captured so far.
    pub closed spec fn spec_instances(self) -> Seq<InstanceEntry> {
        self.found_instances@
    }

    #[verifier::type_invariant]
    spec fn type_inv(self) -> bool {
        self.found_instances.well_formed()
    }
}

impl Default for PushZeroOpcodeDetector {
    /// A fresh detector with no findings.
    fn default() -> (r: Self)
        ensures
            r.spec_instances() == Seq::<InstanceEntry>::empty(),
    {
        PushZeroOpcodeDetector { found_instances: InstanceMap::new() }
    }
}

impl IssueDetector for PushZeroOpcodeDetector {
    /// Scans every pragma directive: assembles its requirement string,
    /// parses it through the semver grammar, and captures the pragma
    /// when the requirement admits versions above 0.8.19.  A requirement
    /// the grammar rejects aborts this detector with the captures made
    /// so far.
    #[verifier::loop_isolation(false)]
    fn detect(&mut self, context: &WorkspaceContext) -> (r: Result<bool, DetectorError>)
        ensures
            ({
                let o = push0_outcome(
                    *context,
                    old(self).spec_instances(),
                    context.spec_nodes_of_type(NodeType::PragmaDirective),
                    0,
                );
                &&& final(self).spec_instances() == o.0
                &&& r == match o.1 {
                    Some(b) => Result::<bool, DetectorError>::Ok(b),
                    None => Result::<bool, DetectorError>::Err(
                        DetectorError::InvalidVersionRequirement,
                    ),
                }
            }),
    {
        proof {
            use_type_invariant(&*self);
        }
        let mut found = InstanceMap::new();
        core::mem::swap(&mut found, &mut self.found_instances);
        let ghost orig = found@;
        let pragmas = context.pragma_directives();
        let ghost ps = pragmas@;
        let mut i: usize = 0;
        while i < pragmas.len()
            invariant
                0 <= i <= ps.len(),
                found.well_formed(),
                push0_outcome(*context, found@, ps, i as int) == push0_outcome(
                    *context,
                    orig,
                    ps,
                    0,
                ),
            decreases ps.len() - i,
        {
            let p = pragmas[i];
            proof {
                crate::workspace::lemma_nodes_of_type_members(
                    *context,
                    NodeType::PragmaDirective,
                    i as int,
                );
            }
            let literals = match context.get(p) {
                Some(node) => match &node.body {
                    NodeBody::PragmaDirective { literals } => literals,
                    _ => vstd::pervasive::unreached(),
                },
                None => vstd::pervasive::unreached(),
            };
            proof {
                assert(literals@.map_values(|s: String| s@) == pragma_literals(*context, p));
            }
            let version_string = build_version_string(literals);
            match parse_version_requirement(version_string.as_str()) {
                None => {
                    self.found_instances = found;
                    return Err(DetectorError::InvalidVersionRequirement);
                },
                Some(comparators) => {
                    if version_req_allows_above_0_8_19(&comparators) {
                        found.capture(context, p);
                    }
                },
            }
            i = i + 1;
        }
        let found_any = !found.is_empty();
        self.found_instances = found;
        Ok(found_any)
    }

    /// This detector reports at the low tier.
    fn severity(&self) -> (r: IssueSeverity)
        ensures
            r == IssueSeverity::Low,
    {
        IssueSeverity::Low
    }

    /// The issue title.
    fn title(&self) -> (r: String)
        ensures
            r@ == "PUSH0 is not supported by all chains"@,
    {
        String::from_str("PUSH0 is not supported by all chains")
    }

    /// The issue description.
    fn description(&self) -> (r: String)
        ensures
            r@
                == "Solc compiler version 0.8.20 switches the default target EVM version to Shanghai, which means that the generated bytecode will include PUSH0 opcodes. Be sure to select the appropriate EVM version in case you intend to deploy on a chain other than mainnet like L2 chains that may not support PUSH0, otherwise deployment of your contracts will fail."@,
    {
        String::from_str(
            "Solc compiler version 0.8.20 switches the default target EVM version to Shanghai, which means that the generated bytecode will include PUSH0 opcodes. Be sure to select the appropriate EVM version in case you intend to deploy on a chain other than mainnet like L2 chains that may not support PUSH0, otherwise deployment of your contracts will fail.",
        )
    }

    /// The findings captured so far.
    fn instances(&self) -> (r: InstanceMap)
        ensures
            r@ == self.spec_instances(),
    {
        proof {
            use_type_invariant(&*self);
        }
        self.found_instances.duplicate()
    }

    /// The registry name of this detector.
    fn name(&self) -> (r: String)
        ensures
            r@ == "push-zero-opcode"@,
    {
        String::from_str("push-zero-opcode")
    }
}

} // verus!
