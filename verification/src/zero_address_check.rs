//! Flags assignments that store a function parameter into a mutable
//! address-typed state variable without a zero-address comparison on
//! that parameter anywhere in the function.

use vstd::prelude::*;
use crate::ast::{Mutability, NodeBody, NodeId, NodeType};
use crate::detector::{DetectorError, IssueDetector, IssueSeverity};
use crate::instances::{spec_sort_key, InstanceEntry, InstanceMap};
use crate::strings::{contains_sub, spec_contains_sub};
use crate::workspace::WorkspaceContext;

verus! {

/// Whether `v` declares a non-constant, mutable, address- or
/// contract-typed state variable.
pub open spec fn spec_is_mutable_address_state_var(ctx: WorkspaceContext, v: NodeId) -> bool {
    ctx.registered(v) && match ctx.node_map()[v].body {
        NodeBody::VariableDeclaration { constant, state_variable, mutability, type_string, .. } => {
            &&& !constant
            &&& mutability == Some(Mutability::Mutable)
            &&& state_variable
            &&& match type_string {
                Some(t) => spec_contains_sub(t@, "address"@) || spec_contains_sub(t@, "contract"@),
                None => false,
            }
        },
        _ => false,
    }
}

/// The declaration an identifier node references; 0 for other kinds.
pub open spec fn spec_ident_ref(ctx: WorkspaceContext, x: NodeId) -> NodeId {
    if ctx.registered(x) {
        match ctx.node_map()[x].body {
            NodeBody::Identifier { referenced_declaration, .. } => referenced_declaration,
            _ => 0,
        }
    } else {
        0
    }
}

/// The operator of a binary operation node; empty for other kinds.
pub open spec fn spec_binop_operator(ctx: WorkspaceContext, b: NodeId) -> Seq<char> {
    if ctx.registered(b) {
        match ctx.node_map()[b].body {
            NodeBody::BinaryOperation { operator, .. } => operator@,
            _ => Seq::empty(),
        }
    } else {
        Seq::empty()
    }
}

/// Whether declaration `d` is referenced by some identifier inside an
/// equality or inequality comparison within function `f`.
pub open spec fn spec_checked_in_binary(ctx: WorkspaceContext, f: NodeId, d: NodeId) -> bool {
    exists|b: NodeId, x: NodeId|
        {
            &&& #[trigger] ctx.matching_subtree(f, NodeType::BinaryOperation).contains(b)
            &&& (spec_binop_operator(ctx, b) == "=="@ || spec_binop_operator(ctx, b) == "!="@)
            &&& #[trigger] ctx.matching_subtree(b, NodeType::Identifier).contains(x)
            &&& spec_ident_ref(ctx, x) == d
        }
}

/// Whether the left-hand side of assignment `a` touches a mutable
/// address-typed state variable.
pub open spec fn spec_lhs_hits_state_var(ctx: WorkspaceContext, a: NodeId) -> bool {
    ctx.registered(a) && match ctx.node_map()[a].body {
        NodeBody::Assignment { left_hand_side, .. } => exists|x: NodeId|
            #[trigger] ctx.matching_subtree(left_hand_side, NodeType::Identifier).contains(x)
                && spec_is_mutable_address_state_var(ctx, spec_ident_ref(ctx, x)),
        _ => false,
    }
}

/// Whether declaration `d` is one of function `f`'s parameters.
pub open spec fn spec_is_parameter(ctx: WorkspaceContext, f: NodeId, d: NodeId) -> bool {
    ctx.registered(f) && match ctx.node_map()[f].body {
        NodeBody::FunctionDefinition { parameters, .. } => parameters@.contains(d),
        _ => false,
    }
}

/// Whether assignment `a` inside function `f` stores an unchecked
/// parameter into a mutable address-typed state variable: its left side
/// touches such a variable and some identifier on its right side names
/// a parameter of `f` never compared with `==`/`!=` in `f`.
pub open spec fn spec_unchecked_assignment_in(ctx: WorkspaceContext, f: NodeId, a: NodeId) -> bool {
    &&& ctx.matching_subtree(f, NodeType::Assignment).contains(a)
    &&& spec_lhs_hits_state_var(ctx, a)
    &&& match ctx.node_map()[a].body {
        NodeBody::Assignment { right_hand_side, .. } => exists|x: NodeId|
            #[trigger] ctx.matching_subtree(right_hand_side, NodeType::Identifier).contains(x)
                && !spec_checked_in_binary(ctx, f, spec_ident_ref(ctx, x)) && spec_is_parameter(
                ctx,
                f,
                spec_ident_ref(ctx, x),
            ),
        _ => false,
    }
}

/// Whether some registered function makes `a` an unchecked
/// parameter-to-state-variable assignment.
pub open spec fn spec_zero_address_triggers(ctx: WorkspaceContext, a: NodeId) -> bool {
    exists|f: NodeId|
        #[trigger] ctx.spec_nodes_of_type(NodeType::FunctionDefinition).contains(f)
            && spec_unchecked_assignment_in(ctx, f, a)
}

/// Whether a triggering assignment with this node's key stands in the
/// store.
pub open spec fn spec_represented(
    ctx: WorkspaceContext,
    m: Seq<InstanceEntry>,
    a: NodeId,
) -> bool {
    exists|j: int|
        0 <= j < m.len() && (#[trigger] m[j]).0 == spec_sort_key(ctx, a)
            && spec_zero_address_triggers(ctx, m[j].1)
}

/// Flags missing zero-address checks on assignments to address-typed
/// state variables.
pub struct ZeroAddressCheckDetector {
    mutable_address_state_variables: Vec<NodeId>,
    found_instances: InstanceMap,
}

impl ZeroAddressCheckDetector {
    /// The findings captured so far.
    pub closed spec fn spec_instances(self) -> Seq<InstanceEntry> {
        self.found_instances@
    }

    /// The mutable address-typed state variables the last run tracked.
    pub closed spec fn spec_state_variables(self) -> Seq<NodeId> {
        self.mutable_address_state_variables@
    }

    #[verifier::type_invariant]
    spec fn type_inv(self) -> bool {
        self.found_instances.well_formed()
    }
}

impl Default for ZeroAddressCheckDetector {
    /// A fresh detector with no findings.
    fn default() -> (r: Self)
        ensures
            r.spec_instances() == Seq::<InstanceEntry>::empty(),
            r.spec_state_variables() == Seq::<NodeId>::empty(),
    {
        ZeroAddressCheckDetector {
            mutable_address_state_variables: Vec::new(),
            found_instances: InstanceMap::new(),
        }
    }
}

/// Capture keeps every represented assignment represented: an overwrite
/// replaces the value under the same key with another triggering one.
proof fn lemma_capture_preserves_represented(
    ctx: WorkspaceContext,
    m: Seq<InstanceEntry>,
    v: NodeId,
    a: NodeId,
)
    requires
        crate::instances::keys_unique(m),
        spec_represented(ctx, m, a),
        spec_zero_address_triggers(ctx, v),
    ensures
        spec_represented(ctx, crate::instances::spec_capture(m, spec_sort_key(ctx, v), v), a),
{
    let k = spec_sort_key(ctx, v);
    let m2 = crate::instances::spec_capture(m, k, v);
    let j = choose|j: int|
        0 <= j < m.len() && (#[trigger] m[j]).0 == spec_sort_key(ctx, a)
            && spec_zero_address_triggers(ctx, m[j].1);
    if exists|i: int| 0 <= i < m.len() && (#[trigger] m[i]).0 == k {
        let i = choose|i: int| 0 <= i < m.len() && (#[trigger] m[i]).0 == k;
        assert(m2 == m.update(i, (k, v)));
        if j == i {
            assert(m2[j].0 == k && k == m[j].0);
            assert(spec_zero_address_triggers(ctx, m2[j].1));
        } else {
            assert(m2[j] == m[j]);
        }
    } else {
        assert(m2 == m.push((k, v)));
        assert(m2[j] == m[j]);
    }
}

proof fn lemma_push_contains(s: Seq<NodeId>, v: NodeId, x: NodeId)
    ensures
        s.contains(x) ==> s.push(v).contains(x),
{
    if s.contains(x) {
        let i = choose|i: int| 0 <= i < s.len() && s[i] == x;
        assert(s.push(v)[i] == x);
    }
}

/// Whether `v` holds `x`.
fn contains_id(v: &Vec<NodeId>, x: NodeId) -> (r: bool)
    ensures
        r == v@.contains(x),
{
    let mut i: usize = 0;
    while i < v.len()
        invariant
            0 <= i <= v@.len(),
            forall|q: int| 0 <= q < i ==> v@[q] != x,
        decreases v@.len() - i,
    {
        if v[i] == x {
            return true;
        }
        i = i + 1;
    }
    false
}

/// Whether `v` declares a mutable address-typed state variable.
fn is_mutable_address_state_var(ctx: &WorkspaceContext, v: NodeId) -> (r: bool)
    requires
        ctx.wf(),
    ensures
        r == spec_is_mutable_address_state_var(*ctx, v),
{
    match ctx.get(v) {
        Some(node) => match &node.body {
            NodeBody::VariableDeclaration { constant, state_variable, mutability, type_string, .. } => {
                let mutable = match mutability {
                    Some(Mutability::Mutable) => true,
                    _ => false,
                };
                let typed = match type_string {
                    Some(t) => contains_sub(t.as_str(), "address") || contains_sub(
                        t.as_str(),
                        "contract",
                    ),
                    None => false,
                };
                !*constant && mutable && *state_variable && typed
            },
            _ => false,
        },
        None => false,
    }
}

impl IssueDetector for ZeroAddressCheckDetector {
    /// For each function: gathers the declarations compared with
    /// `==`/`!=`, then captures every assignment whose left side touches
    /// a mutable address-typed state variable and whose right side names
    /// an uncompared parameter.  The contract pins both directions: only
    /// triggering assignments are captured (beyond what was already
    /// stored), and every triggering assignment is represented under its
    /// key.
    #[verifier::loop_isolation(false)]
    #[verifier::rlimit(100)]
    #[verifier::spinoff_prover]
    fn detect(&mut self, context: &WorkspaceContext) -> (r: Result<bool, DetectorError>)
        ensures
            ({
                let fm = final(self).spec_instances();
                let om = old(self).spec_instances();
                &&& r == Result::<bool, DetectorError>::Ok(fm.len() > 0)
                &&& forall|j: int|
                    0 <= j < fm.len() ==> (exists|j2: int|
                        0 <= j2 < om.len() && om[j2] == (#[trigger] fm[j])) || (
                    spec_zero_address_triggers(*context, fm[j].1) && fm[j].0 == spec_sort_key(
                        *context,
                        fm[j].1,
                    ))
                &&& forall|a: NodeId|
                    #[trigger] spec_zero_address_triggers(*context, a) ==> spec_represented(
                        *context,
                        fm,
                        a,
                    )
                &&& final(self).spec_state_variables() == context.spec_nodes_of_type(
                    NodeType::VariableDeclaration,
                ).filter(|v: NodeId| spec_is_mutable_address_state_var(*context, v))
            }),
    {
        proof {
            use_type_invariant(&*self);
        }
        let mut found = InstanceMap::new();
        core::mem::swap(&mut found, &mut self.found_instances);
        let ghost orig = found@;

        // the state variables worth tracking
        let ghost msv_pred = |v: NodeId| spec_is_mutable_address_state_var(*context, v);
        let var_decls = context.variable_declarations();
        let mut msv: Vec<NodeId> = Vec::new();
        let mut vi: usize = 0;
        while vi < var_decls.len()
            invariant
                0 <= vi <= var_decls@.len(),
                msv@ == var_decls@.subrange(0, vi as int).filter(msv_pred),
            decreases var_decls@.len() - vi,
        {
            let v = var_decls[vi];
            proof {
                let prefix = var_decls@.subrange(0, vi as int);
                let next = var_decls@.subrange(0, vi as int + 1);
                assert(next.drop_last() =~= prefix);
                assert(next.last() == v);
                reveal(Seq::filter);
                if msv_pred(v) {
                    assert(next.filter(msv_pred) =~= prefix.filter(msv_pred).push(v));
                } else {
                    assert(next.filter(msv_pred) =~= prefix.filter(msv_pred));
                }
            }
            if is_mutable_address_state_var(context, v) {
                msv.push(v);
            }
            vi = vi + 1;
        }
        proof {
            assert(var_decls@.subrange(0, var_decls@.len() as int) =~= var_decls@);
        }
        self.mutable_address_state_variables = msv;

        let funcs = context.function_definitions();
        let ghost fs = funcs@;
        let mut fi: usize = 0;
        while fi < funcs.len()
            invariant
                0 <= fi <= fs.len(),
                found.well_formed(),
                // soundness: every entry is inherited or a triggering capture
                forall|j: int|
                    0 <= j < found@.len() ==> (exists|j2: int|
                        0 <= j2 < orig.len() && orig[j2] == (#[trigger] found@[j])) || (
                    spec_zero_address_triggers(*context, found@[j].1) && found@[j].0
                        == spec_sort_key(*context, found@[j].1)),
                // completeness over the functions processed so far
                forall|a: NodeId, k: int|
                    0 <= k < fi && #[trigger] spec_unchecked_assignment_in(*context, fs[k], a)
                        ==> spec_represented(*context, found@, a),
        decreases fs.len() - fi,
        {
            let f = funcs[fi];
            proof {
                crate::workspace::lemma_nodes_of_type_members(
                    *context,
                    NodeType::FunctionDefinition,
                    fi as int,
                );
            }
            // declarations compared via == or != anywhere in this function
            let binops = context.extract_of_type(f, NodeType::BinaryOperation);
            let mut checked: Vec<NodeId> = Vec::new();
            let mut bi: usize = 0;
            while bi < binops.len()
                invariant
                    0 <= bi <= binops@.len(),
                    binops@ == context.matching_subtree(f, NodeType::BinaryOperation),
                    context.wf(),
                    context.registered(f),
                    forall|d: NodeId|
                        checked@.contains(d) ==> spec_checked_in_binary(*context, f, d),
                    forall|b: NodeId, x: NodeId|
                        ({
                            &&& #[trigger] context.matching_subtree(
                                f,
                                NodeType::BinaryOperation,
                            ).contains(b)
                            &&& exists|q: int| 0 <= q < bi && binops@[q] == b
                            &&& (spec_binop_operator(*context, b) == "=="@ || spec_binop_operator(
                                *context,
                                b,
                            ) == "!="@)
                            &&& #[trigger] context.matching_subtree(
                                b,
                                NodeType::Identifier,
                            ).contains(x)
                        }) ==> checked@.contains(spec_ident_ref(*context, x)),
                decreases binops@.len() - bi,
            {
                let b = binops[bi];
                let is_cmp = match context.get(b) {
                    Some(node) => match &node.body {
                        NodeBody::BinaryOperation { operator, .. } => *operator == String::from_str(
                            "==",
                        ) || *operator == String::from_str("!="),
                        _ => false,
                    },
                    None => false,
                };
                if is_cmp {
                    proof {
                        crate::workspace::lemma_matching_subtree_members(
                            *context,
                            f,
                            NodeType::BinaryOperation,
                            bi as int,
                        );
                    }
                    let idents = context.extract_of_type(b, NodeType::Identifier);
                    let mut xi: usize = 0;
                    while xi < idents.len()
                        invariant
                            0 <= xi <= idents@.len(),
                            idents@ == context.matching_subtree(b, NodeType::Identifier),
                            context.wf(),
                            context.registered(f),
                            context.registered(b),
                            context.matching_subtree(f, NodeType::BinaryOperation).contains(b),
                            spec_binop_operator(*context, b) == "=="@ || spec_binop_operator(
                                *context,
                                b,
                            ) == "!="@,
                            forall|d: NodeId|
                                checked@.contains(d) ==> spec_checked_in_binary(*context, f, d),
                            forall|x: NodeId|
                                (#[trigger] context.matching_subtree(
                                    b,
                                    NodeType::Identifier,
                                ).contains(x) && exists|q: int| 0 <= q < xi && idents@[q] == x)
                                    ==> checked@.contains(spec_ident_ref(*context, x)),
                            forall|b2: NodeId, x2: NodeId|
                                ({
                                    &&& #[trigger] context.matching_subtree(
                                        f,
                                        NodeType::BinaryOperation,
                                    ).contains(b2)
                                    &&& exists|q: int| 0 <= q < bi && binops@[q] == b2
                                    &&& (spec_binop_operator(*context, b2) == "=="@
                                        || spec_binop_operator(*context, b2) == "!="@)
                                    &&& #[trigger] context.matching_subtree(
                                        b2,
                                        NodeType::Identifier,
                                    ).contains(x2)
                                }) ==> checked@.contains(spec_ident_ref(*context, x2)),
                        decreases idents@.len() - xi,
                    {
                        let x = idents[xi];
                        proof {
                            crate::workspace::lemma_matching_subtree_members(
                                *context,
                                b,
                                NodeType::Identifier,
                                xi as int,
                            );
                        }
                        let d = match context.get(x) {
                            Some(node) => match &node.body {
                                NodeBody::Identifier { referenced_declaration, .. } => *referenced_declaration,
                                _ => 0,
                            },
                            None => 0,
                        };
                        let ghost prev = checked@;
                        checked.push(d);
                        proof {
                            assert(spec_ident_ref(*context, x) == d);
                            assert(spec_checked_in_binary(*context, f, d));
                            assert forall|x2: NodeId|
                                (#[trigger] context.matching_subtree(
                                    b,
                                    NodeType::Identifier,
                                ).contains(x2) && exists|q: int|
                                    0 <= q < xi + 1 && idents@[q] == x2) implies checked@.contains(
                                spec_ident_ref(*context, x2),
                            ) by {
                                let q = choose|q: int| 0 <= q < xi + 1 && idents@[q] == x2;
                                let d2 = spec_ident_ref(*context, x2);
                                if q < xi {
                                    assert(exists|q2: int| 0 <= q2 < xi && idents@[q2] == x2);
                                    assert(prev.contains(d2));
                                    let w = choose|w: int| 0 <= w < prev.len() && prev[w] == d2;
                                    assert(checked@[w] == d2);
                                } else {
                                    assert(x2 == x);
                                    assert(checked@[checked@.len() - 1] == d2);
                                }
                            }
                            assert forall|d3: NodeId| checked@.contains(d3) implies
                                spec_checked_in_binary(*context, f, d3) by {
                                let w = choose|w: int| 0 <= w < checked@.len() && checked@[w] == d3;
                                if w < checked@.len() - 1 {
                                    assert(prev[w] == d3);
                                    assert(prev.contains(d3));
                                }
                            }
                            assert forall|b2: NodeId, x2: NodeId|
                                ({
                                    &&& #[trigger] context.matching_subtree(
                                        f,
                                        NodeType::BinaryOperation,
                                    ).contains(b2)
                                    &&& exists|q: int| 0 <= q < bi && binops@[q] == b2
                                    &&& (spec_binop_operator(*context, b2) == "=="@
                                        || spec_binop_operator(*context, b2) == "!="@)
                                    &&& #[trigger] context.matching_subtree(
                                        b2,
                                        NodeType::Identifier,
                                    ).contains(x2)
                                }) implies checked@.contains(spec_ident_ref(*context, x2)) by {
                                assert(prev.contains(spec_ident_ref(*context, x2)));
                                lemma_push_contains(prev, d, spec_ident_ref(*context, x2));
                            }
                        }
                        xi = xi + 1;
                    }
                }
                proof {
                    assert forall|b2: NodeId, x2: NodeId|
                        ({
                            &&& #[trigger] context.matching_subtree(
                                f,
                                NodeType::BinaryOperation,
                            ).contains(b2)
                            &&& exists|q: int| 0 <= q < bi + 1 && binops@[q] == b2
                            &&& (spec_binop_operator(*context, b2) == "=="@ || spec_binop_operator(
                                *context,
                                b2,
                            ) == "!="@)
                            &&& #[trigger] context.matching_subtree(
                                b2,
                                NodeType::Identifier,
                            ).contains(x2)
                        }) implies checked@.contains(spec_ident_ref(*context, x2)) by {
                        let q = choose|q: int| 0 <= q < bi + 1 && binops@[q] == b2;
                        if q == bi as int {
                            assert(b2 == b);
                            let w = choose|w: int|
                                0 <= w < context.matching_subtree(
                                    b2,
                                    NodeType::Identifier,
                                ).len() && context.matching_subtree(b2, NodeType::Identifier)[w]
                                    == x2;
                        } else {
                            assert(exists|q2: int| 0 <= q2 < bi && binops@[q2] == b2);
                        }
                    }
                }
                bi = bi + 1;
            }
            // assignments whose left side touches a tracked state variable
            let asgns = context.extract_of_type(f, NodeType::Assignment);
            let mut ai: usize = 0;
            while ai < asgns.len()
                invariant
                    0 <= ai <= asgns@.len(),
                    asgns@ == context.matching_subtree(f, NodeType::Assignment),
                    context.wf(),
                    context.registered(f),
                    found.well_formed(),
                    forall|d: NodeId|
                        checked@.contains(d) ==> spec_checked_in_binary(*context, f, d),
                    forall|b: NodeId, x: NodeId|
                        ({
                            &&& #[trigger] context.matching_subtree(
                                f,
                                NodeType::BinaryOperation,
                            ).contains(b)
                            &&& (spec_binop_operator(*context, b) == "=="@ || spec_binop_operator(
                                *context,
                                b,
                            ) == "!="@)
                            &&& #[trigger] context.matching_subtree(
                                b,
                                NodeType::Identifier,
                            ).contains(x)
                        }) ==> checked@.contains(spec_ident_ref(*context, x)),
                    forall|j: int|
                        0 <= j < found@.len() ==> (exists|j2: int|
                            0 <= j2 < orig.len() && orig[j2] == (#[trigger] found@[j])) || (
                        spec_zero_address_triggers(*context, found@[j].1) && found@[j].0
                            == spec_sort_key(*context, found@[j].1)),
                    forall|a: NodeId, k: int|
                        0 <= k < fi && #[trigger] spec_unchecked_assignment_in(*context, fs[k], a)
                            ==> spec_represented(*context, found@, a),
                    forall|q: int|
                        0 <= q < ai && spec_unchecked_assignment_in(
                            *context,
                            f,
                            #[trigger] asgns@[q],
                        ) ==> spec_represented(*context, found@, asgns@[q]),
                decreases asgns@.len() - ai,
            {
                let a = asgns[ai];
                proof {
                    crate::workspace::lemma_matching_subtree_members(
                        *context,
                        f,
                        NodeType::Assignment,
                        ai as int,
                    );
                }
                let (lhs, rhs) = match context.get(a) {
                    Some(node) => match &node.body {
                        NodeBody::Assignment { left_hand_side, right_hand_side, .. } => (
                            *left_hand_side,
                            *right_hand_side,
                        ),
                        _ => vstd::pervasive::unreached(),
                    },
                    None => vstd::pervasive::unreached(),
                };
                proof {
                    assert(context.node_map()[a].body.spec_children() =~= seq![lhs, rhs]);
                    assert(context.node_map()[a].body.spec_children()[0] == lhs);
                    assert(context.node_map()[a].body.spec_children()[1] == rhs);
                    context.lemma_wf_child(a, 0);
                    context.lemma_wf_child(a, 1);
                }
                // does the left side touch a tracked state variable?
                let lhs_ids = context.extract_of_type(lhs, NodeType::Identifier);
                let mut hit = false;
                let mut li: usize = 0;
                while li < lhs_ids.len()
                    invariant
                        0 <= li <= lhs_ids@.len(),
                        lhs_ids@ == context.matching_subtree(lhs, NodeType::Identifier),
                        context.wf(),
                        hit ==> spec_lhs_hits_state_var(*context, a),
                        !hit ==> forall|q: int|
                            0 <= q < li ==> !spec_is_mutable_address_state_var(
                                *context,
                                spec_ident_ref(*context, #[trigger] lhs_ids@[q]),
                            ),
                        context.registered(a),
                        context.node_map()[a].body matches NodeBody::Assignment {
                            left_hand_side,
                            ..
                        } && left_hand_side == lhs,
                    decreases lhs_ids@.len() - li,
                {
                    let x = lhs_ids[li];
                    proof {
                        crate::workspace::lemma_matching_subtree_members(
                            *context,
                            lhs,
                            NodeType::Identifier,
                            li as int,
                        );
                    }
                    let d = match context.get(x) {
                        Some(node) => match &node.body {
                            NodeBody::Identifier { referenced_declaration, .. } => *referenced_declaration,
                            _ => 0,
                        },
                        None => 0,
                    };
                    if is_mutable_address_state_var(context, d) {
                        proof {
                            assert(spec_ident_ref(*context, x) == d);
                        }
                        hit = true;
                    }
                    li = li + 1;
                }
                proof {
                    if !hit && spec_lhs_hits_state_var(*context, a) {
                        let x = choose|x: NodeId|
                            #[trigger] context.matching_subtree(
                                lhs,
                                NodeType::Identifier,
                            ).contains(x) && spec_is_mutable_address_state_var(
                                *context,
                                spec_ident_ref(*context, x),
                            );
                        let q = choose|q: int| 0 <= q < lhs_ids@.len() && lhs_ids@[q] == x;
                        assert(!spec_is_mutable_address_state_var(
                            *context,
                            spec_ident_ref(*context, lhs_ids@[q]),
                        ));
                    }
                    assert(hit == spec_lhs_hits_state_var(*context, a));
                }
                if hit {
                    let params: Vec<NodeId> = match context.get(f) {
                        Some(node) => match &node.body {
                            NodeBody::FunctionDefinition { parameters, .. } => {
                                let mut ps: Vec<NodeId> = Vec::new();
                                let mut pi: usize = 0;
                                while pi < parameters.len()
                                    invariant
                                        0 <= pi <= parameters@.len(),
                                        ps@ == parameters@.subrange(0, pi as int),
                                    decreases parameters@.len() - pi,
                                {
                                    ps.push(parameters[pi]);
                                    proof {
                                        assert(ps@ =~= parameters@.subrange(0, pi as int + 1));
                                    }
                                    pi = pi + 1;
                                }
                                proof {
                                    assert(ps@ =~= parameters@);
                                }
                                ps
                            },
                            _ => vstd::pervasive::unreached(),
                        },
                        None => vstd::pervasive::unreached(),
                    };
                    let rhs_ids = context.extract_of_type(rhs, NodeType::Identifier);
                    let mut ri: usize = 0;
                    while ri < rhs_ids.len()
                        invariant
                            0 <= ri <= rhs_ids@.len(),
                            rhs_ids@ == context.matching_subtree(rhs, NodeType::Identifier),
                            context.wf(),
                            found.well_formed(),
                            context.registered(f),
                            context.registered(a),
                            context.matching_subtree(f, NodeType::Assignment).contains(a),
                            spec_lhs_hits_state_var(*context, a),
                            context.node_map()[a].body matches NodeBody::Assignment {
                                right_hand_side,
                                ..
                            } && right_hand_side == rhs,
                            forall|d: NodeId|
                                params@.contains(d) <==> spec_is_parameter(*context, f, d),
                            forall|d: NodeId|
                                checked@.contains(d) ==> spec_checked_in_binary(*context, f, d),
                            forall|b: NodeId, x: NodeId|
                                ({
                                    &&& #[trigger] context.matching_subtree(
                                        f,
                                        NodeType::BinaryOperation,
                                    ).contains(b)
                                    &&& (spec_binop_operator(*context, b) == "=="@
                                        || spec_binop_operator(*context, b) == "!="@)
                                    &&& #[trigger] context.matching_subtree(
                                        b,
                                        NodeType::Identifier,
                                    ).contains(x)
                                }) ==> checked@.contains(spec_ident_ref(*context, x)),
                            forall|j: int|
                                0 <= j < found@.len() ==> (exists|j2: int|
                                    0 <= j2 < orig.len() && orig[j2] == (#[trigger] found@[j]))
                                    || (spec_zero_address_triggers(*context, found@[j].1)
                                    && found@[j].0 == spec_sort_key(*context, found@[j].1)),
                            forall|a2: NodeId, k: int|
                                0 <= k < fi && #[trigger] spec_unchecked_assignment_in(
                                    *context,
                                    fs[k],
                                    a2,
                                ) ==> spec_represented(*context, found@, a2),
                            forall|q: int|
                                0 <= q < ai && spec_unchecked_assignment_in(
                                    *context,
                                    f,
                                    #[trigger] asgns@[q],
                                ) ==> spec_represented(*context, found@, asgns@[q]),
                            forall|x: NodeId|
                                (#[trigger] context.matching_subtree(
                                    rhs,
                                    NodeType::Identifier,
                                ).contains(x) && (exists|q: int| 0 <= q < ri && rhs_ids@[q] == x)
                                    && !spec_checked_in_binary(
                                    *context,
                                    f,
                                    spec_ident_ref(*context, x),
                                ) && spec_is_parameter(*context, f, spec_ident_ref(*context, x)))
                                    ==> spec_represented(*context, found@, a),
                        decreases rhs_ids@.len() - ri,
                    {
                        let x = rhs_ids[ri];
                        proof {
                            crate::workspace::lemma_matching_subtree_members(
                                *context,
                                rhs,
                                NodeType::Identifier,
                                ri as int,
                            );
                        }
                        let d = match context.get(x) {
                            Some(node) => match &node.body {
                                NodeBody::Identifier { referenced_declaration, .. } => *referenced_declaration,
                                _ => 0,
                            },
                            None => 0,
                        };
                        proof {
                            assert(spec_ident_ref(*context, x) == d);
                        }
                        if !contains_id(&checked, d) && contains_id(&params, d) {
                            proof {
                                assert(!spec_checked_in_binary(*context, f, d)) by {
                                    if spec_checked_in_binary(*context, f, d) {
                                        assert(checked@.contains(d));
                                    }
                                }
                                assert(spec_unchecked_assignment_in(*context, f, a));
                                assert(spec_zero_address_triggers(*context, a)) by {
                                    assert(context.spec_nodes_of_type(
                                        NodeType::FunctionDefinition,
                                    ).contains(f)) by {
                                        assert(fs[fi as int] == f);
                                    }
                                }
                            }
                            let ghost m0 = found@;
                            found.capture(context, a);
                            proof {
                                let k = spec_sort_key(*context, a);
                                // soundness: the new store inherits or captures
                                assert forall|j: int| 0 <= j < found@.len() implies (exists|
                                    j2: int,
                                |
                                    0 <= j2 < orig.len() && orig[j2] == (#[trigger] found@[j])) || (
                                spec_zero_address_triggers(*context, found@[j].1) && found@[j].0
                                    == spec_sort_key(*context, found@[j].1)) by {
                                    if exists|i2: int|
                                        0 <= i2 < m0.len() && (#[trigger] m0[i2]).0 == k {
                                        let i2 = choose|i2: int|
                                            0 <= i2 < m0.len() && (#[trigger] m0[i2]).0 == k;
                                        assert(found@ == m0.update(i2, (k, a)));
                                        if j != i2 {
                                            assert(found@[j] == m0[j]);
                                        }
                                    } else {
                                        assert(found@ == m0.push((k, a)));
                                        if j < m0.len() {
                                            assert(found@[j] == m0[j]);
                                        }
                                    }
                                }
                                // representation of the current assignment
                                assert(spec_represented(*context, found@, a)) by {
                                    if exists|i2: int|
                                        0 <= i2 < m0.len() && (#[trigger] m0[i2]).0 == k {
                                        let i2 = choose|i2: int|
                                            0 <= i2 < m0.len() && (#[trigger] m0[i2]).0 == k;
                                        assert(found@ == m0.update(i2, (k, a)));
                                        assert(found@[i2].0 == k);
                                        assert(spec_zero_address_triggers(*context, found@[i2].1));
                                    } else {
                                        assert(found@ == m0.push((k, a)));
                                        assert(found@[m0.len() as int].0 == k);
                                    }
                                }
                                // previously represented assignments stay represented
                                assert forall|a2: NodeId, kk: int|
                                    0 <= kk < fi && #[trigger] spec_unchecked_assignment_in(
                                        *context,
                                        fs[kk],
                                        a2,
                                    ) implies spec_represented(*context, found@, a2) by {
                                    lemma_capture_preserves_represented(*context, m0, a, a2);
                                }
                                assert forall|q: int|
                                    0 <= q < ai && spec_unchecked_assignment_in(
                                        *context,
                                        f,
                                        #[trigger] asgns@[q],
                                    ) implies spec_represented(*context, found@, asgns@[q]) by {
                                    lemma_capture_preserves_represented(
                                        *context,
                                        m0,
                                        a,
                                        asgns@[q],
                                    );
                                }
                                assert forall|x2: NodeId|
                                    (#[trigger] context.matching_subtree(
                                        rhs,
                                        NodeType::Identifier,
                                    ).contains(x2) && (exists|q: int|
                                        0 <= q < ri && rhs_ids@[q] == x2)
                                        && !spec_checked_in_binary(
                                        *context,
                                        f,
                                        spec_ident_ref(*context, x2),
                                    ) && spec_is_parameter(
                                        *context,
                                        f,
                                        spec_ident_ref(*context, x2),
                                    )) implies spec_represented(*context, found@, a) by {}
                            }
                        }
                        ri = ri + 1;
                    }
                }
                proof {
                    assert forall|q: int|
                        0 <= q < ai + 1 && spec_unchecked_assignment_in(
                            *context,
                            f,
                            #[trigger] asgns@[q],
                        ) implies spec_represented(*context, found@, asgns@[q]) by {
                        if q == ai as int && spec_unchecked_assignment_in(*context, f, asgns@[q]) {
                            assert(asgns@[q] == a);
                            assert(spec_represented(*context, found@, a));
                        }
                    }
                }
                ai = ai + 1;
            }
            proof {
                assert forall|a2: NodeId, k: int|
                    0 <= k < fi + 1 && #[trigger] spec_unchecked_assignment_in(
                        *context,
                        fs[k],
                        a2,
                    ) implies spec_represented(*context, found@, a2) by {
                    if k == fi as int {
                        assert(fs[k] == f);
                        assert(context.matching_subtree(f, NodeType::Assignment).contains(a2));
                        let q = choose|q: int| 0 <= q < asgns@.len() && asgns@[q] == a2;
                        assert(spec_unchecked_assignment_in(*context, f, asgns@[q]));
                    }
                }
            }
            fi = fi + 1;
        }
        proof {
            assert forall|a: NodeId| #[trigger]
                spec_zero_address_triggers(*context, a) implies spec_represented(
                *context,
                found@,
                a,
            ) by {
                let f = choose|f: NodeId|
                    #[trigger] context.spec_nodes_of_type(
                        NodeType::FunctionDefinition,
                    ).contains(f) && spec_unchecked_assignment_in(*context, f, a);
                let k = choose|k: int| 0 <= k < fs.len() && fs[k] == f;
                assert(spec_unchecked_assignment_in(*context, fs[k], a));
            }
        }
        let found_any = !found.is_empty();
        proof {
            assert(orig == old(self).spec_instances());
            assert(forall|j: int|
                0 <= j < found@.len() ==> (exists|j2: int|
                    0 <= j2 < orig.len() && orig[j2] == (#[trigger] found@[j])) || (
                spec_zero_address_triggers(*context, found@[j].1) && found@[j].0 == spec_sort_key(
                    *context,
                    found@[j].1,
                )));
            assert(forall|a: NodeId|
                #[trigger] spec_zero_address_triggers(*context, a) ==> spec_represented(
                    *context,
                    found@,
                    a,
                ));
            assert(found_any == (found@.len() > 0));
        }
        self.found_instances = found;
        Ok(found_any)
    }

    /// The issue title.
    fn title(&self) -> (r: String)
        ensures
            r@ == "Missing checks for `address(0)` when assigning values to address state variables"@,
    {
        String::from_str(
            "Missing checks for `address(0)` when assigning values to address state variables",
        )
    }

    /// The issue description.
    fn description(&self) -> (r: String)
        ensures
            r@ == "Check for `address(0)` when assigning values to address state variables."@,
    {
        String::from_str("Check for `address(0)` when assigning values to address state variables.")
    }

    /// This detector reports at the non-critical tier.
    fn severity(&self) -> (r: IssueSeverity)
        ensures
            r == IssueSeverity::NC,
    {
        IssueSeverity::NC
    }

    /// The findings captured so far.
    fn instances(&self) -> (r: InstanceMap)
        ensures
            r@ == self.spec_instances(),
    {
        proof {
            use_type_invariant(&*self);
        }
        self.found_instances.duplicate()
    }

    /// The registry name of this detector.
    fn name(&self) -> (r: String)
        ensures
            r@ == "zero-address-check"@,
    {
        String::from_str("zero-address-check")
    }
}

} // verus!
