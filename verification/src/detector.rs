//! The detector engine contract: severity tiers, the pluggable-analysis
//! capability set, the enumerated detector registry, and the
//! severity-bucketed report model.

use vstd::prelude::*;
use crate::ast::{NodeId, NodeType};
use crate::instances::{spec_sort_key, InstanceEntry, InstanceMap};
use crate::workspace::WorkspaceContext;
use crate::push_zero_opcode::{push0_outcome, PushZeroOpcodeDetector};
use crate::requires_in_loops::{loops_outcome, RevertsAndRequiresInLoopsDetector};
use crate::zero_address_check::{
    spec_represented, spec_zero_address_triggers, ZeroAddressCheckDetector,
};

verus! {

/// The severity tier of an issue.
#[derive(Clone, Copy, PartialEq, Eq, Structural, Debug)]
pub enum IssueSeverity {
    NC,
    Low,
    Medium,
    High,
    Critical,
}

impl IssueSeverity {
    /// The display string of this tier.
    pub open spec fn spec_severity_string(self) -> Seq<char> {
        match self {
            IssueSeverity::NC => "NC (Non Critical)"@,
            IssueSeverity::Low => "Low"@,
            IssueSeverity::Medium => "Medium"@,
            IssueSeverity::High => "High"@,
            IssueSeverity::Critical => "Critical"@,
        }
    }

    /// The display string of this tier.
    pub fn severity_string(&self) -> (r: String)
        ensures
            r@ == self.spec_severity_string(),
    {
        match self {
            IssueSeverity::NC => String::from_str("NC (Non Critical)"),
            IssueSeverity::Low => String::from_str("Low"),
            IssueSeverity::Medium => String::from_str("Medium"),
            IssueSeverity::High => String::from_str("High"),
            IssueSeverity::Critical => String::from_str("Critical"),
        }
    }
}

/// A detector-local failure: it aborts only that detector's run.
#[derive(Clone, Copy, PartialEq, Eq, Structural, Debug)]
pub enum DetectorError {
    /// A pragma carried a version requirement the grammar rejects.
    InvalidVersionRequirement,
}

/// Failure to construct a detector from an unrecognized name.
#[derive(Clone, Copy, PartialEq, Eq, Structural, Debug)]
pub struct UnknownDetectorName;

/// The pluggable-analysis capability set.  `detect` walks the completed,
/// read-only registry and captures findings into the detector's own
/// instance store; the getters describe the detector.
pub trait IssueDetector {
    /// Runs the analysis; `Ok(true)` when at least one finding was
    /// captured, a `DetectorError` when this detector's run aborts
    /// (other detectors are unaffected).
    fn detect(&mut self, context: &WorkspaceContext) -> (r: Result<bool, DetectorError>)
        requires
            context.wf(),
    {
        Ok(true)
    }

    /// The severity tier this detector reports at.
    fn severity(&self) -> IssueSeverity {
        IssueSeverity::Medium
    }

    /// The issue title.
    fn title(&self) -> String {
        String::from_str("Title")
    }

    /// The issue description.
    fn description(&self) -> String {
        String::from_str("Description")
    }

    /// The registry name of this detector.
    fn name(&self) -> String {
        String::from_str("undecided")
    }

    /// The findings captured so far, keyed by (file, line, range).
    fn instances(&self) -> (r: InstanceMap)
        ensures
            r.well_formed(),
    {
        InstanceMap::new()
    }
}

/// A detector meant to be reused inside other detectors: it reports the
/// matching nodes instead of capturing instances.
pub trait ReusableDetector {
    /// Runs the reusable analysis over `using`, scoped to `within`,
    /// returning the matching node identities.
    fn detect(
        &mut self,
        context: &WorkspaceContext,
        using: &Vec<crate::ast::NodeId>,
        within: &Vec<crate::ast::NodeId>,
    ) -> (r: Result<Vec<crate::ast::NodeId>, DetectorError>)
        requires
            context.wf(),
    {
        Ok(Vec::new())
    }

    /// The registry name of this detector.
    fn name(&self) -> String {
        String::from_str("undecided")
    }
}

/// One detector of the enumerated registry.
pub enum AnyDetector {
    ZeroAddressCheck(ZeroAddressCheckDetector),
    PushZeroOpcode(PushZeroOpcodeDetector),
    RevertsAndRequiresInLoops(RevertsAndRequiresInLoopsDetector),
}

/// The severity a registry entry reports at.
pub open spec fn spec_any_severity(d: AnyDetector) -> IssueSeverity {
    match d {
        AnyDetector::ZeroAddressCheck(_) => IssueSeverity::NC,
        AnyDetector::PushZeroOpcode(_) => IssueSeverity::Low,
        AnyDetector::RevertsAndRequiresInLoops(_) => IssueSeverity::Low,
    }
}

/// The registry name of a registry entry.
pub open spec fn spec_any_name(d: AnyDetector) -> Seq<char> {
    match d {
        AnyDetector::ZeroAddressCheck(_) => "zero-address-check"@,
        AnyDetector::PushZeroOpcode(_) => "push-zero-opcode"@,
        AnyDetector::RevertsAndRequiresInLoops(_) => "reverts-and-requires-in-loops"@,
    }
}

/// The issue title a registry entry reports.
pub open spec fn spec_any_title(d: AnyDetector) -> Seq<char> {
    match d {
        AnyDetector::ZeroAddressCheck(_) => "Missing checks for `address(0)` when assigning values to address state variables"@,
        AnyDetector::PushZeroOpcode(_) => "PUSH0 is not supported by all chains"@,
        AnyDetector::RevertsAndRequiresInLoops(_) => "Loop contains `require`/`revert` statements"@,
    }
}

/// The issue description a registry entry reports.
pub open spec fn spec_any_description(d: AnyDetector) -> Seq<char> {
    match d {
        AnyDetector::ZeroAddressCheck(_) => "Check for `address(0)` when assigning values to address state variables."@,
        AnyDetector::PushZeroOpcode(_) => "Solc compiler version 0.8.20 switches the default target EVM version to Shanghai, which means that the generated bytecode will include PUSH0 opcodes. Be sure to select the appropriate EVM version in case you intend to deploy on a chain other than mainnet like L2 chains that may not support PUSH0, otherwise deployment of your contracts will fail."@,
        AnyDetector::RevertsAndRequiresInLoops(_) => "Avoid `require` / `revert` statements in a loop because a single bad item can cause the whole transaction to fail. It's better to forgive on fail and return failed elements post processing of the loop"@,
    }
}

/// The instance store of a registry entry.
pub open spec fn spec_any_instances(d: AnyDetector) -> Seq<InstanceEntry> {
    match d {
        AnyDetector::ZeroAddressCheck(x) => x.spec_instances(),
        AnyDetector::PushZeroOpcode(x) => x.spec_instances(),
        AnyDetector::RevertsAndRequiresInLoops(x) => x.spec_instances(),
    }
}

/// What one run leaves behind: the final instance store `post` and the
/// result `r` relate to the pre-state `pre` exactly as that variant's
/// own detect contract states.
pub open spec fn spec_detect_post(
    ctx: WorkspaceContext,
    pre: AnyDetector,
    post: Seq<InstanceEntry>,
    r: Result<bool, DetectorError>,
) -> bool {
    match pre {
        AnyDetector::ZeroAddressCheck(x) => {
            let om = x.spec_instances();
            &&& r == Result::<bool, DetectorError>::Ok(post.len() > 0)
            &&& (forall|j: int|
                0 <= j < post.len() ==> (exists|j2: int|
                    0 <= j2 < om.len() && om[j2] == (#[trigger] post[j])) || (
                spec_zero_address_triggers(ctx, post[j].1) && post[j].0 == spec_sort_key(
                    ctx,
                    post[j].1,
                )))
            &&& (forall|a: NodeId|
                #[trigger] spec_zero_address_triggers(ctx, a) ==> spec_represented(ctx, post, a))
        },
        AnyDetector::PushZeroOpcode(x) => {
            let o = push0_outcome(
                ctx,
                x.spec_instances(),
                ctx.spec_nodes_of_type(NodeType::PragmaDirective),
                0,
            );
            &&& post == o.0
            &&& r == match o.1 {
                Some(b) => Result::<bool, DetectorError>::Ok(b),
                None => Result::<bool, DetectorError>::Err(
                    DetectorError::InvalidVersionRequirement,
                ),
            }
        },
        AnyDetector::RevertsAndRequiresInLoops(x) => {
            &&& post == loops_outcome(
                ctx,
                x.spec_instances(),
                ctx.spec_nodes_of_type(NodeType::Identifier),
                0,
            )
            &&& r == Result::<bool, DetectorError>::Ok(post.len() > 0)
        },
    }
}

impl AnyDetector {
    /// Runs the wrapped detector: the result and the final store are the
    /// wrapped variant's own outcome, and the variant never changes.
    pub fn detect(&mut self, context: &WorkspaceContext) -> (r: Result<bool, DetectorError>)
        requires
            context.wf(),
        ensures
            (*final(self)) is ZeroAddressCheck <==> (*old(self)) is ZeroAddressCheck,
            (*final(self)) is PushZeroOpcode <==> (*old(self)) is PushZeroOpcode,
            (*final(self)) is RevertsAndRequiresInLoops <==> (*old(self)) is RevertsAndRequiresInLoops,
            spec_detect_post(*context, *old(self), spec_any_instances(*final(self)), r),
    {
        match self {
            AnyDetector::ZeroAddressCheck(x) => x.detect(context),
            AnyDetector::PushZeroOpcode(x) => x.detect(context),
            AnyDetector::RevertsAndRequiresInLoops(x) => x.detect(context),
        }
    }

    /// The wrapped detector's severity.
    pub fn severity(&self) -> (r: IssueSeverity)
        ensures
            r == spec_any_severity(*self),
    {
        match self {
            AnyDetector::ZeroAddressCheck(x) => x.severity(),
            AnyDetector::PushZeroOpcode(x) => x.severity(),
            AnyDetector::RevertsAndRequiresInLoops(x) => x.severity(),
        }
    }

    /// The wrapped detector's title.
    pub fn title(&self) -> (r: String)
        ensures
            r@ == spec_any_title(*self),
    {
        match self {
            AnyDetector::ZeroAddressCheck(x) => x.title(),
            AnyDetector::PushZeroOpcode(x) => x.title(),
            AnyDetector::RevertsAndRequiresInLoops(x) => x.title(),
        }
    }

    /// The wrapped detector's description.
    pub fn description(&self) -> (r: String)
        ensures
            r@ == spec_any_description(*self),
    {
        match self {
            AnyDetector::ZeroAddressCheck(x) => x.description(),
            AnyDetector::PushZeroOpcode(x) => x.description(),
            AnyDetector::RevertsAndRequiresInLoops(x) => x.description(),
        }
    }

    /// The wrapped detector's registry name.
    pub fn name(&self) -> (r: String)
        ensures
            r@ == spec_any_name(*self),
    {
        match self {
            AnyDetector::ZeroAddressCheck(x) => x.name(),
            AnyDetector::PushZeroOpcode(x) => x.name(),
            AnyDetector::RevertsAndRequiresInLoops(x) => x.name(),
        }
    }

    /// The wrapped detector's findings.
    pub fn instances(&self) -> (r: InstanceMap)
        ensures
            r@ == spec_any_instances(*self),
            r.well_formed(),
    {
        match self {
            AnyDetector::ZeroAddressCheck(x) => x.instances(),
            AnyDetector::PushZeroOpcode(x) => x.instances(),
            AnyDetector::RevertsAndRequiresInLoops(x) => x.instances(),
        }
    }
}

/// The enumerated registry: one fresh instance of every issue detector
/// this crate ships, in registry order.
pub fn get_all_issue_detectors() -> (r: Vec<AnyDetector>)
    ensures
        r@.len() == 3,
        r@[0] is ZeroAddressCheck && spec_any_instances(r@[0]) == Seq::<InstanceEntry>::empty(),
        r@[1] is PushZeroOpcode && spec_any_instances(r@[1]) == Seq::<InstanceEntry>::empty(),
        r@[2] is RevertsAndRequiresInLoops && spec_any_instances(r@[2]) == Seq::<
            InstanceEntry,
        >::empty(),
{
    let mut r: Vec<AnyDetector> = Vec::new();
    r.push(AnyDetector::ZeroAddressCheck(ZeroAddressCheckDetector::default()));
    r.push(AnyDetector::PushZeroOpcode(PushZeroOpcodeDetector::default()));
    r.push(AnyDetector::RevertsAndRequiresInLoops(RevertsAndRequiresInLoopsDetector::default()));
    r
}

/// The registry names of every issue detector this crate ships, in
/// registry order.
pub fn get_all_detectors_names() -> (r: Vec<String>)
    ensures
        r@.len() == 3,
        r@[0]@ == "zero-address-check"@,
        r@[1]@ == "push-zero-opcode"@,
        r@[2]@ == "reverts-and-requires-in-loops"@,
{
    let mut detectors = get_all_issue_detectors();
    let mut r: Vec<String> = Vec::new();
    let mut i: usize = 0;
    while i < detectors.len()
        invariant
            0 <= i <= detectors@.len(),
            r@.len() == i,
            forall|k: int| 0 <= k < i ==> (#[trigger] r@[k])@ == spec_any_name(detectors@[k]),
        decreases detectors@.len() - i,
    {
        r.push(detectors[i].name());
        i = i + 1;
    }
    r
}

/// Constructs the detector registered under `name`; an unrecognized or
/// placeholder name is a construction-time failure, not a deferred
/// panic.
pub fn get_issue_detector_by_name(detector_name: &str) -> (r: Result<
    AnyDetector,
    UnknownDetectorName,
>)
    ensures
        match r {
            Ok(d) => spec_any_name(d) == detector_name@ && spec_any_instances(d) == Seq::<
                InstanceEntry,
            >::empty(),
            Err(_) => detector_name@ != "zero-address-check"@ && detector_name@
                != "push-zero-opcode"@ && detector_name@ != "reverts-and-requires-in-loops"@,
        },
{
    let name = detector_name.to_owned();
    if name == String::from_str("zero-address-check") {
        Ok(AnyDetector::ZeroAddressCheck(ZeroAddressCheckDetector::default()))
    } else if name == String::from_str("push-zero-opcode") {
        Ok(AnyDetector::PushZeroOpcode(PushZeroOpcodeDetector::default()))
    } else if name == String::from_str("reverts-and-requires-in-loops") {
        Ok(AnyDetector::RevertsAndRequiresInLoops(RevertsAndRequiresInLoopsDetector::default()))
    } else {
        Err(UnknownDetectorName)
    }
}

/// One reported issue: detector metadata plus its captured instances.
pub struct Issue {
    pub title: String,
    pub description: String,
    pub detector_name: String,
    pub instances: InstanceMap,
}

/// The severity-bucketed result of a run.
pub struct Report {
    pub criticals: Vec<Issue>,
    pub highs: Vec<Issue>,
    pub mediums: Vec<Issue>,
    pub lows: Vec<Issue>,
    pub ncs: Vec<Issue>,
}

/// One issue's mathematical value: title, description, detector name
/// and instance store.
pub open spec fn issue_view(i: Issue) -> (Seq<char>, Seq<char>, Seq<char>, Seq<InstanceEntry>) {
    (i.title@, i.description@, i.detector_name@, i.instances@)
}

/// The issues a severity bucket holds after the first `n` detectors ran,
/// given each run's final store and result: one issue per succeeding
/// detector with a finding at that severity, in registry order, carrying
/// that detector's title, description, name and final store.
pub open spec fn spec_bucket(
    pre: Seq<AnyDetector>,
    posts: Seq<Seq<InstanceEntry>>,
    results: Seq<Result<bool, DetectorError>>,
    s: IssueSeverity,
    n: int,
) -> Seq<(Seq<char>, Seq<char>, Seq<char>, Seq<InstanceEntry>)>
    decreases n,
{
    if n <= 0 {
        Seq::empty()
    } else {
        spec_bucket(pre, posts, results, s, n - 1) + if results[n - 1] == Result::<
            bool,
            DetectorError,
        >::Ok(true) && spec_any_severity(pre[n - 1]) == s {
            seq![
                (
                    spec_any_title(pre[n - 1]),
                    spec_any_description(pre[n - 1]),
                    spec_any_name(pre[n - 1]),
                    posts[n - 1],
                ),
            ]
        } else {
            Seq::empty()
        }
    }
}

/// The names of the detectors whose runs failed among the first `n`, in
/// registry order.
pub open spec fn spec_failed_names(
    pre: Seq<AnyDetector>,
    results: Seq<Result<bool, DetectorError>>,
    n: int,
) -> Seq<Seq<char>>
    decreases n,
{
    if n <= 0 {
        Seq::empty()
    } else {
        spec_failed_names(pre, results, n - 1) + if results[n - 1] is Err {
            seq![spec_any_name(pre[n - 1])]
        } else {
            Seq::empty()
        }
    }
}

proof fn lemma_bucket_stable(
    pre: Seq<AnyDetector>,
    posts: Seq<Seq<InstanceEntry>>,
    results: Seq<Result<bool, DetectorError>>,
    p2: Seq<InstanceEntry>,
    r2: Result<bool, DetectorError>,
    s: IssueSeverity,
    n: int,
)
    requires
        0 <= n <= posts.len(),
        n <= results.len(),
    ensures
        spec_bucket(pre, posts.push(p2), results.push(r2), s, n) == spec_bucket(
            pre,
            posts,
            results,
            s,
            n,
        ),
    decreases n,
{
    if n > 0 {
        lemma_bucket_stable(pre, posts, results, p2, r2, s, n - 1);
        assert(posts.push(p2)[n - 1] == posts[n - 1]);
        assert(results.push(r2)[n - 1] == results[n - 1]);
    }
}

proof fn lemma_failed_stable(
    pre: Seq<AnyDetector>,
    results: Seq<Result<bool, DetectorError>>,
    r2: Result<bool, DetectorError>,
    n: int,
)
    requires
        0 <= n <= results.len(),
    ensures
        spec_failed_names(pre, results.push(r2), n) == spec_failed_names(pre, results, n),
    decreases n,
{
    if n > 0 {
        lemma_failed_stable(pre, results, r2, n - 1);
        assert(results.push(r2)[n - 1] == results[n - 1]);
    }
}

/// Runs every detector over the completed registry, isolating failures:
/// a failing detector is skipped and named in the second result, and the
/// remaining detectors still run.  There are per-detector outcomes,
/// each consistent with its detector's own contract, under which every
/// severity bucket holds exactly the issues of the succeeding detectors
/// with a finding at that severity, in registry order, and the failed
/// list exactly the names of the failing ones.
#[verifier::loop_isolation(false)]
#[verifier::rlimit(100)]
pub fn run_detectors(context: &WorkspaceContext, detectors: Vec<AnyDetector>) -> (r: (
    Report,
    Vec<String>,
))
    requires
        context.wf(),
    ensures
        exists|posts: Seq<Seq<InstanceEntry>>, results: Seq<Result<bool, DetectorError>>|
            {
                &&& posts.len() == detectors@.len()
                &&& results.len() == detectors@.len()
                &&& (forall|i: int|
                    0 <= i < detectors@.len() ==> spec_detect_post(
                        *context,
                        detectors@[i],
                        posts[i],
                        results[i],
                    ))
                &&& r.0.criticals@.map_values(|x: Issue| issue_view(x)) == #[trigger] spec_bucket(
                    detectors@,
                    posts,
                    results,
                    IssueSeverity::Critical,
                    detectors@.len() as int,
                )
                &&& r.0.highs@.map_values(|x: Issue| issue_view(x)) == spec_bucket(
                    detectors@,
                    posts,
                    results,
                    IssueSeverity::High,
                    detectors@.len() as int,
                )
                &&& r.0.mediums@.map_values(|x: Issue| issue_view(x)) == spec_bucket(
                    detectors@,
                    posts,
                    results,
                    IssueSeverity::Medium,
                    detectors@.len() as int,
                )
                &&& r.0.lows@.map_values(|x: Issue| issue_view(x)) == spec_bucket(
                    detectors@,
                    posts,
                    results,
                    IssueSeverity::Low,
                    detectors@.len() as int,
                )
                &&& r.0.ncs@.map_values(|x: Issue| issue_view(x)) == spec_bucket(
                    detectors@,
                    posts,
                    results,
                    IssueSeverity::NC,
                    detectors@.len() as int,
                )
                &&& r.1@.map_values(|s2: String| s2@) == spec_failed_names(detectors@, results, detectors@.len() as int)
            },
{
    let ghost dets0 = detectors@;
    let mut report = Report {
        criticals: Vec::new(),
        highs: Vec::new(),
        mediums: Vec::new(),
        lows: Vec::new(),
        ncs: Vec::new(),
    };
    let mut failed: Vec<String> = Vec::new();
    let mut ds = detectors;
    let ghost mut posts: Seq<Seq<InstanceEntry>> = Seq::empty();
    let ghost mut results: Seq<Result<bool, DetectorError>> = Seq::empty();
    let mut i: usize = 0;
    proof {
        assert(report.criticals@.map_values(|x: Issue| issue_view(x)) =~= spec_bucket(
            dets0,
            posts,
            results,
            IssueSeverity::Critical,
            0,
        ));
        assert(report.highs@.map_values(|x: Issue| issue_view(x)) =~= Seq::<
            (Seq<char>, Seq<char>, Seq<char>, Seq<InstanceEntry>),
        >::empty());
        assert(report.mediums@.map_values(|x: Issue| issue_view(x)) =~= Seq::<
            (Seq<char>, Seq<char>, Seq<char>, Seq<InstanceEntry>),
        >::empty());
        assert(report.lows@.map_values(|x: Issue| issue_view(x)) =~= Seq::<
            (Seq<char>, Seq<char>, Seq<char>, Seq<InstanceEntry>),
        >::empty());
        assert(report.ncs@.map_values(|x: Issue| issue_view(x)) =~= Seq::<
            (Seq<char>, Seq<char>, Seq<char>, Seq<InstanceEntry>),
        >::empty());
        assert(failed@.map_values(|s2: String| s2@) =~= Seq::<Seq<char>>::empty());
    }
    while i < ds.len()
        invariant
            0 <= i <= dets0.len(),
            ds@.len() == dets0.len(),
            forall|k: int| i <= k < dets0.len() ==> ds@[k] == dets0[k],
            posts.len() == i as int,
            results.len() == i as int,
            forall|k: int|
                0 <= k < i ==> spec_detect_post(*context, dets0[k], posts[k], results[k]),
            report.criticals@.map_values(|x: Issue| issue_view(x)) == spec_bucket(
                dets0,
                posts,
                results,
                IssueSeverity::Critical,
                i as int,
            ),
            report.highs@.map_values(|x: Issue| issue_view(x)) == spec_bucket(
                dets0,
                posts,
                results,
                IssueSeverity::High,
                i as int,
            ),
            report.mediums@.map_values(|x: Issue| issue_view(x)) == spec_bucket(
                dets0,
                posts,
                results,
                IssueSeverity::Medium,
                i as int,
            ),
            report.lows@.map_values(|x: Issue| issue_view(x)) == spec_bucket(
                dets0,
                posts,
                results,
                IssueSeverity::Low,
                i as int,
            ),
            report.ncs@.map_values(|x: Issue| issue_view(x)) == spec_bucket(
                dets0,
                posts,
                results,
                IssueSeverity::NC,
                i as int,
            ),
            failed@.map_values(|s2: String| s2@) == spec_failed_names(dets0, results, i as int),
        decreases dets0.len() - i,
    {
        let ghost pre = ds@[i as int];
        let outcome = {
            let d = &mut ds[i];
            d.detect(context)
        };
        let ghost post_store = spec_any_instances(ds@[i as int]);
        proof {
            assert(pre == dets0[i as int]);
            assert(spec_detect_post(*context, pre, post_store, outcome));
            lemma_bucket_stable(
                dets0,
                posts,
                results,
                post_store,
                outcome,
                IssueSeverity::Critical,
                i as int,
            );
            lemma_bucket_stable(
                dets0,
                posts,
                results,
                post_store,
                outcome,
                IssueSeverity::High,
                i as int,
            );
            lemma_bucket_stable(
                dets0,
                posts,
                results,
                post_store,
                outcome,
                IssueSeverity::Medium,
                i as int,
            );
            lemma_bucket_stable(
                dets0,
                posts,
                results,
                post_store,
                outcome,
                IssueSeverity::Low,
                i as int,
            );
            lemma_bucket_stable(
                dets0,
                posts,
                results,
                post_store,
                outcome,
                IssueSeverity::NC,
                i as int,
            );
            lemma_failed_stable(dets0, results, outcome, i as int);
            posts = posts.push(post_store);
            results = results.push(outcome);
        }
        let d = &ds[i];
        match outcome {
            Ok(true) => {
                let issue = Issue {
                    title: d.title(),
                    description: d.description(),
                    detector_name: d.name(),
                    instances: d.instances(),
                };
                proof {
                    assert(issue_view(issue) == (
                        spec_any_title(pre),
                        spec_any_description(pre),
                        spec_any_name(pre),
                        post_store,
                    ));
                }
                match d.severity() {
                    IssueSeverity::Critical => {
                        report.criticals.push(issue);
                        proof {
                            assert(report.criticals@.map_values(|x: Issue| issue_view(x)) =~= spec_bucket(
                                dets0,
                                posts,
                                results,
                                IssueSeverity::Critical,
                                i as int + 1,
                            ));
                        }
                    },
                    IssueSeverity::High => {
                        report.highs.push(issue);
                        proof {
                            assert(report.highs@.map_values(|x: Issue| issue_view(x)) =~= spec_bucket(
                                dets0,
                                posts,
                                results,
                                IssueSeverity::High,
                                i as int + 1,
                            ));
                        }
                    },
                    IssueSeverity::Medium => {
                        report.mediums.push(issue);
                        proof {
                            assert(report.mediums@.map_values(|x: Issue| issue_view(x)) =~= spec_bucket(
                                dets0,
                                posts,
                                results,
                                IssueSeverity::Medium,
                                i as int + 1,
                            ));
                        }
                    },
                    IssueSeverity::Low => {
                        report.lows.push(issue);
                        proof {
                            assert(report.lows@.map_values(|x: Issue| issue_view(x)) =~= spec_bucket(
                                dets0,
                                posts,
                                results,
                                IssueSeverity::Low,
                                i as int + 1,
                            ));
                        }
                    },
                    IssueSeverity::NC => {
                        report.ncs.push(issue);
                        proof {
                            assert(report.ncs@.map_values(|x: Issue| issue_view(x)) =~= spec_bucket(
                                dets0,
                                posts,
                                results,
                                IssueSeverity::NC,
                                i as int + 1,
                            ));
                        }
                    },
                }
            },
            Ok(false) => {},
            Err(_) => {
                failed.push(d.name());
                proof {
                    assert(failed@.map_values(|s2: String| s2@) =~= spec_failed_names(
                        dets0,
                        results,
                        i as int + 1,
                    ));
                }
            },
        }
        i = i + 1;
    }
    (report, failed)
}

} // verus!
