//! Pure, explicit candidate resolution for the authoritative analysis path.
//!
//! Resolution never reads or transforms source plaintext. It canonicalizes a
//! caller-provided candidate collection, applies one named versioned policy,
//! and returns a separate report containing resolved output and bounded
//! non-plaintext decision evidence.
use vstd::prelude::*;

use crate::document::{BindingView, DocumentBinding};
use crate::finding::{opt_binding_view, EvidenceView, Finding, FindingView};
use crate::order::{compare_int, compare_text, lex_bytes, stable_sort, then, Order};
use crate::types::{Confidence, EntityId, RecognizerId, Span};

verus! {

/// Version shared by the first accepted resolution-policy contracts.
pub const RESOLUTION_POLICY_VERSION_V1: u16 = 1;
/// Default maximum number of input candidates accepted by the resolver.
pub const DEFAULT_RESOLUTION_CANDIDATE_LIMIT: usize = 10_000;
/// Default maximum number of resolved outputs produced by the resolver.
pub const DEFAULT_RESOLUTION_OUTPUT_LIMIT: usize = 10_000;
/// Default maximum number of detailed resolution decisions retained.
pub const DEFAULT_RESOLUTION_DECISION_LIMIT: usize = 10_000;

/// A named candidate-resolution policy.
#[derive(Debug, Clone, Copy, PartialEq, Eq, Structural)]
#[non_exhaustive]
pub enum ResolutionPolicy {
    /// Preserve every qualifying candidate without overlap elimination.
    ReportAll,
    /// Select a deterministic non-overlapping candidate set.
    BestCandidate,
    /// Union every connected strict-overlap component for coverage-safe redaction.
    ConservativeRedaction,
}

/// Stable identifier of each policy.
pub open spec fn policy_id(p: ResolutionPolicy) -> Seq<char> {
    match p {
        ResolutionPolicy::ReportAll => seq!['r', 'e', 'p', 'o', 'r', 't', '_', 'a', 'l', 'l'],
        ResolutionPolicy::BestCandidate => seq![
            'b', 'e', 's', 't', '_', 'c', 'a', 'n', 'd', 'i', 'd', 'a', 't', 'e',
        ],
        ResolutionPolicy::ConservativeRedaction => seq![
            'c', 'o', 'n', 's', 'e', 'r', 'v', 'a', 't', 'i', 'v', 'e', '_', 'r', 'e', 'd',
            'a', 'c', 't', 'i', 'o', 'n',
        ],
    }
}

impl ResolutionPolicy {
    /// Stable policy identifier.
    pub fn id(self) -> (r: &'static str)
        ensures
            r@ == policy_id(self),
    {
        match self {
            ResolutionPolicy::ReportAll => {
                proof {
                    reveal_strlit("report_all");
                    assert("report_all"@ =~= policy_id(self));
                }
                "report_all"
            },
            ResolutionPolicy::BestCandidate => {
                proof {
                    reveal_strlit("best_candidate");
                    assert("best_candidate"@ =~= policy_id(self));
                }
                "best_candidate"
            },
            ResolutionPolicy::ConservativeRedaction => {
                proof {
                    reveal_strlit("conservative_redaction");
                    assert("conservative_redaction"@ =~= policy_id(self));
                }
                "conservative_redaction"
            },
        }
    }

    /// Stable semantic version for this policy contract.
    pub fn version(self) -> (r: u16)
        ensures
            r == RESOLUTION_POLICY_VERSION_V1,
    {
        RESOLUTION_POLICY_VERSION_V1
    }
}

/// Abstract content of [`ResolutionOptions`].
pub struct OptionsView {
    pub policy: ResolutionPolicy,
    pub minimum_confidence: Confidence,
    pub max_candidates: usize,
    pub max_resolved: usize,
    pub max_decisions: usize,
    pub entity_priority: Seq<Seq<char>>,
    pub recognizer_priority: Seq<Seq<char>>,
}

/// Bounded configuration for one resolution execution.
#[derive(Debug, PartialEq)]
pub struct ResolutionOptions {
    policy: ResolutionPolicy,
    minimum_confidence: Confidence,
    max_candidates: usize,
    max_resolved: usize,
    max_decisions: usize,
    entity_priority: Vec<EntityId>,
    recognizer_priority: Vec<RecognizerId>,
}

pub open spec fn entity_views(v: Seq<EntityId>) -> Seq<Seq<char>> {
    v.map_values(|e: EntityId| e@)
}

pub open spec fn recognizer_views(v: Seq<RecognizerId>) -> Seq<Seq<char>> {
    v.map_values(|e: RecognizerId| e@)
}

impl View for ResolutionOptions {
    type V = OptionsView;

    closed spec fn view(&self) -> OptionsView {
        OptionsView {
            policy: self.policy,
            minimum_confidence: self.minimum_confidence,
            max_candidates: self.max_candidates,
            max_resolved: self.max_resolved,
            max_decisions: self.max_decisions,
            entity_priority: entity_views(self.entity_priority@),
            recognizer_priority: recognizer_views(self.recognizer_priority@),
        }
    }
}

impl ResolutionOptions {
    /// Options for one explicit policy using bounded defaults.
    pub fn new(policy: ResolutionPolicy) -> (r: ResolutionOptions)
        ensures
            r@.policy == policy,
            r@.minimum_confidence.spec_bits() == 0,
            r@.max_candidates == DEFAULT_RESOLUTION_CANDIDATE_LIMIT,
            r@.max_resolved == DEFAULT_RESOLUTION_OUTPUT_LIMIT,
            r@.max_decisions == DEFAULT_RESOLUTION_DECISION_LIMIT,
            r@.entity_priority == Seq::<Seq<char>>::empty(),
            r@.recognizer_priority == Seq::<Seq<char>>::empty(),
    {
        let r = ResolutionOptions {
            policy,
            minimum_confidence: Confidence::zero(),
            max_candidates: DEFAULT_RESOLUTION_CANDIDATE_LIMIT,
            max_resolved: DEFAULT_RESOLUTION_OUTPUT_LIMIT,
            max_decisions: DEFAULT_RESOLUTION_DECISION_LIMIT,
            entity_priority: Vec::new(),
            recognizer_priority: Vec::new(),
        };
        proof {
            assert(entity_views(r.entity_priority@) =~= Seq::<Seq<char>>::empty());
            assert(recognizer_views(r.recognizer_priority@) =~= Seq::<Seq<char>>::empty());
        }
        r
    }

    /// Set the minimum candidate confidence accepted by resolution.
    pub fn with_minimum_confidence(self, minimum: Confidence) -> (r: ResolutionOptions)
        ensures
            r@ == (OptionsView { minimum_confidence: minimum, ..self@ }),
    {
        ResolutionOptions { minimum_confidence: minimum, ..self }
    }

    /// Set the maximum number of caller-provided candidates.
    pub fn with_max_candidates(self, maximum: usize) -> (r: ResolutionOptions)
        ensures
            r@ == (OptionsView { max_candidates: maximum, ..self@ }),
    {
        ResolutionOptions { max_candidates: maximum, ..self }
    }

    /// Set the maximum number of resolved outputs.
    pub fn with_max_resolved(self, maximum: usize) -> (r: ResolutionOptions)
        ensures
            r@ == (OptionsView { max_resolved: maximum, ..self@ }),
    {
        ResolutionOptions { max_resolved: maximum, ..self }
    }

    /// Set the maximum number of detailed decisions retained.
    pub fn with_max_decisions(self, maximum: usize) -> (r: ResolutionOptions)
        ensures
            r@ == (OptionsView { max_decisions: maximum, ..self@ }),
    {
        ResolutionOptions { max_decisions: maximum, ..self }
    }

    /// Set entity precedence from highest to lowest priority.
    pub fn with_entity_priority(self, priority: Vec<EntityId>) -> (r: ResolutionOptions)
        ensures
            r@ == (OptionsView { entity_priority: entity_views(priority@), ..self@ }),
    {
        ResolutionOptions { entity_priority: priority, ..self }
    }

    /// Set recognizer precedence from highest to lowest priority.
    pub fn with_recognizer_priority(self, priority: Vec<RecognizerId>) -> (r: ResolutionOptions)
        ensures
            r@ == (OptionsView { recognizer_priority: recognizer_views(priority@), ..self@ }),
    {
        ResolutionOptions { recognizer_priority: priority, ..self }
    }

    /// Selected policy.
    pub fn policy(&self) -> (r: ResolutionPolicy)
        ensures
            r == self@.policy,
    {
        self.policy
    }

    /// Minimum qualifying confidence.
    pub fn minimum_confidence(&self) -> (r: Confidence)
        ensures
            r == self@.minimum_confidence,
    {
        self.minimum_confidence
    }

    /// Maximum accepted caller-provided candidates.
    pub fn max_candidates(&self) -> (r: usize)
        ensures
            r == self@.max_candidates,
    {
        self.max_candidates
    }

    /// Maximum resolved outputs.
    pub fn max_resolved(&self) -> (r: usize)
        ensures
            r == self@.max_resolved,
    {
        self.max_resolved
    }

    /// Maximum detailed decisions.
    pub fn max_decisions(&self) -> (r: usize)
        ensures
            r == self@.max_decisions,
    {
        self.max_decisions
    }

    /// Entity precedence from highest to lowest priority.
    pub fn entity_priority(&self) -> (r: &[EntityId])
        ensures
            entity_views(r@) == self@.entity_priority,
    {
        self.entity_priority.as_slice()
    }

    /// Recognizer precedence from highest to lowest priority.
    pub fn recognizer_priority(&self) -> (r: &[RecognizerId])
        ensures
            recognizer_views(r@) == self@.recognizer_priority,
    {
        self.recognizer_priority.as_slice()
    }
}

impl Default for ResolutionOptions {
    fn default() -> (r: ResolutionOptions)
        ensures
            r@.policy == ResolutionPolicy::ReportAll,
            r@.minimum_confidence.spec_bits() == 0,
            r@.max_candidates == DEFAULT_RESOLUTION_CANDIDATE_LIMIT,
            r@.max_resolved == DEFAULT_RESOLUTION_OUTPUT_LIMIT,
            r@.max_decisions == DEFAULT_RESOLUTION_DECISION_LIMIT,
            r@.entity_priority == Seq::<Seq<char>>::empty(),
            r@.recognizer_priority == Seq::<Seq<char>>::empty(),
    {
        Self::new(ResolutionPolicy::ReportAll)
    }
}

/// Abstract content of a [`ResolvedEntity`].
pub enum ResolvedEntityView {
    Single(Seq<char>),
    Mixed,
}

/// Entity identity represented by one resolved output.
#[derive(Debug, PartialEq, Eq)]
#[non_exhaustive]
pub enum ResolvedEntity {
    /// Every contributing candidate had this entity identity.
    Single(EntityId),
    /// Contributors contained different entity identities.
    Mixed,
}

impl View for ResolvedEntity {
    type V = ResolvedEntityView;

    open spec fn view(&self) -> ResolvedEntityView {
        match self {
            ResolvedEntity::Single(e) => ResolvedEntityView::Single(e@),
            ResolvedEntity::Mixed => ResolvedEntityView::Mixed,
        }
    }
}

/// Abstract content of a [`ResolvedFinding`].
pub enum ResolvedView {
    Candidate { candidate: usize },
    Union {
        span: Span,
        entity: ResolvedEntityView,
        candidates: Seq<usize>,
        document: Option<BindingView>,
    },
}

/// One policy-resolved output.
#[derive(Debug, PartialEq, Eq)]
#[non_exhaustive]
pub enum ResolvedFinding {
    /// A canonical source candidate retained without span synthesis.
    Candidate {
        /// Canonical candidate ordinal.
        candidate: usize,
    },
    /// Union of one connected strict-overlap component.
    Union {
        /// Coverage span from the minimum start to maximum end.
        span: Span,
        /// Single shared entity or explicit mixed identity.
        entity: ResolvedEntity,
        /// Canonical candidate ordinals contributing to this union.
        candidates: Vec<usize>,
        /// Exact common source binding, when candidates are document-bound.
        document: Option<DocumentBinding>,
    },
}

impl View for ResolvedFinding {
    type V = ResolvedView;

    open spec fn view(&self) -> ResolvedView {
        match self {
            ResolvedFinding::Candidate { candidate } => ResolvedView::Candidate {
                candidate: *candidate,
            },
            ResolvedFinding::Union { span, entity, candidates, document } => ResolvedView::Union {
                span: *span,
                entity: entity@,
                candidates: candidates@,
                document: opt_binding_view(*document),
            },
        }
    }
}

/// Calls `std::slice::from_ref`, documented to turn a reference into a slice of
/// length one holding the referenced value. Trusted: the slice is that one value.
#[verifier::external_body]
fn one_element_slice(x: &usize) -> (r: &[usize])
    ensures
        r@ == seq![*x],
{
    std::slice::from_ref(x)
}

/// View of an optional borrowed binding.
pub open spec fn opt_ref_binding_view(r: Option<&DocumentBinding>) -> Option<BindingView> {
    match r {
        Some(b) => Some(b@),
        None => None,
    }
}

/// The canonical candidates an output stands for.
pub open spec fn resolved_candidates(r: ResolvedView) -> Seq<usize> {
    match r {
        ResolvedView::Candidate { candidate } => seq![candidate],
        ResolvedView::Union { candidates, .. } => candidates,
    }
}

impl ResolvedFinding {
    /// Canonical contributors represented by this output.
    pub fn candidates(&self) -> (r: &[usize])
        ensures
            r@ == resolved_candidates(self@),
    {
        match self {
            ResolvedFinding::Candidate { candidate } => one_element_slice(candidate),
            ResolvedFinding::Union { candidates, .. } => candidates.as_slice(),
        }
    }

    /// Coverage span represented by this output.
    pub fn span(&self, canonical_candidates: &[Finding]) -> (r: Option<Span>)
        ensures
            match self@ {
                ResolvedView::Candidate { candidate } => if candidate < canonical_candidates@.len() {
                    r == Some(canonical_candidates@[candidate as int]@.span)
                } else {
                    r is None
                },
                ResolvedView::Union { span, .. } => r == Some(span),
            },
    {
        match self {
            ResolvedFinding::Candidate { candidate } => {
                if *candidate < canonical_candidates.len() {
                    Some(canonical_candidates[*candidate].span())
                } else {
                    None
                }
            },
            ResolvedFinding::Union { span, .. } => Some(*span),
        }
    }

    /// Exact document binding represented by this output, when known.
    pub fn document_binding<'a>(&'a self, canonical_candidates: &'a [Finding]) -> (r: Option<
        &'a DocumentBinding,
    >)
        ensures
            opt_ref_binding_view(r) == match self@ {
                ResolvedView::Candidate { candidate } => if candidate
                    < canonical_candidates@.len() {
                    canonical_candidates@[candidate as int]@.document
                } else {
                    None
                },
                ResolvedView::Union { document, .. } => document,
            },
    {
        match self {
            ResolvedFinding::Candidate { candidate } => {
                if *candidate < canonical_candidates.len() {
                    canonical_candidates[*candidate].document_binding()
                } else {
                    None
                }
            },
            ResolvedFinding::Union { document, .. } => match document {
                Some(b) => Some(b),
                None => None,
            },
        }
    }
}

/// Abstract content of a [`ResolutionDecision`].
pub enum DecisionView {
    ReportedAll { retained: usize },
    Retained { candidate: usize },
    CollapsedDuplicate { candidate: usize, retained: usize },
    RejectedOverlap { candidate: usize, retained: usize },
    ConservativeUnion { output: usize, candidates: Seq<usize> },
}

/// Bounded, non-plaintext evidence explaining one resolution outcome.
#[derive(Debug, PartialEq, Eq)]
#[non_exhaustive]
pub enum ResolutionDecision {
    /// `ReportAll` retained every qualifying canonical candidate.
    ReportedAll { retained: usize },
    /// A canonical candidate was retained by `BestCandidate`.
    Retained { candidate: usize },
    /// An exact duplicate collapsed onto a retained canonical candidate.
    CollapsedDuplicate { candidate: usize, retained: usize },
    /// An overlapping candidate lost to a retained candidate.
    RejectedOverlap { candidate: usize, retained: usize },
    /// A connected overlap component produced one conservative union.
    ConservativeUnion { output: usize, candidates: Vec<usize> },
}

impl View for ResolutionDecision {
    type V = DecisionView;

    open spec fn view(&self) -> DecisionView {
        match self {
            ResolutionDecision::ReportedAll { retained } => DecisionView::ReportedAll {
                retained: *retained,
            },
            ResolutionDecision::Retained { candidate } => DecisionView::Retained {
                candidate: *candidate,
            },
            ResolutionDecision::CollapsedDuplicate { candidate, retained } =>
                DecisionView::CollapsedDuplicate { candidate: *candidate, retained: *retained },
            ResolutionDecision::RejectedOverlap { candidate, retained } =>
                DecisionView::RejectedOverlap { candidate: *candidate, retained: *retained },
            ResolutionDecision::ConservativeUnion { output, candidates } =>
                DecisionView::ConservativeUnion { output: *output, candidates: candidates@ },
        }
    }
}

/// Completeness status for a successful resolution report.
#[derive(Debug, Clone, Copy, PartialEq, Eq, Structural)]
pub struct ResolutionStatus {
    decision_limit_reached: bool,
}

impl ResolutionStatus {
    pub closed spec fn spec_decision_limit_reached(self) -> bool {
        self.decision_limit_reached
    }

    fn new(decision_limit_reached: bool) -> (r: ResolutionStatus)
        ensures
            r.spec_decision_limit_reached() == decision_limit_reached,
    {
        ResolutionStatus { decision_limit_reached }
    }

    /// A status is determined by whether decision evidence was truncated.
    pub proof fn lemma_determined(self, other: ResolutionStatus)
        requires
            self.spec_decision_limit_reached() == other.spec_decision_limit_reached(),
        ensures
            self == other,
    {
    }

    /// Whether detailed decision evidence was truncated.
    pub fn decision_limit_reached(self) -> (r: bool)
        ensures
            r == self.spec_decision_limit_reached(),
    {
        self.decision_limit_reached
    }

    /// Whether the resolved output is complete.
    ///
    /// Candidate and output limits are hard errors, so a successful report
    /// always holds complete resolved output.
    pub fn output_complete(self) -> (r: bool)
        ensures
            r,
    {
        true
    }

    /// Whether all detailed decision evidence was retained.
    pub fn decision_evidence_complete(self) -> (r: bool)
        ensures
            r == !self.spec_decision_limit_reached(),
    {
        !self.decision_limit_reached
    }
}

/// Failure to produce a complete resolved output.
#[derive(Debug, Clone, PartialEq, Eq, Structural)]
#[non_exhaustive]
pub enum ResolutionError {
    /// Caller-provided candidate count exceeded the configured bound.
    CandidateLimitExceeded { actual: usize, maximum: usize },
    /// Complete resolved output would exceed the configured bound.
    ResolvedLimitExceeded { required: usize, maximum: usize },
    /// Candidates did not share one consistent binding state and exact binding.
    InconsistentDocumentBinding,
}

} // verus!

verus! {

/// Views of a run of findings.
pub open spec fn finding_views(s: Seq<Finding>) -> Seq<FindingView> {
    s.map_values(|f: Finding| f@)
}

/// Candidates whose confidence reaches `minimum`, in input order.
pub open spec fn qualifying(s: Seq<FindingView>, minimum: u32) -> Seq<FindingView>
    decreases s.len(),
{
    if s.len() == 0 {
        Seq::empty()
    } else if s.last().confidence.spec_bits() >= minimum {
        qualifying(s.drop_last(), minimum).push(s.last())
    } else {
        qualifying(s.drop_last(), minimum)
    }
}

/// Every candidate carries the binding of the first one (or all are unbound).
pub open spec fn bindings_consistent(s: Seq<FindingView>) -> bool {
    forall|i: int| 1 <= i < s.len() ==> #[trigger] s[i].document == s[0].document
}

/// The binding shared by the candidates, if any.
pub open spec fn shared_binding(s: Seq<FindingView>) -> Option<BindingView> {
    if s.len() == 0 {
        None
    } else {
        s[0].document
    }
}

/// Strict overlap of two spans: they share at least one byte.
pub open spec fn spans_overlap(a: Span, b: Span) -> bool {
    a.spec_start() < b.spec_end() && b.spec_start() < a.spec_end()
}

/// First retained ordinal, scanning `selected` from position `i`, whose candidate
/// equals candidate `cand`.
pub open spec fn first_duplicate_from(c: Seq<FindingView>, selected: Seq<usize>, cand: int, i: int) -> Option<usize>
    decreases selected.len() - i,
{
    if i >= selected.len() || i < 0 {
        None
    } else if c[selected[i] as int] == c[cand] {
        Some(selected[i])
    } else {
        first_duplicate_from(c, selected, cand, i + 1)
    }
}

/// First retained ordinal, scanning `selected` from position `i`, whose span
/// overlaps candidate `cand`'s.
pub open spec fn first_overlap_from(c: Seq<FindingView>, selected: Seq<usize>, cand: int, i: int) -> Option<usize>
    decreases selected.len() - i,
{
    if i >= selected.len() || i < 0 {
        None
    } else if spans_overlap(c[selected[i] as int].span, c[cand].span) {
        Some(selected[i])
    } else {
        first_overlap_from(c, selected, cand, i + 1)
    }
}

/// Greedy `BestCandidate` selection over the candidates taken in precedence order:
/// an exact duplicate of a retained candidate collapses onto it, an overlapping
/// candidate is rejected by the first retained one it overlaps, any other is
/// retained. Returns the retained ordinals in retention order and every decision.
pub open spec fn best_run(c: Seq<FindingView>, order: Seq<usize>) -> (Seq<usize>, Seq<DecisionView>)
    decreases order.len(),
{
    if order.len() == 0 {
        (Seq::empty(), Seq::empty())
    } else {
        let (selected, decisions) = best_run(c, order.drop_last());
        let cand = order.last();
        match first_duplicate_from(c, selected, cand as int, 0) {
            Some(retained) => (
                selected,
                decisions.push(DecisionView::CollapsedDuplicate { candidate: cand, retained }),
            ),
            None => match first_overlap_from(c, selected, cand as int, 0) {
                Some(retained) => (
                    selected,
                    decisions.push(DecisionView::RejectedOverlap { candidate: cand, retained }),
                ),
                None => (selected.push(cand), decisions.push(DecisionView::Retained { candidate: cand })),
            },
        }
    }
}

/// Candidate ordinals `0..n`.
pub open spec fn ordinals(n: nat) -> Seq<usize> {
    Seq::new(n, |i: int| i as usize)
}

/// Candidate ordinals in `BestCandidate` precedence order.
pub open spec fn precedence_sequence(c: Seq<FindingView>, o: OptionsView) -> Seq<usize> {
    stable_sort(ordinals(c.len()), crate::canonical::precedence_order(c, o))
}

/// Strictly increasing.
pub open spec fn increasing(s: Seq<usize>) -> bool {
    forall|i: int, j: int| 0 <= i < j < s.len() ==> s[i] < s[j]
}

/// `s` in ascending order: the increasing sequence with the same elements.
pub open spec fn ascending(s: Seq<usize>) -> Seq<usize> {
    choose|t: Seq<usize>| increasing(t) && (forall|x: usize| t.contains(x) <==> s.contains(x))
}

/// State of the left-to-right overlap sweep: closed components, the open
/// component, and the largest end in the open component.
pub open spec fn sweep(c: Seq<FindingView>) -> (Seq<Seq<usize>>, Seq<usize>, int)
    decreases c.len(),
{
    if c.len() == 0 {
        (Seq::empty(), Seq::empty(), 0)
    } else {
        let (done, current, maximum_end) = sweep(c.drop_last());
        let k = (c.len() - 1) as usize;
        let f = c.last();
        if current.len() == 0 {
            (done, seq![k], f.span.spec_end() as int)
        } else if (f.span.spec_start() as int) < maximum_end {
            (done, current.push(k), if f.span.spec_end() > maximum_end { f.span.spec_end() as int } else { maximum_end })
        } else {
            (done.push(current), seq![k], f.span.spec_end() as int)
        }
    }
}

/// Connected strict-overlap components of canonically ordered candidates, found
/// by one sweep that joins a candidate to the open component when it starts
/// before the component's largest end.
pub open spec fn overlap_components(c: Seq<FindingView>) -> Seq<Seq<usize>> {
    let (done, current, _) = sweep(c);
    if current.len() == 0 {
        done
    } else {
        done.push(current)
    }
}

/// Largest span end among the given candidates (0 for none).
pub open spec fn component_end(c: Seq<FindingView>, comp: Seq<usize>) -> int
    decreases comp.len(),
{
    if comp.len() == 0 {
        0
    } else {
        let rest = component_end(c, comp.drop_last());
        let e = c[comp.last() as int].span.spec_end() as int;
        if e > rest {
            e
        } else {
            rest
        }
    }
}

/// Whether every candidate of the component has the entity of its first one.
pub open spec fn single_entity(c: Seq<FindingView>, comp: Seq<usize>) -> bool {
    forall|k: int| 0 <= k < comp.len() ==> c[#[trigger] comp[k] as int].entity == c[comp[0] as int].entity
}

/// `r` is the union output of one component: its span runs from the first
/// candidate's start to the largest end, its entity is shared or mixed.
pub open spec fn is_union_of(r: ResolvedView, c: Seq<FindingView>, comp: Seq<usize>, document: Option<BindingView>) -> bool {
    let first = c[comp[0] as int];
    &&& r matches ResolvedView::Union { span, entity, candidates, document: d }
    &&& span.spec_start() == first.span.spec_start()
    &&& span.spec_end() == component_end(c, comp)
    &&& entity == if single_entity(c, comp) {
        ResolvedEntityView::Single(first.entity)
    } else {
        ResolvedEntityView::Mixed
    }
    &&& candidates == comp
    &&& d == document
}

/// The first `maximum` decisions, as a bounded decision log keeps them.
pub open spec fn kept_decisions(all: Seq<DecisionView>, maximum: usize) -> Seq<DecisionView> {
    if all.len() <= maximum {
        all
    } else {
        all.take(maximum as int)
    }
}

} // verus!

verus! {

proof fn lemma_finding_views_push(s: Seq<Finding>, x: Finding)
    ensures
        finding_views(s.push(x)) == finding_views(s).push(x@),
{
    assert(finding_views(s.push(x)) =~= finding_views(s).push(x@));
}

/// Qualifying candidates (confidence at least `minimum`) copied into canonical
/// order by stable insertion.
fn canonical_candidates(candidates: &[Finding], minimum: Confidence) -> (r: Vec<Finding>)
    ensures
        finding_views(r@) == stable_sort(
            qualifying(finding_views(candidates@), minimum.spec_bits()),
            crate::canonical::canonical_order(),
        ),
{
    let ghost f = crate::canonical::canonical_order();
    let min_bits = minimum.number_bits();
    let mut out: Vec<Finding> = Vec::new();
    let mut i: usize = 0;
    while i < candidates.len()
        invariant
            i <= candidates@.len(),
            min_bits == minimum.spec_bits(),
            f == crate::canonical::canonical_order(),
            finding_views(out@) == stable_sort(
                qualifying(finding_views(candidates@.take(i as int)), min_bits),
                f,
            ),
        decreases candidates@.len() - i,
    {
        let x = &candidates[i];
        proof {
            assert(candidates@.take(i + 1) =~= candidates@.take(i as int).push(candidates@[i as int]));
            lemma_finding_views_push(candidates@.take(i as int), candidates@[i as int]);
            let v = finding_views(candidates@.take(i + 1));
            assert(v.drop_last() =~= finding_views(candidates@.take(i as int)));
            assert(v.last() == x@);
        }
        proof {
            x.spec_confidence().lemma_number(x.spec_confidence());
        }
        if x.confidence().number_bits() >= min_bits {
            let ghost q = qualifying(finding_views(candidates@.take(i as int)), min_bits);
            let ghost sorted = finding_views(out@);
            let mut j: usize = 0;
            while j < out.len() && crate::canonical::compare_canonical_candidates(&out[j], x) != Order::Greater
                invariant
                    j <= out@.len(),
                    sorted == finding_views(out@),
                    f == crate::canonical::canonical_order(),
                    crate::order::first_greater_from(sorted, x@, f, 0)
                        == crate::order::first_greater_from(sorted, x@, f, j as int),
                decreases out@.len() - j,
            {
                j = j + 1;
            }
            proof {
                assert(qualifying(finding_views(candidates@.take(i + 1)), min_bits) == q.push(x@));
                crate::order::lemma_stable_sort_push(q, x@, f);
            }
            out.insert(j, x.clone());
            proof {
                assert(finding_views(out@) =~= sorted.insert(j as int, x@));
            }
        } else {
            proof {
                assert(qualifying(finding_views(candidates@.take(i + 1)), min_bits)
                    == qualifying(finding_views(candidates@.take(i as int)), min_bits));
            }
        }
        i = i + 1;
    }
    proof {
        assert(candidates@.take(candidates@.len() as int) =~= candidates@);
    }
    out
}

/// Candidate ordinals in `BestCandidate` precedence order, by stable insertion.
fn precedence_sequence_of(candidates: &[Finding], options: &ResolutionOptions) -> (r: Vec<usize>)
    ensures
        r@ == precedence_sequence(finding_views(candidates@), options@),
{
    let ghost c = finding_views(candidates@);
    let ghost f = crate::canonical::precedence_order(c, options@);
    let mut out: Vec<usize> = Vec::new();
    let mut i: usize = 0;
    while i < candidates.len()
        invariant
            i <= candidates@.len(),
            c == finding_views(candidates@),
            f == crate::canonical::precedence_order(c, options@),
            out@ == stable_sort(ordinals(c.len()).take(i as int), f),
            forall|k: int| 0 <= k < out@.len() ==> out@[k] < i,
        decreases candidates@.len() - i,
    {
        let ghost sorted = out@;
        let mut j: usize = 0;
        while j < out.len() && crate::canonical::compare_precedence(out[j], i, candidates, options)
            != Order::Greater
            invariant
                j <= out@.len(),
                sorted == out@,
                i < candidates@.len(),
                forall|k: int| 0 <= k < out@.len() ==> out@[k] < i,
                c == finding_views(candidates@),
                f == crate::canonical::precedence_order(c, options@),
                crate::order::first_greater_from(sorted, i, f, 0)
                    == crate::order::first_greater_from(sorted, i, f, j as int),
            decreases out@.len() - j,
        {
            j = j + 1;
        }
        proof {
            let o = ordinals(c.len());
            assert(o.take(i + 1) =~= o.take(i as int).push(i));
            crate::order::lemma_stable_sort_push(o.take(i as int), i, f);
            crate::order::lemma_first_greater_bounds(sorted, i, f, 0);
        }
        out.insert(j, i);
        i = i + 1;
    }
    proof {
        assert(ordinals(c.len()).take(c.len() as int) =~= ordinals(c.len()));
    }
    out
}

} // verus!

verus! {

/// Views of a run of decisions.
pub open spec fn decision_views(s: Seq<ResolutionDecision>) -> Seq<DecisionView> {
    s.map_values(|d: ResolutionDecision| d@)
}

/// Views of a run of resolved outputs.
pub open spec fn resolved_views(s: Seq<ResolvedFinding>) -> Seq<ResolvedView> {
    s.map_values(|d: ResolvedFinding| d@)
}

/// Bounded decision log that records whether any decision was dropped.
struct DecisionSink {
    maximum: usize,
    decisions: Vec<ResolutionDecision>,
    limit_reached: bool,
    log: Ghost<Seq<DecisionView>>,
}

impl DecisionSink {
    /// The kept decisions are the first `maximum` of the full log.
    spec fn wf(&self) -> bool {
        &&& decision_views(self.decisions@) == kept_decisions(self.log@, self.maximum)
        &&& self.limit_reached == (self.log@.len() > self.maximum)
    }

    fn new(maximum: usize) -> (r: DecisionSink)
        ensures
            r.wf(),
            r.maximum == maximum,
            r.log@ == Seq::<DecisionView>::empty(),
    {
        let r = DecisionSink {
            maximum,
            decisions: Vec::new(),
            limit_reached: false,
            log: Ghost(Seq::empty()),
        };
        proof {
            assert(decision_views(r.decisions@) =~= Seq::<DecisionView>::empty());
        }
        r
    }

    fn push(&mut self, decision: ResolutionDecision)
        requires
            old(self).wf(),
        ensures
            final(self).wf(),
            final(self).maximum == old(self).maximum,
            final(self).log@ == old(self).log@.push(decision@),
    {
        let ghost d = decision@;
        let ghost before = self.decisions@;
        let ghost old_log = self.log@;
        proof {
            assert(decision_views(before).len() == before.len());
            if old_log.len() > self.maximum {
                assert(before.len() == self.maximum);
            } else {
                assert(before.len() == old_log.len());
            }
        }
        if self.decisions.len() < self.maximum {
            self.decisions.push(decision);
            proof {
                assert(decision_views(self.decisions@) =~= decision_views(before).push(d));
            }
        } else {
            self.limit_reached = true;
        }
        self.log = Ghost(self.log@.push(d));
        proof {
            let all = self.log@;
            assert(all =~= old_log.push(d));
            if all.len() > self.maximum {
                assert(all.take(self.maximum as int) =~= old_log.take(self.maximum as int));
                if old_log.len() == self.maximum {
                    assert(old_log.take(self.maximum as int) =~= old_log);
                }
            }
        }
    }
}

/// Two increasing sequences with the same elements are equal.
pub proof fn lemma_increasing_unique(a: Seq<usize>, b: Seq<usize>)
    requires
        increasing(a),
        increasing(b),
        forall|x: usize| a.contains(x) <==> b.contains(x),
    ensures
        a == b,
    decreases a.len(),
{
    if a.len() == 0 {
        if b.len() > 0 {
            assert(b.contains(b[0]));
        }
        assert(a =~= b);
    } else if b.len() == 0 {
        assert(a.contains(a[0]));
    } else {
        assert(a.contains(a[0]));
        assert(b.contains(b[0]));
        let i = choose|i: int| 0 <= i < b.len() && b[i] == a[0];
        let j = choose|j: int| 0 <= j < a.len() && a[j] == b[0];
        assert(a[0] == b[0]) by {
            if j > 0 {
                assert(a[0] < a[j]);
            }
            if i > 0 {
                assert(b[0] < b[i]);
            }
        }
        let ta = a.drop_first();
        let tb = b.drop_first();
        assert forall|x: usize| ta.contains(x) <==> tb.contains(x) by {
            if ta.contains(x) {
                let k = choose|k: int| 0 <= k < ta.len() && ta[k] == x;
                assert(a[k + 1] == x);
                assert(a.contains(x));
                let m = choose|m: int| 0 <= m < b.len() && b[m] == x;
                assert(x > a[0]);
                assert(m != 0);
                assert(tb[m - 1] == x);
            }
            if tb.contains(x) {
                let k = choose|k: int| 0 <= k < tb.len() && tb[k] == x;
                assert(b[k + 1] == x);
                assert(b.contains(x));
                let m = choose|m: int| 0 <= m < a.len() && a[m] == x;
                assert(x > b[0]);
                assert(m != 0);
                assert(ta[m - 1] == x);
            }
        }
        lemma_increasing_unique(ta, tb);
        assert(a =~= b) by {
            assert forall|k: int| 0 <= k < a.len() implies a[k] == b[k] by {
                if k > 0 {
                    assert(a[k] == ta[k - 1]);
                    assert(b[k] == tb[k - 1]);
                }
            }
        }
    }
}

/// Distinct ordinals in ascending order.
fn sort_ascending(s: &Vec<usize>) -> (r: Vec<usize>)
    requires
        s@.no_duplicates(),
    ensures
        r@ == ascending(s@),
        increasing(r@),
        forall|x: usize| r@.contains(x) <==> s@.contains(x),
{
    let mut out: Vec<usize> = Vec::new();
    let mut i: usize = 0;
    while i < s.len()
        invariant
            i <= s@.len(),
            s@.no_duplicates(),
            increasing(out@),
            forall|x: usize| out@.contains(x) <==> s@.take(i as int).contains(x),
        decreases s@.len() - i,
    {
        let x = s[i];
        let mut j: usize = 0;
        while j < out.len() && out[j] < x
            invariant
                j <= out@.len(),
                increasing(out@),
                forall|k: int| 0 <= k < j ==> out@[k] < x,
            decreases out@.len() - j,
        {
            j = j + 1;
        }
        proof {
            assert(!s@.take(i as int).contains(x)) by {
                if s@.take(i as int).contains(x) {
                    let k = choose|k: int| 0 <= k < i && s@.take(i as int)[k] == x;
                    assert(s@[k] == s@[i as int]);
                }
            }
            if j < out@.len() {
                assert(out@.contains(out@[j as int]));
            }
            assert(j < out@.len() ==> out@[j as int] != x);
        }
        let ghost before = out@;
        out.insert(j, x);
        proof {
            assert(s@.take(i + 1) =~= s@.take(i as int).push(x));
            assert forall|a: int, b: int| 0 <= a < b < out@.len() implies out@[a] < out@[b] by {
                if b < j {
                } else if b == j {
                    assert(out@[a] == before[a]);
                } else if a < j {
                    assert(out@[b] == before[b - 1]);
                    if j < before.len() {
                        assert(before[a] < x);
                        assert(x < before[j as int] || x == before[j as int] || x > before[j as int]);
                        assert(before[j as int] >= x);
                        if b - 1 > j {
                            assert(before[j as int] < before[b - 1]);
                        }
                    }
                } else if a == j {
                    assert(out@[b] == before[b - 1]);
                    assert(before[j as int] > x);
                    if b - 1 > j {
                        assert(before[j as int] < before[b - 1]);
                    }
                } else {
                    assert(out@[a] == before[a - 1]);
                    assert(out@[b] == before[b - 1]);
                }
            }
            assert forall|y: usize| out@.contains(y) <==> s@.take(i + 1).contains(y) by {
                if out@.contains(y) {
                    let k = choose|k: int| 0 <= k < out@.len() && out@[k] == y;
                    if k < j {
                        assert(before[k] == y);
                        assert(before.contains(y));
                    } else if k > j {
                        assert(before[k - 1] == y);
                        assert(before.contains(y));
                    }
                    assert(s@.take(i + 1).contains(y)) by {
                        if y == x {
                            assert(s@.take(i + 1)[i as int] == x);
                        } else {
                            let m = choose|m: int| 0 <= m < i && s@.take(i as int)[m] == y;
                            assert(s@.take(i + 1)[m] == y);
                        }
                    }
                }
                if s@.take(i + 1).contains(y) {
                    let m = choose|m: int| 0 <= m < i + 1 && #[trigger] s@.take(i + 1)[m] == y;
                    if m == i {
                        assert(out@[j as int] == y);
                    } else {
                        assert(s@.take(i as int)[m] == y);
                        assert(before.contains(y));
                        let k = choose|k: int| 0 <= k < before.len() && before[k] == y;
                        if k < j {
                            assert(out@[k] == y);
                        } else {
                            assert(out@[k + 1] == y);
                        }
                    }
                }
            }
        }
        i = i + 1;
    }
    proof {
        assert(s@.take(s@.len() as int) =~= s@);
        let t = ascending(s@);
        assert(increasing(out@) && (forall|x: usize| out@.contains(x) <==> s@.contains(x)));
        lemma_increasing_unique(t, out@);
    }
    out
}

} // verus!

verus! {

/// The `BestCandidate` run over all canonical candidates.
pub open spec fn best_selection(c: Seq<FindingView>, o: OptionsView) -> (Seq<usize>, Seq<DecisionView>) {
    best_run(c, precedence_sequence(c, o))
}

/// Candidate outputs for ordinals, in order.
pub open spec fn candidate_outputs(s: Seq<usize>) -> Seq<ResolvedView> {
    s.map_values(|i: usize| ResolvedView::Candidate { candidate: i })
}

fn copy_ordinals(v: &[usize]) -> (r: Vec<usize>)
    ensures
        r@ == v@,
{
    let mut out: Vec<usize> = Vec::new();
    let mut i: usize = 0;
    while i < v.len()
        invariant
            i <= v@.len(),
            out@ == v@.take(i as int),
        decreases v@.len() - i,
    {
        out.push(v[i]);
        proof {
            assert(v@.take(i + 1) =~= v@.take(i as int).push(v@[i as int]));
        }
        i = i + 1;
    }
    proof {
        assert(v@.take(v@.len() as int) =~= v@);
    }
    out
}

fn find_duplicate(candidates: &[Finding], selected: &Vec<usize>, candidate: usize) -> (r: Option<usize>)
    requires
        candidate < candidates@.len(),
        forall|t: int| 0 <= t < selected@.len() ==> selected@[t] < candidates@.len(),
    ensures
        r == first_duplicate_from(finding_views(candidates@), selected@, candidate as int, 0),
{
    let ghost c = finding_views(candidates@);
    let mut j: usize = 0;
    while j < selected.len()
        invariant
            j <= selected@.len(),
            c == finding_views(candidates@),
            candidate < candidates@.len(),
            forall|t: int| 0 <= t < selected@.len() ==> selected@[t] < candidates@.len(),
            first_duplicate_from(c, selected@, candidate as int, 0) == first_duplicate_from(
                c,
                selected@,
                candidate as int,
                j as int,
            ),
        decreases selected@.len() - j,
    {
        let retained = selected[j];
        if candidates[retained].same_as(&candidates[candidate]) {
            return Some(retained);
        }
        j = j + 1;
    }
    None
}

fn find_overlap(candidates: &[Finding], selected: &Vec<usize>, candidate: usize) -> (r: Option<usize>)
    requires
        candidate < candidates@.len(),
        forall|t: int| 0 <= t < selected@.len() ==> selected@[t] < candidates@.len(),
    ensures
        r == first_overlap_from(finding_views(candidates@), selected@, candidate as int, 0),
{
    let ghost c = finding_views(candidates@);
    let span = candidates[candidate].span();
    let mut j: usize = 0;
    while j < selected.len()
        invariant
            j <= selected@.len(),
            c == finding_views(candidates@),
            candidate < candidates@.len(),
            span == c[candidate as int].span,
            forall|t: int| 0 <= t < selected@.len() ==> selected@[t] < candidates@.len(),
            first_overlap_from(c, selected@, candidate as int, 0) == first_overlap_from(
                c,
                selected@,
                candidate as int,
                j as int,
            ),
        decreases selected@.len() - j,
    {
        let retained = selected[j];
        let other = candidates[retained].span();
        if other.start() < span.end() && span.start() < other.end() {
            return Some(retained);
        }
        j = j + 1;
    }
    None
}

fn resolve_best_candidate(candidates: &[Finding], options: &ResolutionOptions) -> (r: Result<
    (Vec<ResolvedFinding>, DecisionSink),
    ResolutionError,
>)
    ensures
        best_selection(finding_views(candidates@), options@).0.len() > options@.max_resolved ==> r
            == Err::<(Vec<ResolvedFinding>, DecisionSink), ResolutionError>(
            ResolutionError::ResolvedLimitExceeded {
                required: best_selection(finding_views(candidates@), options@).0.len() as usize,
                maximum: options@.max_resolved,
            },
        ),
        best_selection(finding_views(candidates@), options@).0.len() <= options@.max_resolved ==> (
        r matches Ok((res, sink)) && sink.wf() && sink.maximum == options@.max_decisions
            && sink.log@ == best_selection(finding_views(candidates@), options@).1 && resolved_views(
            res@,
        ) == candidate_outputs(ascending(best_selection(finding_views(candidates@), options@).0))),
{
    let ghost c = finding_views(candidates@);
    let ghost f = crate::canonical::precedence_order(c, options@);
    let precedence = precedence_sequence_of(candidates, options);
    let n = candidates.len();
    proof {
        crate::order::lemma_stable_sort_elements(ordinals(c.len()), f);
        assert forall|i: int, j: int|
            0 <= i < n && 0 <= j < n && i != j implies #[trigger] ordinals(c.len())[i]
            != #[trigger] ordinals(c.len())[j] by {}
        assert(ordinals(c.len()).no_duplicates());
        assert forall|t: int| 0 <= t < precedence@.len() implies precedence@[t] < c.len() by {
            assert(precedence@.contains(precedence@[t]));
            assert(ordinals(c.len()).contains(precedence@[t]));
        }
    }
    let mut selected: Vec<usize> = Vec::new();
    let mut sink = DecisionSink::new(options.max_decisions());
    let mut k: usize = 0;
    while k < precedence.len()
        invariant
            k <= precedence@.len(),
            c == finding_views(candidates@),
            c.len() == candidates@.len(),
            precedence@ == precedence_sequence(c, options@),
            precedence@.no_duplicates(),
            forall|t: int| 0 <= t < precedence@.len() ==> precedence@[t] < c.len(),
            (selected@, sink.log@) == best_run(c, precedence@.take(k as int)),
            sink.wf(),
            sink.maximum == options@.max_decisions,
            forall|t: int| 0 <= t < selected@.len() ==> selected@[t] < c.len(),
            selected@.no_duplicates(),
            forall|x: usize| selected@.contains(x) ==> precedence@.take(k as int).contains(x),
        decreases precedence@.len() - k,
    {
        let candidate = precedence[k];
        proof {
            let p = precedence@.take(k + 1);
            assert(p.drop_last() =~= precedence@.take(k as int));
            assert(p.last() == candidate);
        }
        let ghost before = selected@;
        match find_duplicate(candidates, &selected, candidate) {
            Some(retained) => {
                sink.push(ResolutionDecision::CollapsedDuplicate { candidate, retained });
            },
            None => match find_overlap(candidates, &selected, candidate) {
                Some(retained) => {
                    sink.push(ResolutionDecision::RejectedOverlap { candidate, retained });
                },
                None => {
                    proof {
                        assert(!before.contains(candidate)) by {
                            if before.contains(candidate) {
                                assert(precedence@.take(k as int).contains(candidate));
                                let m = choose|m: int| 0 <= m < k && #[trigger] precedence@.take(k as int)[m] == candidate;
                                assert(precedence@[m] == precedence@[k as int]);
                            }
                        }
                    }
                    selected.push(candidate);
                    sink.push(ResolutionDecision::Retained { candidate });
                },
            },
        }
        proof {
            assert forall|x: usize| selected@.contains(x) implies precedence@.take(k + 1).contains(x) by {
                let m = choose|m: int| 0 <= m < selected@.len() && selected@[m] == x;
                if m < before.len() {
                    assert(before.contains(x));
                    let q = choose|q: int| 0 <= q < k && #[trigger] precedence@.take(k as int)[q] == x;
                    assert(precedence@.take(k + 1)[q] == x);
                } else {
                    assert(precedence@.take(k + 1)[k as int] == x);
                }
            }
        }
        k = k + 1;
    }
    proof {
        assert(precedence@.take(precedence@.len() as int) =~= precedence@);
    }
    if selected.len() > options.max_resolved() {
        return Err(
            ResolutionError::ResolvedLimitExceeded {
                required: selected.len(),
                maximum: options.max_resolved(),
            },
        );
    }
    let ordered = sort_ascending(&selected);
    let mut resolved: Vec<ResolvedFinding> = Vec::new();
    let mut i: usize = 0;
    while i < ordered.len()
        invariant
            i <= ordered@.len(),
            resolved_views(resolved@) == candidate_outputs(ordered@.take(i as int)),
        decreases ordered@.len() - i,
    {
        let ghost before = resolved@;
        resolved.push(ResolvedFinding::Candidate { candidate: ordered[i] });
        proof {
            assert(resolved_views(resolved@) =~= resolved_views(before).push(
                ResolvedView::Candidate { candidate: ordered@[i as int] },
            ));
            assert(candidate_outputs(ordered@.take(i + 1)) =~= candidate_outputs(
                ordered@.take(i as int),
            ).push(ResolvedView::Candidate { candidate: ordered@[i as int] }));
        }
        i = i + 1;
    }
    proof {
        assert(ordered@.take(ordered@.len() as int) =~= ordered@);
    }
    Ok((resolved, sink))
}

} // verus!

verus! {

/// Views of a run of ordinal vectors.
pub open spec fn component_views(s: Seq<Vec<usize>>) -> Seq<Seq<usize>> {
    s.map_values(|v: Vec<usize>| v@)
}

/// The sweep keeps every component non-empty and every ordinal in range.
proof fn lemma_sweep_wf(c: Seq<FindingView>)
    ensures
        forall|t: int| 0 <= t < sweep(c).0.len() ==> (#[trigger] sweep(c).0[t]).len() > 0,
        forall|t: int, m: int|
            0 <= t < sweep(c).0.len() && 0 <= m < sweep(c).0[t].len() ==> #[trigger] sweep(c).0[t][m] < c.len(),
        forall|m: int| 0 <= m < sweep(c).1.len() ==> #[trigger] sweep(c).1[m] < c.len(),
        (sweep(c).1.len() == 0) == (c.len() == 0),
    decreases c.len(),
{
    if c.len() > 0 {
        lemma_sweep_wf(c.drop_last());
    }
}

proof fn lemma_components_wf(c: Seq<FindingView>)
    ensures
        forall|t: int| 0 <= t < overlap_components(c).len() ==> (#[trigger] overlap_components(c)[t]).len() > 0,
        forall|t: int, m: int|
            0 <= t < overlap_components(c).len() && 0 <= m < overlap_components(c)[t].len()
                ==> #[trigger] overlap_components(c)[t][m] < c.len(),
{
    lemma_sweep_wf(c);
}

/// The largest end in a component is at least each member's end.
pub proof fn lemma_component_end_bound(c: Seq<FindingView>, comp: Seq<usize>, k: int)
    requires
        0 <= k < comp.len(),
    ensures
        component_end(c, comp) >= c[comp[k] as int].span.spec_end(),
    decreases comp.len(),
{
    if k < comp.len() - 1 {
        lemma_component_end_bound(c, comp.drop_last(), k);
    }
}

/// Successive components follow one another: each one's largest end is no later
/// than the start of the next one's first candidate.
pub open spec fn components_chained(c: Seq<FindingView>, comps: Seq<Seq<usize>>) -> bool {
    forall|t: int|
        0 <= t < comps.len() - 1 ==> component_end(c, #[trigger] comps[t]) <= c[comps[t + 1][0] as int].span.spec_start()
}

/// The largest end of a component depends only on the candidates it names.
proof fn lemma_component_end_extends(c: Seq<FindingView>, d: Seq<FindingView>, comp: Seq<usize>)
    requires
        c.len() <= d.len(),
        forall|i: int| 0 <= i < c.len() ==> #[trigger] d[i] == c[i],
        forall|m: int| 0 <= m < comp.len() ==> #[trigger] comp[m] < c.len(),
    ensures
        component_end(d, comp) == component_end(c, comp),
    decreases comp.len(),
{
    if comp.len() > 0 {
        assert(comp[comp.len() - 1] < c.len());
        lemma_component_end_extends(c, d, comp.drop_last());
    }
}

/// The runs of the sweep are increasing.
proof fn lemma_sweep_increasing(c: Seq<FindingView>)
    requires
        c.len() <= usize::MAX,
    ensures
        forall|t: int| 0 <= t < sweep(c).0.len() ==> increasing(#[trigger] sweep(c).0[t]),
        increasing(sweep(c).1),
    decreases c.len(),
{
    if c.len() > 0 {
        let p = c.drop_last();
        lemma_sweep_increasing(p);
        lemma_sweep_wf(p);
        let (done, cur, me) = sweep(p);
        let k = (c.len() - 1) as usize;
        if cur.len() > 0 && (c.last().span.spec_start() as int) < me {
            let next = cur.push(k);
            assert forall|a: int, b: int| 0 <= a < b < next.len() implies next[a] < next[b] by {
                if b < cur.len() {
                    assert(next[a] == cur[a] && next[b] == cur[b]);
                } else {
                    assert(next[a] == cur[a]);
                    assert(cur[a] < p.len());
                }
            }
        }
    }
}

/// The runs of the sweep, closed then open, are the candidate ordinals in order.
proof fn lemma_sweep_cover(c: Seq<FindingView>)
    ensures
        sweep(c).0.flatten() + sweep(c).1 == ordinals(c.len()),
    decreases c.len(),
{
    if c.len() == 0 {
        assert(ordinals(0) =~= Seq::<usize>::empty());
        assert(sweep(c).0.flatten() =~= Seq::<usize>::empty());
    } else {
        let p = c.drop_last();
        lemma_sweep_cover(p);
        lemma_sweep_wf(p);
        let (done, cur, me) = sweep(p);
        let k = (c.len() - 1) as usize;
        assert(ordinals(c.len()) =~= ordinals(p.len()).push(k));
        if cur.len() == 0 {
            assert(done.len() == 0) by {
                if done.len() > 0 {
                    assert(done.flatten() == done.first() + done.drop_first().flatten());
                    assert(done[0].len() > 0);
                }
            }
            assert(done.flatten() =~= Seq::<usize>::empty());
        } else if (c.last().span.spec_start() as int) < me {
            assert(done.flatten() + cur.push(k) =~= (done.flatten() + cur).push(k));
        } else {
            done.lemma_flatten_push(cur);
            assert(done.push(cur).flatten() + seq![k] =~= (done.flatten() + cur).push(k));
        }
    }
}

/// The sweep tracks the largest end of its open run.
proof fn lemma_sweep_end(c: Seq<FindingView>)
    requires
        c.len() <= usize::MAX,
    ensures
        sweep(c).1.len() > 0 ==> sweep(c).2 == component_end(c, sweep(c).1),
    decreases c.len(),
{
    if c.len() > 0 {
        let p = c.drop_last();
        lemma_sweep_end(p);
        lemma_sweep_wf(p);
        let (done, cur, me) = sweep(p);
        let k = (c.len() - 1) as usize;
        assert(c[k as int] == c.last());
        assert forall|i: int| 0 <= i < p.len() implies #[trigger] c[i] == p[i] by {}
        if cur.len() > 0 {
            lemma_component_end_extends(p, c, cur);
            assert(me == component_end(c, cur));
            if (c.last().span.spec_start() as int) < me {
                assert(cur.push(k).drop_last() =~= cur);
                assert(sweep(c).1 == cur.push(k));
                assert(component_end(c, cur.push(k)) == if c[k as int].span.spec_end() > me {
                    c[k as int].span.spec_end() as int
                } else {
                    me
                });
            } else {
                assert(seq![k].drop_last() =~= Seq::<usize>::empty());
                assert(component_end(c, Seq::<usize>::empty()) == 0);
                assert(sweep(c).1 == seq![k]);
                assert(component_end(c, seq![k]) == c[k as int].span.spec_end());
            }
        } else {
            assert(seq![k].drop_last() =~= Seq::<usize>::empty());
            assert(component_end(c, Seq::<usize>::empty()) == 0);
            assert(sweep(c).1 == seq![k]);
            assert(component_end(c, seq![k]) == c[k as int].span.spec_end());
        }
    }
}

/// Runs that follow one another over some candidates still do over more of them.
proof fn lemma_chained_extends(p: Seq<FindingView>, c: Seq<FindingView>, comps: Seq<Seq<usize>>)
    requires
        p.len() <= c.len(),
        forall|i: int| 0 <= i < p.len() ==> #[trigger] c[i] == p[i],
        forall|t: int, m: int| 0 <= t < comps.len() && 0 <= m < comps[t].len() ==> #[trigger] comps[t][m] < p.len(),
        forall|t: int| 0 <= t < comps.len() ==> (#[trigger] comps[t]).len() > 0,
        components_chained(p, comps),
    ensures
        components_chained(c, comps),
{
    assert forall|t: int| 0 <= t < comps.len() - 1 implies component_end(c, #[trigger] comps[t])
        <= c[comps[t + 1][0] as int].span.spec_start() by {
        assert forall|m: int| 0 <= m < comps[t].len() implies #[trigger] comps[t][m] < p.len() by {}
        lemma_component_end_extends(p, c, comps[t]);
        assert(comps[t + 1][0] < p.len());
    }
}

/// Replacing the last run by one with the same first candidate keeps runs chained.
proof fn lemma_chained_last(c: Seq<FindingView>, comps: Seq<Seq<usize>>, x: Seq<usize>)
    requires
        comps.len() > 0,
        x.len() > 0,
        x[0] == comps.last()[0],
        components_chained(c, comps),
    ensures
        components_chained(c, comps.drop_last().push(x)),
{
    let all = comps.drop_last().push(x);
    assert forall|t: int| 0 <= t < all.len() - 1 implies component_end(c, #[trigger] all[t])
        <= c[all[t + 1][0] as int].span.spec_start() by {
        assert(all[t] == comps[t]);
        assert(component_end(c, comps[t]) <= c[comps[t + 1][0] as int].span.spec_start());
    }
}

/// A run that starts at or after the end of the last one extends a chain.
proof fn lemma_chained_push(c: Seq<FindingView>, comps: Seq<Seq<usize>>, x: Seq<usize>)
    requires
        comps.len() > 0,
        component_end(c, comps.last()) <= c[x[0] as int].span.spec_start(),
        components_chained(c, comps),
    ensures
        components_chained(c, comps.push(x)),
{
    let all = comps.push(x);
    assert forall|t: int| 0 <= t < all.len() - 1 implies component_end(c, #[trigger] all[t])
        <= c[all[t + 1][0] as int].span.spec_start() by {
        assert(all[t] == comps[t]);
        if t < comps.len() - 1 {
            assert(component_end(c, comps[t]) <= c[comps[t + 1][0] as int].span.spec_start());
        }
    }
}

/// Successive runs of the sweep follow one another.
proof fn lemma_sweep_chained(c: Seq<FindingView>)
    requires
        c.len() <= usize::MAX,
    ensures
        sweep(c).1.len() > 0 ==> components_chained(c, sweep(c).0.push(sweep(c).1)),
    decreases c.len(),
{
    if c.len() > 0 {
        let p = c.drop_last();
        lemma_sweep_chained(p);
        lemma_sweep_end(p);
        lemma_sweep_wf(p);
        let (done, cur, me) = sweep(p);
        let k = (c.len() - 1) as usize;
        assert(c[k as int] == c.last());
        assert forall|i: int| 0 <= i < p.len() implies #[trigger] c[i] == p[i] by {}
        if cur.len() > 0 {
            let old_all = done.push(cur);
            assert forall|t: int, m: int|
                0 <= t < old_all.len() && 0 <= m < old_all[t].len() implies #[trigger] old_all[t][m] < p.len() by {
                if t < done.len() {
                    assert(old_all[t] == done[t]);
                }
            }
            assert forall|t: int| 0 <= t < old_all.len() implies (#[trigger] old_all[t]).len() > 0 by {
                if t < done.len() {
                    assert(old_all[t] == done[t]);
                }
            }
            lemma_chained_extends(p, c, old_all);
            lemma_component_end_extends(p, c, cur);
            if (c.last().span.spec_start() as int) < me {
                lemma_chained_last(c, old_all, cur.push(k));
                assert(old_all.drop_last().push(cur.push(k)) =~= done.push(cur.push(k)));
            } else {
                lemma_chained_push(c, old_all, seq![k]);
            }
        }
    }
}

/// The overlap components partition the candidate ordinals, in order, into
/// non-empty increasing runs that follow one another.
pub proof fn lemma_components_partition(c: Seq<FindingView>)
    requires
        c.len() <= usize::MAX,
    ensures
        overlap_components(c).flatten() == ordinals(c.len()),
        forall|t: int|
            0 <= t < overlap_components(c).len() ==> (#[trigger] overlap_components(c)[t]).len() > 0 && increasing(
                overlap_components(c)[t],
            ),
        forall|t: int, m: int|
            0 <= t < overlap_components(c).len() && 0 <= m < overlap_components(c)[t].len()
                ==> #[trigger] overlap_components(c)[t][m] < c.len(),
        components_chained(c, overlap_components(c)),
{
    lemma_sweep_wf(c);
    lemma_sweep_increasing(c);
    lemma_sweep_cover(c);
    lemma_sweep_chained(c);
    let (done, cur, me) = sweep(c);
    if cur.len() == 0 {
        assert(done.flatten() + cur =~= done.flatten());
    } else {
        done.lemma_flatten_push(cur);
    }
}

fn overlap_components_of(candidates: &[Finding]) -> (r: Vec<Vec<usize>>)
    ensures
        component_views(r@) == overlap_components(finding_views(candidates@)),
{
    let ghost c = finding_views(candidates@);
    let mut components: Vec<Vec<usize>> = Vec::new();
    let mut current: Vec<usize> = Vec::new();
    let mut maximum_end: usize = 0;
    let mut i: usize = 0;
    while i < candidates.len()
        invariant
            i <= candidates@.len(),
            c == finding_views(candidates@),
            (component_views(components@), current@, maximum_end as int) == sweep(c.take(i as int)),
        decreases candidates@.len() - i,
    {
        let span = candidates[i].span();
        proof {
            let t = c.take(i + 1);
            assert(t.drop_last() =~= c.take(i as int));
            assert(t.last() == candidates@[i as int]@);
        }
        if current.len() == 0 {
            current.push(i);
            maximum_end = span.end();
            proof {
                assert(current@ =~= seq![i]);
            }
        } else if span.start() < maximum_end {
            current.push(i);
            if span.end() > maximum_end {
                maximum_end = span.end();
            }
        } else {
            let ghost before = components@;
            let mut finished: Vec<usize> = Vec::new();
            std::mem::swap(&mut finished, &mut current);
            components.push(finished);
            current.push(i);
            maximum_end = span.end();
            proof {
                assert(component_views(components@) =~= component_views(before).push(finished@));
                assert(current@ =~= seq![i]);
            }
        }
        i = i + 1;
    }
    proof {
        assert(c.take(c.len() as int) =~= c);
    }
    if current.len() > 0 {
        let ghost before = components@;
        components.push(current);
        proof {
            assert(component_views(components@) =~= component_views(before).push(current@));
        }
    }
    components
}

/// Decisions recorded by `ConservativeRedaction`: one union per component.
pub open spec fn union_decisions(comps: Seq<Seq<usize>>) -> Seq<DecisionView> {
    Seq::new(comps.len(), |t: int| DecisionView::ConservativeUnion { output: t as usize, candidates: comps[t] })
}

fn union_output(candidates: &[Finding], comp: &Vec<usize>, document: Option<&DocumentBinding>) -> (r: ResolvedFinding)
    requires
        comp@.len() > 0,
        forall|m: int| 0 <= m < comp@.len() ==> comp@[m] < candidates@.len(),
    ensures
        is_union_of(r@, finding_views(candidates@), comp@, opt_ref_binding_view(document)),
{
    let ghost c = finding_views(candidates@);
    let first = comp[0];
    let start = candidates[first].span().start();
    let mut end: usize = 0;
    let mut single = true;
    let mut m: usize = 0;
    while m < comp.len()
        invariant
            m <= comp@.len(),
            c == finding_views(candidates@),
            first == comp@[0],
            forall|k: int| 0 <= k < comp@.len() ==> comp@[k] < candidates@.len(),
            end as int == component_end(c, comp@.take(m as int)),
            single == (forall|k: int| 0 <= k < m ==> c[#[trigger] comp@[k] as int].entity == c[first as int].entity),
        decreases comp@.len() - m,
    {
        let k = comp[m];
        let e = candidates[k].span().end();
        proof {
            let t = comp@.take(m + 1);
            assert(t.drop_last() =~= comp@.take(m as int));
            assert(t.last() == k);
        }
        if e > end {
            end = e;
        }
        let same = candidates[k].entity().same_as(candidates[first].entity());
        proof {
            if single && !same {
                assert(!(forall|j: int| 0 <= j < m + 1 ==> c[#[trigger] comp@[j] as int].entity == c[first as int].entity)) by {
                    assert(c[comp@[m as int] as int].entity != c[first as int].entity);
                }
            }
        }
        single = single && same;
        m = m + 1;
    }
    proof {
        assert(comp@.take(comp@.len() as int) =~= comp@);
        lemma_component_end_bound(c, comp@, 0);
        assert(single == single_entity(c, comp@));
    }
    let first_end = candidates[first].span().end();
    let span = Span::new(start, end).unwrap();
    let entity = if single {
        ResolvedEntity::Single(candidates[first].entity().clone())
    } else {
        ResolvedEntity::Mixed
    };
    ResolvedFinding::Union {
        span,
        entity,
        candidates: copy_ordinals(comp.as_slice()),
        document: match document {
            Some(b) => Some(b.clone()),
            None => None,
        },
    }
}

fn resolve_conservative(candidates: &[Finding], options: &ResolutionOptions, document: Option<&DocumentBinding>) -> (r: Result<
    (Vec<ResolvedFinding>, DecisionSink),
    ResolutionError,
>)
    ensures
        overlap_components(finding_views(candidates@)).len() > options@.max_resolved ==> r
            == Err::<(Vec<ResolvedFinding>, DecisionSink), ResolutionError>(
            ResolutionError::ResolvedLimitExceeded {
                required: overlap_components(finding_views(candidates@)).len() as usize,
                maximum: options@.max_resolved,
            },
        ),
        overlap_components(finding_views(candidates@)).len() <= options@.max_resolved ==> (
        r matches Ok((res, sink)) && sink.wf() && sink.maximum == options@.max_decisions
            && sink.log@ == union_decisions(overlap_components(finding_views(candidates@)))
            && res@.len() == overlap_components(finding_views(candidates@)).len() && (forall|t: int|
            0 <= t < res@.len() ==> is_union_of(
                (#[trigger] res@[t])@,
                finding_views(candidates@),
                overlap_components(finding_views(candidates@))[t],
                opt_ref_binding_view(document),
            ))),
{
    let ghost c = finding_views(candidates@);
    let components = overlap_components_of(candidates);
    let ghost comps = overlap_components(c);
    proof {
        lemma_components_wf(c);
        assert(components@.len() == comps.len());
    }
    if components.len() > options.max_resolved() {
        return Err(
            ResolutionError::ResolvedLimitExceeded {
                required: components.len(),
                maximum: options.max_resolved(),
            },
        );
    }
    let mut sink = DecisionSink::new(options.max_decisions());
    let mut resolved: Vec<ResolvedFinding> = Vec::new();
    let mut t: usize = 0;
    proof {
        assert(union_decisions(comps).take(0) =~= Seq::<DecisionView>::empty());
    }
    while t < components.len()
        invariant
            t <= components@.len(),
            c == finding_views(candidates@),
            comps == overlap_components(c),
            component_views(components@) == comps,
            forall|u: int| 0 <= u < comps.len() ==> (#[trigger] comps[u]).len() > 0,
            forall|u: int, m: int| 0 <= u < comps.len() && 0 <= m < comps[u].len() ==> #[trigger] comps[u][m] < c.len(),
            c.len() == candidates@.len(),
            resolved@.len() == t,
            forall|u: int| 0 <= u < t ==> is_union_of((#[trigger] resolved@[u])@, c, comps[u], opt_ref_binding_view(document)),
            sink.wf(),
            sink.maximum == options@.max_decisions,
            sink.log@ == union_decisions(comps).take(t as int),
        decreases components@.len() - t,
    {
        let comp = &components[t];
        proof {
            assert(comp@ == comps[t as int]);
        }
        let output = union_output(candidates, comp, document);
        resolved.push(output);
        sink.push(ResolutionDecision::ConservativeUnion { output: t, candidates: copy_ordinals(comp.as_slice()) });
        proof {
            assert(union_decisions(comps).take(t + 1) =~= union_decisions(comps).take(t as int).push(
                DecisionView::ConservativeUnion { output: t, candidates: comps[t as int] },
            ));
        }
        t = t + 1;
    }
    proof {
        assert(union_decisions(comps).take(comps.len() as int) =~= union_decisions(comps));
    }
    Ok((resolved, sink))
}

} // verus!

verus! {

/// Abstract content of a [`ResolutionReport`].
pub struct ReportView {
    pub policy: ResolutionPolicy,
    pub policy_version: u16,
    pub document: Option<BindingView>,
    pub candidates: Seq<FindingView>,
    pub resolved: Seq<ResolvedView>,
    pub decisions: Seq<DecisionView>,
    pub status: ResolutionStatus,
}

/// Separate candidate snapshot, resolved output, and bounded decision evidence.
#[derive(Debug, PartialEq)]
pub struct ResolutionReport {
    policy: ResolutionPolicy,
    policy_version: u16,
    document: Option<DocumentBinding>,
    candidates: Vec<Finding>,
    resolved: Vec<ResolvedFinding>,
    decisions: Vec<ResolutionDecision>,
    status: ResolutionStatus,
}

impl View for ResolutionReport {
    type V = ReportView;

    closed spec fn view(&self) -> ReportView {
        ReportView {
            policy: self.policy,
            policy_version: self.policy_version,
            document: opt_binding_view(self.document),
            candidates: finding_views(self.candidates@),
            resolved: resolved_views(self.resolved@),
            decisions: decision_views(self.decisions@),
            status: self.status,
        }
    }
}

impl ResolutionReport {
    /// Stable policy identifier.
    pub fn policy_id(&self) -> (r: &'static str)
        ensures
            r@ == policy_id(self@.policy),
    {
        self.policy.id()
    }

    /// Policy variant used for this report.
    pub fn policy(&self) -> (r: ResolutionPolicy)
        ensures
            r == self@.policy,
    {
        self.policy
    }

    /// Stable policy semantic version.
    pub fn policy_version(&self) -> (r: u16)
        ensures
            r == self@.policy_version,
    {
        self.policy_version
    }

    /// Exact common source binding, when candidates were document-bound.
    pub fn document_binding(&self) -> (r: Option<&DocumentBinding>)
        ensures
            opt_ref_binding_view(r) == self@.document,
    {
        match &self.document {
            Some(b) => Some(b),
            None => None,
        }
    }

    /// Canonically ordered qualifying candidate snapshot.
    pub fn candidates(&self) -> (r: &[Finding])
        ensures
            finding_views(r@) == self@.candidates,
    {
        self.candidates.as_slice()
    }

    /// Resolved outputs.
    pub fn resolved(&self) -> (r: &[ResolvedFinding])
        ensures
            resolved_views(r@) == self@.resolved,
    {
        self.resolved.as_slice()
    }

    /// Retained non-plaintext decision evidence.
    pub fn decisions(&self) -> (r: &[ResolutionDecision])
        ensures
            decision_views(r@) == self@.decisions,
    {
        self.decisions.as_slice()
    }

    /// Output and decision-evidence completeness status.
    pub fn status(&self) -> (r: ResolutionStatus)
        ensures
            r == self@.status,
    {
        self.status
    }
}

/// Qualifying candidates in canonical order: the snapshot a report holds.
pub open spec fn canonical_of(input: Seq<FindingView>, o: OptionsView) -> Seq<FindingView> {
    stable_sort(
        qualifying(input, o.minimum_confidence.spec_bits()),
        crate::canonical::canonical_order(),
    )
}

/// Number of outputs the selected policy produces from canonical candidates.
pub open spec fn required_outputs(c: Seq<FindingView>, o: OptionsView) -> nat {
    match o.policy {
        ResolutionPolicy::ReportAll => c.len(),
        ResolutionPolicy::BestCandidate => best_selection(c, o).0.len(),
        ResolutionPolicy::ConservativeRedaction => overlap_components(c).len(),
    }
}

/// Every decision the selected policy records, before the decision bound.
pub open spec fn all_decisions(c: Seq<FindingView>, o: OptionsView) -> Seq<DecisionView> {
    match o.policy {
        ResolutionPolicy::ReportAll => seq![DecisionView::ReportedAll { retained: c.len() as usize }],
        ResolutionPolicy::BestCandidate => best_selection(c, o).1,
        ResolutionPolicy::ConservativeRedaction => union_decisions(overlap_components(c)),
    }
}

/// The error resolution reports, if any: too many candidates, then inconsistent
/// bindings, then too many outputs.
pub open spec fn resolution_error(input: Seq<FindingView>, o: OptionsView) -> Option<ResolutionError> {
    if input.len() > o.max_candidates {
        Some(ResolutionError::CandidateLimitExceeded { actual: input.len() as usize, maximum: o.max_candidates })
    } else if !bindings_consistent(input) {
        Some(ResolutionError::InconsistentDocumentBinding)
    } else if required_outputs(canonical_of(input, o), o) > o.max_resolved {
        Some(ResolutionError::ResolvedLimitExceeded {
            required: required_outputs(canonical_of(input, o), o) as usize,
            maximum: o.max_resolved,
        })
    } else {
        None
    }
}

/// What a successful resolution report holds.
pub open spec fn resolution_report_ok(input: Seq<FindingView>, o: OptionsView, rep: ReportView) -> bool {
    let c = canonical_of(input, o);
    let decisions = all_decisions(c, o);
    &&& rep.policy == o.policy
    &&& rep.policy_version == RESOLUTION_POLICY_VERSION_V1
    &&& rep.document == shared_binding(input)
    &&& rep.candidates == c
    &&& rep.decisions == kept_decisions(decisions, o.max_decisions)
    &&& rep.status.spec_decision_limit_reached() == (decisions.len() > o.max_decisions)
    &&& match o.policy {
        ResolutionPolicy::ReportAll => rep.resolved == candidate_outputs(ordinals(c.len())),
        ResolutionPolicy::BestCandidate => rep.resolved == candidate_outputs(
            ascending(best_selection(c, o).0),
        ),
        ResolutionPolicy::ConservativeRedaction => {
            &&& rep.resolved.len() == overlap_components(c).len()
            &&& forall|t: int|
                0 <= t < rep.resolved.len() ==> is_union_of(
                    #[trigger] rep.resolved[t],
                    c,
                    overlap_components(c)[t],
                    rep.document,
                )
        },
    }
}

fn consistent_document_binding(candidates: &[Finding]) -> (r: Result<Option<&DocumentBinding>, ResolutionError>)
    ensures
        bindings_consistent(finding_views(candidates@)) ==> (r matches Ok(b) && opt_ref_binding_view(b)
            == shared_binding(finding_views(candidates@))),
        !bindings_consistent(finding_views(candidates@)) ==> r == Err::<Option<&DocumentBinding>, ResolutionError>(
            ResolutionError::InconsistentDocumentBinding,
        ),
{
    let ghost c = finding_views(candidates@);
    if candidates.len() == 0 {
        return Ok(None);
    }
    let expected = candidates[0].document_binding();
    let mut i: usize = 1;
    while i < candidates.len()
        invariant
            1 <= i <= candidates@.len(),
            c == finding_views(candidates@),
            opt_ref_binding_view(expected) == c[0].document,
            forall|j: int| 1 <= j < i ==> #[trigger] c[j].document == c[0].document,
        decreases candidates@.len() - i,
    {
        let other = candidates[i].document_binding();
        let same = match (other, expected) {
            (Some(a), Some(b)) => a.same_as(b),
            (None, None) => true,
            _ => false,
        };
        if !same {
            proof {
                assert(c[i as int].document != c[0].document);
            }
            return Err(ResolutionError::InconsistentDocumentBinding);
        }
        i = i + 1;
    }
    Ok(expected)
}

fn resolve_report_all(candidates: &[Finding], options: &ResolutionOptions) -> (r: Result<
    (Vec<ResolvedFinding>, DecisionSink),
    ResolutionError,
>)
    ensures
        candidates@.len() > options@.max_resolved ==> r == Err::<(Vec<ResolvedFinding>, DecisionSink), ResolutionError>(
            ResolutionError::ResolvedLimitExceeded { required: candidates@.len() as usize, maximum: options@.max_resolved },
        ),
        candidates@.len() <= options@.max_resolved ==> (r matches Ok((res, sink)) && sink.wf()
            && sink.maximum == options@.max_decisions && sink.log@ == seq![
            DecisionView::ReportedAll { retained: candidates@.len() as usize },
        ] && resolved_views(res@) == candidate_outputs(ordinals(candidates@.len()))),
{
    let n = candidates.len();
    if n > options.max_resolved() {
        return Err(ResolutionError::ResolvedLimitExceeded { required: n, maximum: options.max_resolved() });
    }
    let mut sink = DecisionSink::new(options.max_decisions());
    sink.push(ResolutionDecision::ReportedAll { retained: n });
    proof {
        assert(sink.log@ =~= seq![DecisionView::ReportedAll { retained: n }]);
    }
    let mut resolved: Vec<ResolvedFinding> = Vec::new();
    let mut i: usize = 0;
    while i < n
        invariant
            i <= n,
            n == candidates@.len(),
            resolved_views(resolved@) == candidate_outputs(ordinals(n as nat).take(i as int)),
        decreases n - i,
    {
        let ghost before = resolved@;
        resolved.push(ResolvedFinding::Candidate { candidate: i });
        proof {
            assert(resolved_views(resolved@) =~= resolved_views(before).push(
                ResolvedView::Candidate { candidate: i },
            ));
            assert(candidate_outputs(ordinals(n as nat).take(i + 1)) =~= candidate_outputs(
                ordinals(n as nat).take(i as int),
            ).push(ResolvedView::Candidate { candidate: i }));
        }
        i = i + 1;
    }
    proof {
        assert(ordinals(n as nat).take(n as int) =~= ordinals(n as nat));
    }
    Ok((resolved, sink))
}

/// Resolve validated findings under one explicit versioned policy.
///
/// The caller's slice is never mutated. The report owns a canonical candidate
/// snapshot so decision references are independent of caller order. Candidate
/// and output bounds fail before a partial report can be returned; decision
/// evidence alone may be explicitly truncated.
pub fn resolve_candidates(candidates: &[Finding], options: &ResolutionOptions) -> (r: Result<
    ResolutionReport,
    ResolutionError,
>)
    ensures
        resolution_error(finding_views(candidates@), options@) matches Some(e) ==> r == Err::<
            ResolutionReport,
            ResolutionError,
        >(e),
        resolution_error(finding_views(candidates@), options@) is None ==> (r matches Ok(rep)
            && resolution_report_ok(finding_views(candidates@), options@, rep@)),
{
    if candidates.len() > options.max_candidates() {
        return Err(
            ResolutionError::CandidateLimitExceeded {
                actual: candidates.len(),
                maximum: options.max_candidates(),
            },
        );
    }
    let document = consistent_document_binding(candidates)?;
    let canonical = canonical_candidates(candidates, options.minimum_confidence());
    let ghost c = finding_views(canonical@);
    let outcome = match options.policy() {
        ResolutionPolicy::ReportAll => resolve_report_all(canonical.as_slice(), options),
        ResolutionPolicy::BestCandidate => resolve_best_candidate(canonical.as_slice(), options),
        ResolutionPolicy::ConservativeRedaction => resolve_conservative(
            canonical.as_slice(),
            options,
            document,
        ),
    };
    let (resolved, sink) = outcome?;
    let policy = options.policy();
    let report = ResolutionReport {
        policy,
        policy_version: policy.version(),
        document: match document {
            Some(b) => Some(b.clone()),
            None => None,
        },
        candidates: canonical,
        resolved,
        decisions: sink.decisions,
        status: ResolutionStatus::new(sink.limit_reached),
    };
    Ok(report)
}

} // verus!
