//! Properties of the library that relate several functions or hold of every state.
use vstd::prelude::*;

use crate::analyzer::{
    all_candidates, bounded, filter_allows, match_candidates, pattern_candidates, recognizer_candidates,
    registry_candidates, at_least, candidate_finding, candidate_valid, keep_highest, legacy_projection, legacy_result,
    legacy_results, overlap_order, report_built, report_findings, span_order, start_order, RawCandidate,
};
use crate::result::RecognizerResult;
use crate::anonymizer::{apply_all, application_order, engine_operator, never_reversed, EngineView, OperatorView};
use crate::entity::{entity_tag, EntityType};
use crate::recognizer::{pattern_matches, PatternRecognizer};
use crate::score::{f32_le, f32_lt};
use crate::document::{binding_of, binding_text_check, BindingView, TextDocument};
use crate::finding::FindingView;
use crate::recognition::{emit_outcome, emitted_span_check, EmitterView};
use crate::finding::EvidenceView;
use crate::report::{candidate_fits, AnalysisOptions, AnalysisReportView};
use crate::report_resolution::report_fits;
use crate::types::{span_check, Span};
use crate::resolution::{
    all_decisions, best_selection, canonical_of, is_union_of, kept_decisions, overlap_components,
    precedence_sequence, required_outputs, resolution_error, resolution_report_ok, OptionsView,
    ReportView, ResolutionPolicy, ResolvedView, best_run, first_overlap_from, first_duplicate_from,
    spans_overlap, ordinals, ascending, increasing, candidate_outputs, qualifying, bindings_consistent,
    shared_binding, component_end, lemma_component_end_bound, lemma_components_partition,
    resolved_candidates,
};
use crate::order::{
    compare_int, first_greater_from, lemma_first_greater_bounds, lemma_sorted_unique, sorted_by,
    lemma_sorted_unique_by_classes, lemma_stable_sort_classes, tie_class, lemma_stable_sort_elements, lemma_stable_sort_multiset,
    lemma_stable_sort_sorted, stable_sort, total_preorder, Order,
};
use crate::canonical::{canonical_compare, canonical_order};
use crate::preorder::lemma_canonical_preorder;
use crate::reorder::{
    lemma_key_antisymmetric, lemma_key_compare, lemma_map_multiset, lemma_required_outputs_keys, lemma_stable_sort_map,
    resolution_key, spans_valid,
};

verus! {

/// A binding made for a text validates that same text.
pub proof fn law_binding_validates_own_text(id: Seq<char>, text: &str)
    ensures
        binding_text_check(binding_of(id, text), text) is Ok,
{
}

/// An emitter never holds more findings than its limit: an emission attempt on an
/// emitter within its limit leaves it within its limit.
pub proof fn law_emission_stays_within_limit(
    e: EmitterView,
    text: &str,
    entity: Seq<char>,
    start: usize,
    end: usize,
    score: u32,
    evidence: Seq<EvidenceView>,
)
    requires
        e.findings.len() <= e.maximum,
    ensures
        emit_outcome(e, text, entity, start, end, score, evidence).0.findings.len() <= e.maximum,
        emit_outcome(e, text, entity, start, end, score, evidence).0.maximum == e.maximum,
        emit_outcome(e, text, entity, start, end, score, evidence).0.findings.len()
            >= e.findings.len(),
{
}

#[verifier::spinoff_prover]
proof fn lemma_findings_fit(
    text: &str,
    raw: Seq<RawCandidate>,
    b: BindingView,
    k: int,
)
    requires
        0 <= k <= raw.len(),
    ensures
        forall|i: int|
            0 <= i < report_findings(text, raw, Some(b), k).len() ==> candidate_fits(
                #[trigger] report_findings(text, raw, Some(b), k)[i],
                b,
                text,
            ),
    decreases k,
{
    if k > 0 {
        lemma_findings_fit(text, raw, b, k - 1);
        let c = raw[k - 1];
        if candidate_valid(text, c) {
            Span::lemma_made_offsets(c.start, c.end);
            assert(span_check(text, c.start, c.end) is Ok);
            let before = report_findings(text, raw, Some(b), k - 1);
            assert forall|i: int| 0 <= i < before.len() + 1 implies candidate_fits(
                #[trigger] before.push(candidate_finding(c, Some(b)))[i],
                b,
                text,
            ) by {
                if i < before.len() {
                    assert(before.push(candidate_finding(c, Some(b)))[i] == before[i]);
                }
            }
        }
    }
}

/// A report built for a document holds only candidates that are bound to that
/// document and whose spans are valid for it, so it always validates against the
/// document it was built for.
pub proof fn law_document_report_fits(
    rep: AnalysisReportView,
    document: TextDocument<'_>,
    raw: Seq<RawCandidate>,
    total: nat,
    threshold: u32,
    options: AnalysisOptions,
)
    requires
        report_built(
            rep,
            document.spec_original(),
            raw,
            total,
            threshold,
            options,
            Some(document.binding_view()),
        ),
    ensures
        report_fits(rep, document),
{
    let text = document.spec_original();
    let b = document.binding_view();
    let fs = report_findings(text, raw, Some(b), raw.len() as int);
    lemma_findings_fit(text, raw, b, raw.len() as int);
    crate::order::lemma_stable_sort_elements(fs, span_order());
    assert forall|i: int| 0 <= i < rep.candidates.len() implies candidate_fits(
        #[trigger] rep.candidates[i],
        b,
        text,
    ) by {
        assert(rep.candidates.contains(rep.candidates[i]));
        assert(fs.contains(rep.candidates[i]));
    }
}

/// Options that differ at most in their decision limit.
pub open spec fn same_but_decision_limit(o1: OptionsView, o2: OptionsView) -> bool {
    o1 == (OptionsView { max_decisions: o1.max_decisions, ..o2 })
}

proof fn lemma_same_precedence(c: Seq<FindingView>, o1: OptionsView, o2: OptionsView)
    requires
        same_but_decision_limit(o1, o2),
    ensures
        precedence_sequence(c, o1) == precedence_sequence(c, o2),
        best_selection(c, o1) == best_selection(c, o2),
{
    reveal(crate::canonical::precedence_compare);
    assert(crate::canonical::precedence_order(c, o1) =~= crate::canonical::precedence_order(c, o2));
}

/// Two union outputs of the same component are the same output.
proof fn lemma_union_unique(
    r1: ResolvedView,
    r2: ResolvedView,
    c: Seq<FindingView>,
    comp: Seq<usize>,
    document: Option<crate::document::BindingView>,
)
    requires
        is_union_of(r1, c, comp, document),
        is_union_of(r2, c, comp, document),
    ensures
        r1 == r2,
{
    match (r1, r2) {
        (ResolvedView::Union { span: s1, .. }, ResolvedView::Union { span: s2, .. }) => {
            s1.lemma_made();
            s2.lemma_made();
        },
        _ => {},
    }
}

/// The decision limit only bounds decision evidence: resolving the same candidates
/// under options that differ only in that limit fails or succeeds alike, and succeeds
/// with the same candidate snapshot, the same resolved output, and decision logs of
/// which the shorter is a prefix of the longer.
pub proof fn law_decision_limit_only_truncates_evidence(
    input: Seq<FindingView>,
    o1: OptionsView,
    o2: OptionsView,
    r1: ReportView,
    r2: ReportView,
)
    requires
        same_but_decision_limit(o1, o2),
    ensures
        resolution_error(input, o1) == resolution_error(input, o2),
        (resolution_error(input, o1) is None && resolution_report_ok(input, o1, r1)
            && resolution_report_ok(input, o2, r2)) ==> {
            &&& r1.candidates == r2.candidates
            &&& r1.resolved == r2.resolved
            &&& o1.max_decisions <= o2.max_decisions ==> r1.decisions.is_prefix_of(r2.decisions)
        },
{
    let c = canonical_of(input, o1);
    assert(canonical_of(input, o2) == c);
    lemma_same_precedence(c, o1, o2);
    assert(required_outputs(c, o1) == required_outputs(c, o2));
    assert(all_decisions(c, o1) == all_decisions(c, o2));
    if resolution_error(input, o1) is None && resolution_report_ok(input, o1, r1)
        && resolution_report_ok(input, o2, r2) {
        if o1.policy == ResolutionPolicy::ConservativeRedaction {
            assert forall|t: int| 0 <= t < r1.resolved.len() implies r1.resolved[t]
                == r2.resolved[t] by {
                lemma_union_unique(
                    r1.resolved[t],
                    r2.resolved[t],
                    c,
                    overlap_components(c)[t],
                    r1.document,
                );
            }
            assert(r1.resolved =~= r2.resolved);
        }
        if o1.max_decisions <= o2.max_decisions {
            let all = all_decisions(c, o1);
            assert(r1.decisions == kept_decisions(all, o1.max_decisions));
            assert(r2.decisions == kept_decisions(all, o2.max_decisions));
            assert(r1.decisions.len() <= r2.decisions.len());
            assert forall|i: int| 0 <= i < r1.decisions.len() implies r1.decisions[i]
                == r2.decisions[i] by {}
        }
    }
}

proof fn lemma_no_overlap_from(c: Seq<FindingView>, sel: Seq<usize>, cand: int, i: int)
    requires
        0 <= i,
        first_overlap_from(c, sel, cand, i) is None,
    ensures
        forall|j: int| i <= j < sel.len() ==> !spans_overlap(c[#[trigger] sel[j] as int].span, c[cand].span),
    decreases sel.len() - i,
{
    if i < sel.len() {
        lemma_no_overlap_from(c, sel, cand, i + 1);
    }
}

/// The candidates `BestCandidate` retains come from the order it walks, each once, and
/// no two of them overlap.
proof fn lemma_best_run_disjoint(c: Seq<FindingView>, order: Seq<usize>)
    requires
        order.no_duplicates(),
    ensures
        ({
            let sel = best_run(c, order).0;
            &&& sel.no_duplicates()
            &&& forall|i: int| 0 <= i < sel.len() ==> order.contains(#[trigger] sel[i])
            &&& forall|i: int, j: int|
                0 <= i < j < sel.len() ==> !spans_overlap(
                    c[#[trigger] sel[i] as int].span,
                    c[#[trigger] sel[j] as int].span,
                )
        }),
    decreases order.len(),
{
    if order.len() > 0 {
        let prev = order.drop_last();
        assert(prev.no_duplicates());
        lemma_best_run_disjoint(c, prev);
        let sel = best_run(c, prev).0;
        let cand = order.last();
        assert forall|i: int| 0 <= i < sel.len() implies order.contains(#[trigger] sel[i]) by {
            let k = choose|k: int| 0 <= k < prev.len() && prev[k] == sel[i];
            assert(order[k] == sel[i]);
        }
        if first_duplicate_from(c, sel, cand as int, 0) is None && first_overlap_from(
            c,
            sel,
            cand as int,
            0,
        ) is None {
            lemma_no_overlap_from(c, sel, cand as int, 0);
            let next = sel.push(cand);
            assert(!sel.contains(cand)) by {
                if sel.contains(cand) {
                    let i = choose|i: int| 0 <= i < sel.len() && sel[i] == cand;
                    assert(prev.contains(sel[i]));
                    let k = choose|k: int| 0 <= k < prev.len() && prev[k] == cand;
                    assert(order[k] == order[order.len() - 1]);
                }
            }
            assert forall|i: int, j: int| 0 <= i < j < next.len() implies !spans_overlap(
                c[#[trigger] next[i] as int].span,
                c[#[trigger] next[j] as int].span,
            ) by {
                if j == sel.len() {
                    assert(!spans_overlap(c[sel[i] as int].span, c[cand as int].span));
                } else {
                    assert(next[i] == sel[i] && next[j] == sel[j]);
                }
            }
            assert forall|i: int| 0 <= i < next.len() implies order.contains(#[trigger] next[i]) by {
                if i == sel.len() {
                    assert(order[order.len() - 1] == cand);
                } else {
                    assert(next[i] == sel[i]);
                }
            }
        }
    }
}

/// Filtering by confidence keeps at most the candidates it was given.
proof fn lemma_qualifying_len(s: Seq<FindingView>, minimum: u32)
    ensures
        crate::resolution::qualifying(s, minimum).len() <= s.len(),
    decreases s.len(),
{
    if s.len() > 0 {
        lemma_qualifying_len(s.drop_last(), minimum);
    }
}

/// The canonical snapshot holds at most as many candidates as the input.
proof fn lemma_canonical_len(input: Seq<FindingView>, o: OptionsView)
    ensures
        canonical_of(input, o).len() <= input.len(),
{
    lemma_qualifying_len(input, o.minimum_confidence.spec_bits());
    crate::order::lemma_stable_sort_len(
        crate::resolution::qualifying(input, o.minimum_confidence.spec_bits()),
        crate::canonical::canonical_order(),
    );
}

/// Integer order on ordinals.
pub open spec fn ordinal_order() -> spec_fn(usize, usize) -> Order {
    |a: usize, b: usize| compare_int(a as int, b as int)
}

/// A duplicate-free sequence of ordinals has an increasing arrangement.
proof fn lemma_ascending(s: Seq<usize>)
    requires
        s.no_duplicates(),
    ensures
        increasing(ascending(s)),
        forall|x: usize| ascending(s).contains(x) <==> s.contains(x),
{
    let f = ordinal_order();
    assert(total_preorder(f));
    lemma_stable_sort_sorted(s, f);
    lemma_stable_sort_elements(s, f);
    let w = stable_sort(s, f);
    assert forall|i: int, j: int| 0 <= i < j < w.len() implies w[i] < w[j] by {
        assert(!(f(w[i], w[j]) is Greater));
        assert(w[i] != w[j]);
    }
    assert(increasing(w));
}

/// `BestCandidate` never retains two overlapping candidates: every output is a
/// distinct canonical candidate, and no two outputs' spans share a byte.
pub proof fn law_best_candidate_outputs_disjoint(input: Seq<FindingView>, o: OptionsView, rep: ReportView)
    requires
        o.policy == ResolutionPolicy::BestCandidate,
        resolution_error(input, o) is None,
        resolution_report_ok(input, o, rep),
    ensures
        forall|t: int|
            0 <= t < rep.resolved.len() ==> (#[trigger] rep.resolved[t] matches ResolvedView::Candidate {
                candidate,
            } && candidate < rep.candidates.len()),
        forall|t1: int, t2: int|
            0 <= t1 < t2 < rep.resolved.len() ==> (#[trigger] rep.resolved[t1] matches ResolvedView::Candidate {
                candidate: p,
            } && #[trigger] rep.resolved[t2] matches ResolvedView::Candidate { candidate: q } && p != q
                && !spans_overlap(rep.candidates[p as int].span, rep.candidates[q as int].span)),
{
    let c = canonical_of(input, o);
    let n = c.len();
    lemma_canonical_len(input, o);
    assert(n <= usize::MAX);
    let order = precedence_sequence(c, o);
    let f = crate::canonical::precedence_order(c, o);
    lemma_stable_sort_elements(ordinals(n), f);
    assert(ordinals(n).no_duplicates()) by {
        assert forall|i: int, j: int| 0 <= i < ordinals(n).len() && 0 <= j < ordinals(n).len() && i
            != j implies ordinals(n)[i] != ordinals(n)[j] by {}
    }
    lemma_best_run_disjoint(c, order);
    let sel = best_selection(c, o).0;
    assert(sel == best_run(c, order).0);
    lemma_ascending(sel);
    let t = ascending(sel);
    assert(rep.resolved == candidate_outputs(t));
    assert forall|k: int| 0 <= k < t.len() implies sel.contains(#[trigger] t[k]) && t[k] < n by {
        assert(t.contains(t[k]));
        let i = choose|i: int| 0 <= i < sel.len() && sel[i] == t[k];
        assert(order.contains(sel[i]));
        assert(ordinals(n).contains(sel[i]));
    }
    assert forall|t1: int, t2: int| 0 <= t1 < t2 < rep.resolved.len() implies (
    #[trigger] rep.resolved[t1] matches ResolvedView::Candidate { candidate: p }
        && #[trigger] rep.resolved[t2] matches ResolvedView::Candidate { candidate: q } && p != q
        && !spans_overlap(rep.candidates[p as int].span, rep.candidates[q as int].span)) by {
        let p = t[t1];
        let q = t[t2];
        assert(sel.contains(p) && sel.contains(q));
        let i = choose|i: int| 0 <= i < sel.len() && sel[i] == p;
        let j = choose|j: int| 0 <= j < sel.len() && sel[j] == q;
        assert(p < q);
        if i < j {
            assert(!spans_overlap(c[sel[i] as int].span, c[sel[j] as int].span));
        } else {
            assert(!spans_overlap(c[sel[j] as int].span, c[sel[i] as int].span));
        }
    }
}

} // verus!

verus! {

/// How often a finding occurs among the qualifying candidates: as often as in the
/// input when it reaches the minimum, never otherwise.
proof fn lemma_qualifying_count(s: Seq<FindingView>, minimum: u32, x: FindingView)
    ensures
        qualifying(s, minimum).to_multiset().count(x) == if x.confidence.spec_bits() >= minimum {
            s.to_multiset().count(x)
        } else {
            0
        },
    decreases s.len(),
{
    broadcast use vstd::seq_lib::group_to_multiset_ensures, vstd::multiset::group_multiset_axioms;

    if s.len() > 0 {
        let rest = s.drop_last();
        let last = s.last();
        lemma_qualifying_count(rest, minimum, x);
        assert(rest.push(last) =~= s);
        vstd::seq_lib::to_multiset_build(rest, last);
        vstd::multiset::lemma_insert_increases_count_by_1(rest.to_multiset(), last);
        vstd::multiset::lemma_insert_other_elements_unchanged(rest.to_multiset(), last, x);
        if last.confidence.spec_bits() >= minimum {
            let q = qualifying(rest, minimum);
            vstd::seq_lib::to_multiset_build(q, last);
            vstd::multiset::lemma_insert_increases_count_by_1(q.to_multiset(), last);
            vstd::multiset::lemma_insert_other_elements_unchanged(q.to_multiset(), last, x);
        }
    } else {
        assert(qualifying(s, minimum) =~= Seq::<FindingView>::empty());
    }
}

/// A finding occurs in a run exactly when the run's multiset counts it.
proof fn lemma_member_count(s: Seq<FindingView>, x: FindingView)
    ensures
        s.contains(x) <==> s.to_multiset().count(x) > 0,
{
    broadcast use vstd::seq_lib::group_to_multiset_ensures;

    vstd::seq_lib::to_multiset_contains(s, x);
}

/// Two runs holding the same findings agree on whether their bindings are
/// consistent, and then on the binding they share.
proof fn lemma_bindings_permuted(a: Seq<FindingView>, b: Seq<FindingView>)
    requires
        a.to_multiset() == b.to_multiset(),
    ensures
        bindings_consistent(a) == bindings_consistent(b),
        bindings_consistent(a) ==> shared_binding(a) == shared_binding(b),
{
    if bindings_consistent(a) {
        lemma_consistent_carries(a, b);
    }
    if bindings_consistent(b) {
        lemma_consistent_carries(b, a);
    }
    if bindings_consistent(a) && a.len() > 0 {
        lemma_member_count(a, b[0]);
        lemma_member_count(b, b[0]);
        assert(b.contains(b[0]));
        let k = choose|k: int| 0 <= k < a.len() && a[k] == b[0];
        assert(a[k].document == a[0].document);
    }
}

/// Consistent bindings carry over to any run holding the same findings.
proof fn lemma_consistent_carries(a: Seq<FindingView>, b: Seq<FindingView>)
    requires
        a.to_multiset() == b.to_multiset(),
        bindings_consistent(a),
    ensures
        bindings_consistent(b),
        b.len() == a.len(),
{
    vstd::seq_lib::to_multiset_len(a);
    vstd::seq_lib::to_multiset_len(b);
    assert forall|i: int| 1 <= i < b.len() implies #[trigger] b[i].document == b[0].document by {
        lemma_member_count(b, b[i]);
        lemma_member_count(a, b[i]);
        lemma_member_count(b, b[0]);
        lemma_member_count(a, b[0]);
        assert(b.contains(b[i]));
        assert(b.contains(b[0]));
        let k = choose|k: int| 0 <= k < a.len() && a[k] == b[i];
        let l = choose|l: int| 0 <= l < a.len() && a[l] == b[0];
        assert(k == 0 || a[k].document == a[0].document);
        assert(l == 0 || a[l].document == a[0].document);
    }
}

/// Resolution does not depend on the order in which candidates arrive: two inputs
/// that hold the same findings, in which the qualifying findings that tie in the
/// canonical order come in the same relative order, fail with the same error or
/// succeed with the same report.
pub proof fn law_resolution_order_independent(
    a: Seq<FindingView>,
    b: Seq<FindingView>,
    o: OptionsView,
    ra: ReportView,
    rb: ReportView,
)
    requires
        a.to_multiset() == b.to_multiset(),
        forall|x: FindingView|
            #[trigger] tie_class(qualifying(a, o.minimum_confidence.spec_bits()), canonical_order(), x)
                == tie_class(qualifying(b, o.minimum_confidence.spec_bits()), canonical_order(), x),
    ensures
        resolution_error(a, o) == resolution_error(b, o),
        resolution_error(a, o) is None && resolution_report_ok(a, o, ra) && resolution_report_ok(b, o, rb)
            ==> ra == rb,
{
    broadcast use vstd::seq_lib::group_to_multiset_ensures;

    let m = o.minimum_confidence.spec_bits();
    let f = canonical_order();
    let qa = qualifying(a, m);
    let qb = qualifying(b, m);
    vstd::seq_lib::to_multiset_len(a);
    vstd::seq_lib::to_multiset_len(b);
    assert(qa.to_multiset() =~= qb.to_multiset()) by {
        assert forall|x: FindingView| qa.to_multiset().count(x) == qb.to_multiset().count(x) by {
            lemma_qualifying_count(a, m, x);
            lemma_qualifying_count(b, m, x);
        }
    }
    let ca = stable_sort(qa, f);
    let cb = stable_sort(qb, f);
    lemma_canonical_preorder();
    lemma_stable_sort_sorted(qa, f);
    lemma_stable_sort_sorted(qb, f);
    lemma_stable_sort_multiset(qa, f);
    lemma_stable_sort_multiset(qb, f);
    assert forall|x: FindingView| #[trigger] tie_class(ca, f, x) == tie_class(cb, f, x) by {
        lemma_stable_sort_classes(qa, f, x);
        lemma_stable_sort_classes(qb, f, x);
    }
    lemma_sorted_unique_by_classes(ca, cb, f);
    assert(canonical_of(a, o) == canonical_of(b, o));
    lemma_bindings_permuted(a, b);
    if resolution_error(a, o) is None && resolution_report_ok(a, o, ra) && resolution_report_ok(b, o, rb) {
        let c = canonical_of(a, o);
        ra.status.lemma_determined(rb.status);
        if o.policy == ResolutionPolicy::ConservativeRedaction {
            assert forall|t: int| 0 <= t < ra.resolved.len() implies ra.resolved[t] == rb.resolved[t] by {
                lemma_union_unique(ra.resolved[t], rb.resolved[t], c, overlap_components(c)[t], ra.document);
            }
            assert(ra.resolved =~= rb.resolved);
        }
    }
}

/// Whether resolution fails, and with which error, does not depend on the order in
/// which candidates arrive: two inputs that hold the same findings fail with the same
/// error, or both succeed.
pub proof fn law_resolution_error_order_independent(a: Seq<FindingView>, b: Seq<FindingView>, o: OptionsView)
    requires
        a.to_multiset() == b.to_multiset(),
        spans_valid(a),
    ensures
        resolution_error(a, o) == resolution_error(b, o),
{
    broadcast use vstd::seq_lib::group_to_multiset_ensures;

    let m = o.minimum_confidence.spec_bits();
    let f = canonical_order();
    let key = |x: FindingView| resolution_key(x);
    let qa = qualifying(a, m);
    let qb = qualifying(b, m);
    vstd::seq_lib::to_multiset_len(a);
    vstd::seq_lib::to_multiset_len(b);
    assert(qa.to_multiset() =~= qb.to_multiset()) by {
        assert forall|x: FindingView| qa.to_multiset().count(x) == qb.to_multiset().count(x) by {
            lemma_qualifying_count(a, m, x);
            lemma_qualifying_count(b, m, x);
        }
    }
    lemma_bindings_permuted(a, b);
    lemma_canonical_preorder();
    let ka = qa.map_values(key);
    let kb = qb.map_values(key);
    lemma_map_multiset(qa, qb, key);
    assert forall|x: FindingView, y: FindingView| qa.contains(x) && qa.contains(y) implies #[trigger] f(x, y) == f(
        key(x),
        key(y),
    ) by {
        lemma_key_compare(x, y);
    }
    assert forall|x: FindingView, y: FindingView| qb.contains(x) && qb.contains(y) implies #[trigger] f(x, y) == f(
        key(x),
        key(y),
    ) by {
        lemma_key_compare(x, y);
    }
    lemma_stable_sort_map(qa, f, f, key);
    lemma_stable_sort_map(qb, f, f, key);
    let sa = stable_sort(ka, f);
    let sb = stable_sort(kb, f);
    lemma_stable_sort_sorted(ka, f);
    lemma_stable_sort_sorted(kb, f);
    lemma_stable_sort_multiset(ka, f);
    lemma_stable_sort_multiset(kb, f);
    lemma_stable_sort_elements(ka, f);
    assert forall|x: FindingView, y: FindingView| sa.contains(x) && sa.contains(y) && (#[trigger] f(x, y)) is Equal implies x
        == y by {
        assert(ka.contains(x));
        assert(ka.contains(y));
        let i = choose|i: int| 0 <= i < ka.len() && ka[i] == x;
        let j = choose|j: int| 0 <= j < ka.len() && ka[j] == y;
        lemma_key_compare(qa[i], qa[j]);
        lemma_key_compare(qa[j], qa[i]);
        lemma_key_antisymmetric(x, y);
    }
    lemma_sorted_unique(sa, sb, f);
    let ca = stable_sort(qa, f);
    let cb = stable_sort(qb, f);
    lemma_stable_sort_elements(qa, f);
    assert forall|k: int| 0 <= k < ca.len() implies (#[trigger] ca[k]).span.spec_start() < ca[k].span.spec_end() by {
        let x = ca[k];
        assert(ca.contains(x));
        assert(qa.contains(x));
        lemma_qualifying_count(a, m, x);
        vstd::seq_lib::to_multiset_contains(qa, x);
        vstd::seq_lib::to_multiset_contains(a, x);
        let i = choose|i: int| 0 <= i < a.len() && a[i] == x;
        assert(a[i].span.spec_start() < a[i].span.spec_end());
    }
    assert(ca == canonical_of(a, o));
    assert(cb == canonical_of(b, o));
    lemma_required_outputs_keys(ca, cb, o);
}

} // verus!

verus! {

/// Results whose spans follow one another: each ends no later than any later one starts.
pub open spec fn spans_in_sequence(s: Seq<RecognizerResult>) -> bool {
    forall|i: int, j: int| 0 <= i < j < s.len() ==> (#[trigger] s[i]).end <= (#[trigger] s[j]).start
}

/// Results whose starts never decrease.
pub open spec fn starts_ordered(s: Seq<RecognizerResult>) -> bool {
    forall|i: int, j: int| 0 <= i < j < s.len() ==> (#[trigger] s[i]).start <= (#[trigger] s[j]).start
}

/// Sorting a sequence that is already sorted leaves it as it is.
proof fn lemma_stable_sort_of_sorted<T>(s: Seq<T>, f: spec_fn(T, T) -> Order)
    requires
        sorted_by(s, f),
    ensures
        stable_sort(s, f) == s,
    decreases s.len(),
{
    if s.len() > 0 {
        let rest = s.drop_last();
        assert(sorted_by(rest, f)) by {
            assert forall|i: int, j: int| 0 <= i < j < rest.len() implies !(f(
                #[trigger] rest[i],
                #[trigger] rest[j],
            ) is Greater) by {
                assert(rest[i] == s[i] && rest[j] == s[j]);
            }
        }
        lemma_stable_sort_of_sorted(rest, f);
        let x = s.last();
        lemma_first_greater_bounds(rest, x, f, 0);
        let p = first_greater_from(rest, x, f, 0);
        if p < rest.len() {
            assert(rest[p] == s[p]);
            assert(!(f(s[p], s[s.len() - 1]) is Greater));
        }
        assert(rest.insert(p, x) =~= s);
    }
}

/// Sorting in overlap order leaves the results in order of start, whatever the score
/// comparison answers where the starts are equal.
proof fn lemma_overlap_sort_starts(s: Seq<RecognizerResult>)
    ensures
        starts_ordered(stable_sort(s, overlap_order())),
    decreases s.len(),
{
    let f = overlap_order();
    if s.len() > 0 {
        let rest = stable_sort(s.drop_last(), f);
        let x = s.last();
        lemma_overlap_sort_starts(s.drop_last());
        lemma_first_greater_bounds(rest, x, f, 0);
        let p = first_greater_from(rest, x, f, 0);
        let t = rest.insert(p, x);
        assert(t == stable_sort(s, f));
        assert forall|i: int| 0 <= i < rest.len() implies (i < p ==> (#[trigger] rest[i]).start <= x.start) && (
        i >= p ==> x.start <= rest[i].start) by {
            if i < p {
                assert(!(f(rest[i], x) is Greater));
            } else {
                assert(f(rest[p], x) is Greater);
                if i > p {
                    assert(rest[p].start <= rest[i].start);
                }
            }
        }
        assert forall|i: int, j: int| 0 <= i < j < t.len() implies (#[trigger] t[i]).start <= (
        #[trigger] t[j]).start by {
            if j < p {
                assert(t[i] == rest[i] && t[j] == rest[j]);
            } else if j == p {
                assert(t[j] == x && t[i] == rest[i]);
            } else if i < p {
                assert(t[i] == rest[i] && t[j] == rest[j - 1]);
            } else if i == p {
                assert(t[i] == x && t[j] == rest[j - 1]);
            } else {
                assert(t[i] == rest[i - 1] && t[j] == rest[j - 1]);
            }
        }
    }
}

/// What the overlap walk keeps comes from its input, in sequence and in order of start.
proof fn lemma_keep_highest_in_sequence(s: Seq<RecognizerResult>)
    requires
        starts_ordered(s),
    ensures
        spans_in_sequence(keep_highest(s)),
        starts_ordered(keep_highest(s)),
        forall|x: RecognizerResult| keep_highest(s).contains(x) ==> s.contains(x),
    decreases s.len(),
{
    if s.len() > 0 {
        let rest = s.drop_last();
        let r = s.last();
        assert forall|i: int, j: int| 0 <= i < j < rest.len() implies (#[trigger] rest[i]).start <= (
        #[trigger] rest[j]).start by {
            assert(rest[i] == s[i] && rest[j] == s[j]);
        }
        lemma_keep_highest_in_sequence(rest);
        let kept = keep_highest(rest);
        assert(r == s[s.len() - 1]);
        assert forall|x: RecognizerResult| kept.contains(x) implies s.contains(x) && x.start <= r.start by {
            assert(rest.contains(x));
            let k = choose|k: int| 0 <= k < rest.len() && rest[k] == x;
            assert(s[k] == x);
        }
        assert forall|i: int| 0 <= i < kept.len() implies (#[trigger] kept[i]).start <= r.start by {
            assert(kept.contains(kept[i]));
        }
        let out = keep_highest(s);
        if kept.len() > 0 && r.start < kept.last().end {
            if f32_lt(kept.last().score, r.score) {
                let n = kept.len() - 1;
                assert(out == kept.update(n, r));
                assert forall|i: int, j: int| 0 <= i < j < out.len() implies (#[trigger] out[i]).end <= (
                #[trigger] out[j]).start && out[i].start <= out[j].start by {
                    assert(out[i] == kept[i]);
                    if j == n {
                        assert(kept[i].end <= kept[n].start);
                    } else {
                        assert(out[j] == kept[j]);
                    }
                }
                assert forall|x: RecognizerResult| out.contains(x) implies s.contains(x) by {
                    let i = choose|i: int| 0 <= i < out.len() && out[i] == x;
                    if i < n {
                        assert(kept[i] == x);
                        assert(kept.contains(x));
                    }
                }
            }
        } else {
            assert(out == kept.push(r));
            assert forall|i: int, j: int| 0 <= i < j < out.len() implies (#[trigger] out[i]).end <= (
            #[trigger] out[j]).start && out[i].start <= out[j].start by {
                assert(out[i] == kept[i]);
                if j == kept.len() {
                    if i < kept.len() - 1 {
                        assert(kept[i].end <= kept[kept.len() - 1].start);
                    }
                } else {
                    assert(out[j] == kept[j]);
                }
            }
            assert forall|x: RecognizerResult| out.contains(x) implies s.contains(x) by {
                let i = choose|i: int| 0 <= i < out.len() && out[i] == x;
                if i < kept.len() {
                    assert(kept[i] == x);
                    assert(kept.contains(x));
                }
            }
        }
    }
}

/// Keeping the results at or above a threshold keeps them in sequence and in order
/// of start.
proof fn lemma_at_least_in_sequence(s: Seq<RecognizerResult>, threshold: u32)
    requires
        spans_in_sequence(s),
        starts_ordered(s),
    ensures
        spans_in_sequence(at_least(s, threshold)),
        starts_ordered(at_least(s, threshold)),
        forall|x: RecognizerResult| at_least(s, threshold).contains(x) ==> s.contains(x),
    decreases s.len(),
{
    if s.len() > 0 {
        let rest = s.drop_last();
        assert forall|i: int, j: int| 0 <= i < j < rest.len() implies (#[trigger] rest[i]).end <= (
        #[trigger] rest[j]).start && rest[i].start <= rest[j].start by {
            assert(rest[i] == s[i] && rest[j] == s[j]);
        }
        lemma_at_least_in_sequence(rest, threshold);
        let a = at_least(rest, threshold);
        let out = at_least(s, threshold);
        assert forall|x: RecognizerResult| a.contains(x) implies s.contains(x) && x.end <= s.last().start
            && x.start <= s.last().start by {
            assert(rest.contains(x));
            let k = choose|k: int| 0 <= k < rest.len() && rest[k] == x;
            assert(s[k] == x);
        }
        if f32_le(threshold, s.last().score) {
            assert(out == a.push(s.last()));
            assert forall|i: int, j: int| 0 <= i < j < out.len() implies (#[trigger] out[i]).end <= (
            #[trigger] out[j]).start && out[i].start <= out[j].start by {
                assert(out[i] == a[i]);
                assert(a.contains(a[i]));
                if j < out.len() - 1 {
                    assert(out[j] == a[j]);
                }
            }
            assert forall|x: RecognizerResult| out.contains(x) implies s.contains(x) by {
                let i = choose|i: int| 0 <= i < out.len() && out[i] == x;
                if i == out.len() - 1 {
                    assert(s[s.len() - 1] == x);
                } else {
                    assert(a[i] == x);
                    assert(a.contains(x));
                }
            }
        }
    }
}

/// The legacy analysis resolves overlaps: the results it keeps follow one another,
/// each ending no later than the next one starts, so no two of them overlap and
/// they come in order of start.
pub proof fn law_legacy_results_in_sequence(cs: Seq<RawCandidate>, threshold: u32)
    ensures
        spans_in_sequence(legacy_projection(cs, threshold)),
{
    let f = overlap_order();
    let results = legacy_results(cs);
    lemma_overlap_sort_starts(results);
    let sorted = stable_sort(results, f);
    lemma_keep_highest_in_sequence(sorted);
    let kept = keep_highest(sorted);
    lemma_at_least_in_sequence(kept, threshold);
    let above = at_least(kept, threshold);
    assert(sorted_by(above, start_order()));
    lemma_stable_sort_of_sorted(above, start_order());
}

} // verus!

verus! {

/// The span of a union output (none for an output that stands for one candidate).
pub open spec fn union_span(r: ResolvedView) -> Option<Span> {
    match r {
        ResolvedView::Union { span, .. } => Some(span),
        ResolvedView::Candidate { .. } => None,
    }
}

/// A candidate ordered no later than another one does not start after it.
proof fn lemma_canonical_starts(a: FindingView, b: FindingView)
    requires
        !(canonical_compare(a, b) is Greater),
    ensures
        a.span.spec_start() <= b.span.spec_start(),
{
    reveal(canonical_compare);
}

/// Conservative redaction covers every candidate once: its union outputs stand for
/// the canonical candidates in order, each candidate in exactly one union and inside
/// that union's span, and the union spans follow one another without overlap.
pub proof fn law_conservative_unions_partition(input: Seq<FindingView>, o: OptionsView, rep: ReportView)
    requires
        input.len() <= usize::MAX,
        o.policy == ResolutionPolicy::ConservativeRedaction,
        resolution_error(input, o) is None,
        resolution_report_ok(input, o, rep),
    ensures
        Seq::new(rep.resolved.len(), |t: int| resolved_candidates(rep.resolved[t])).flatten() == ordinals(
            rep.candidates.len(),
        ),
        forall|t: int| 0 <= t < rep.resolved.len() ==> (#[trigger] union_span(rep.resolved[t])) is Some,
        forall|t: int, m: int|
            0 <= t < rep.resolved.len() && 0 <= m < resolved_candidates(rep.resolved[t]).len() ==> {
                let span = union_span(rep.resolved[t])->0;
                let member = rep.candidates[(#[trigger] resolved_candidates(rep.resolved[t])[m]) as int].span;
                span.spec_start() <= member.spec_start() && member.spec_end() <= span.spec_end()
            },
        forall|t: int|
            0 <= t < rep.resolved.len() - 1 ==> (#[trigger] union_span(rep.resolved[t]))->0.spec_end() <= union_span(
                rep.resolved[t + 1],
            )->0.spec_start(),
{
    let c = canonical_of(input, o);
    let comps = overlap_components(c);
    let q = qualifying(input, o.minimum_confidence.spec_bits());
    lemma_qualifying_len(input, o.minimum_confidence.spec_bits());
    lemma_stable_sort_elements(q, canonical_order());
    lemma_components_partition(c);
    lemma_canonical_preorder();
    lemma_stable_sort_sorted(q, canonical_order());
    let outs = Seq::new(rep.resolved.len(), |t: int| resolved_candidates(rep.resolved[t]));
    assert(outs =~= comps) by {
        assert forall|t: int| 0 <= t < outs.len() implies outs[t] == comps[t] by {
            assert(is_union_of(rep.resolved[t], c, comps[t], rep.document));
        }
    }
    assert forall|t: int| 0 <= t < rep.resolved.len() implies (#[trigger] union_span(rep.resolved[t])) is Some by {
        assert(is_union_of(rep.resolved[t], c, comps[t], rep.document));
    }
    assert forall|t: int, m: int|
        0 <= t < rep.resolved.len() && 0 <= m < resolved_candidates(rep.resolved[t]).len() implies {
            let span = union_span(rep.resolved[t])->0;
            let member = rep.candidates[(#[trigger] resolved_candidates(rep.resolved[t])[m]) as int].span;
            span.spec_start() <= member.spec_start() && member.spec_end() <= span.spec_end()
        } by {
        let comp = comps[t];
        assert(is_union_of(rep.resolved[t], c, comp, rep.document));
        assert(resolved_candidates(rep.resolved[t]) == comp);
        lemma_component_end_bound(c, comp, m);
        assert(comp.len() > 0 && increasing(comp));
        if m > 0 {
            assert(comp[0] < comp[m]);
            assert(comp[m] < c.len());
            assert(!((canonical_order())(c[comp[0] as int], c[comp[m] as int]) is Greater));
            lemma_canonical_starts(c[comp[0] as int], c[comp[m] as int]);
        }
    }
    assert forall|t: int| 0 <= t < rep.resolved.len() - 1 implies (#[trigger] union_span(
        rep.resolved[t],
    ))->0.spec_end() <= union_span(rep.resolved[t + 1])->0.spec_start() by {
        assert(is_union_of(rep.resolved[t], c, comps[t], rep.document));
        assert(is_union_of(rep.resolved[t + 1], c, comps[t + 1], rep.document));
        assert(component_end(c, comps[t]) <= c[comps[t + 1][0] as int].span.spec_start());
    }
}

} // verus!

verus! {

/// A finding as an emitter may hold it: it names the emitter's recognizer, is bound
/// to the emitter's document, has an entity that the recognizer declares, and has a
/// non-empty span that is valid for the text.
pub open spec fn emitter_authoritative(e: EmitterView, text: &str, f: FindingView) -> bool {
    &&& f.recognizer == Some(e.metadata.id)
    &&& f.document == Some(e.binding)
    &&& e.metadata.supported_entities.contains(f.entity)
    &&& emitted_span_check(text, f.span.spec_start(), f.span.spec_end()) is Ok
}

/// Accepted findings receive the authoritative recognizer identity and the exact
/// document binding: an emission attempt on an emitter whose findings are all
/// authoritative leaves every finding authoritative.
pub proof fn law_emitted_findings_authoritative(
    e: EmitterView,
    text: &str,
    entity: Seq<char>,
    start: usize,
    end: usize,
    score: u32,
    evidence: Seq<EvidenceView>,
)
    requires
        forall|i: int| 0 <= i < e.findings.len() ==> emitter_authoritative(e, text, #[trigger] e.findings[i]),
    ensures
        ({
            let after = emit_outcome(e, text, entity, start, end, score, evidence).0;
            forall|i: int|
                0 <= i < after.findings.len() ==> emitter_authoritative(after, text, #[trigger] after.findings[i])
        }),
{
    let after = emit_outcome(e, text, entity, start, end, score, evidence).0;
    if after.findings.len() > e.findings.len() {
        Span::lemma_made_offsets(start, end);
        assert forall|i: int| 0 <= i < after.findings.len() implies emitter_authoritative(
            after,
            text,
            #[trigger] after.findings[i],
        ) by {
            if i < e.findings.len() {
                assert(after.findings[i] == e.findings[i]);
            }
        }
    }
}

} // verus!

verus! {

/// Candidate `k` is retained, or duplicates or overlaps a retained candidate.
pub open spec fn accounted_for(c: Seq<FindingView>, selected: Seq<usize>, k: int) -> bool {
    exists|i: int|
        0 <= i < selected.len() && (selected[i] == k || c[#[trigger] selected[i] as int] == c[k] || spans_overlap(
            c[selected[i] as int].span,
            c[k].span,
        ))
}

proof fn lemma_first_duplicate_found(c: Seq<FindingView>, selected: Seq<usize>, cand: int, i: int)
    requires
        0 <= i,
        first_duplicate_from(c, selected, cand, i) is Some,
    ensures
        exists|j: int|
            i <= j < selected.len() && selected[j] == first_duplicate_from(c, selected, cand, i)->0 && c[
                #[trigger] selected[j] as int
            ] == c[cand],
    decreases selected.len() - i,
{
    if c[selected[i] as int] != c[cand] {
        lemma_first_duplicate_found(c, selected, cand, i + 1);
    }
}

proof fn lemma_first_overlap_found(c: Seq<FindingView>, selected: Seq<usize>, cand: int, i: int)
    requires
        0 <= i,
        first_overlap_from(c, selected, cand, i) is Some,
    ensures
        exists|j: int|
            i <= j < selected.len() && selected[j] == first_overlap_from(c, selected, cand, i)->0
                && spans_overlap(c[#[trigger] selected[j] as int].span, c[cand].span),
    decreases selected.len() - i,
{
    if !spans_overlap(c[selected[i] as int].span, c[cand].span) {
        lemma_first_overlap_found(c, selected, cand, i + 1);
    }
}

/// The greedy walk accounts for every candidate it visits: each is retained, or
/// duplicates or overlaps a candidate retained by the end of the walk.
proof fn lemma_best_run_accounts(c: Seq<FindingView>, order: Seq<usize>)
    ensures
        forall|j: int| 0 <= j < order.len() ==> accounted_for(c, best_run(c, order).0, #[trigger] order[j] as int),
    decreases order.len(),
{
    if order.len() > 0 {
        let prev = order.drop_last();
        lemma_best_run_accounts(c, prev);
        let (selected, decisions) = best_run(c, prev);
        let cand = order.last();
        let after = best_run(c, order).0;
        assert(forall|i: int| 0 <= i < selected.len() ==> after[i] == selected[i]) by {
            if after.len() > selected.len() {
                assert(after == selected.push(cand));
            }
        }
        assert(after.len() >= selected.len());
        assert forall|j: int| 0 <= j < order.len() implies accounted_for(c, after, #[trigger] order[j] as int) by {
            if j < order.len() - 1 {
                assert(order[j] == prev[j]);
                assert(accounted_for(c, selected, prev[j] as int));
                let i = choose|i: int|
                    0 <= i < selected.len() && (selected[i] == prev[j] as int || c[#[trigger] selected[i] as int]
                        == c[prev[j] as int] || spans_overlap(c[selected[i] as int].span, c[prev[j] as int].span));
                assert(after[i] == selected[i]);
            } else {
                match first_duplicate_from(c, selected, cand as int, 0) {
                    Some(r) => {
                        lemma_first_duplicate_found(c, selected, cand as int, 0);
                        let i = choose|i: int|
                            0 <= i < selected.len() && selected[i] == r && c[#[trigger] selected[i] as int]
                                == c[cand as int];
                        assert(after[i] == selected[i]);
                    },
                    None => match first_overlap_from(c, selected, cand as int, 0) {
                        Some(r) => {
                            lemma_first_overlap_found(c, selected, cand as int, 0);
                            let i = choose|i: int|
                                0 <= i < selected.len() && selected[i] == r && spans_overlap(
                                    c[#[trigger] selected[i] as int].span,
                                    c[cand as int].span,
                                );
                            assert(after[i] == selected[i]);
                        },
                        None => {
                            assert(after[selected.len() as int] == cand);
                        },
                    },
                }
            }
        }
    }
}

/// Candidate `k` of a report is an output, or duplicates or overlaps a candidate
/// that is one.
pub open spec fn output_accounts_for(rep: ReportView, k: int) -> bool {
    exists|t: int|
        0 <= t < rep.resolved.len() && (#[trigger] rep.resolved[t] matches ResolvedView::Candidate { candidate: p }
            && (p == k || rep.candidates[p as int] == rep.candidates[k] || spans_overlap(
            rep.candidates[p as int].span,
            rep.candidates[k].span,
        )))
}

/// `BestCandidate` leaves no candidate unaccounted for: every canonical candidate is
/// an output, or duplicates or overlaps a candidate that is one.
pub proof fn law_best_candidate_accounts_for_every_candidate(
    input: Seq<FindingView>,
    o: OptionsView,
    rep: ReportView,
)
    requires
        o.policy == ResolutionPolicy::BestCandidate,
        resolution_error(input, o) is None,
        resolution_report_ok(input, o, rep),
    ensures
        forall|k: int| 0 <= k < rep.candidates.len() ==> #[trigger] output_accounts_for(rep, k),
{
    let c = canonical_of(input, o);
    let n = c.len();
    lemma_canonical_len(input, o);
    let order = precedence_sequence(c, o);
    let f = crate::canonical::precedence_order(c, o);
    lemma_stable_sort_elements(ordinals(n), f);
    assert(ordinals(n).no_duplicates()) by {
        assert forall|i: int, j: int| 0 <= i < ordinals(n).len() && 0 <= j < ordinals(n).len() && i
            != j implies ordinals(n)[i] != ordinals(n)[j] by {}
    }
    lemma_best_run_disjoint(c, order);
    lemma_best_run_accounts(c, order);
    let sel = best_selection(c, o).0;
    lemma_ascending(sel);
    let t = ascending(sel);
    assert(rep.resolved == candidate_outputs(t));
    assert forall|k: int| 0 <= k < rep.candidates.len() implies #[trigger] output_accounts_for(rep, k) by {
        assert(ordinals(n)[k] == k as usize);
        assert(ordinals(n).contains(k as usize));
        assert(order.contains(k as usize));
        let j = choose|j: int| 0 <= j < order.len() && order[j] == k as usize;
        assert(accounted_for(c, sel, order[j] as int));
        let i = choose|i: int|
            0 <= i < sel.len() && (sel[i] == k || c[#[trigger] sel[i] as int] == c[k] || spans_overlap(
                c[sel[i] as int].span,
                c[k].span,
            ));
        assert(sel.contains(sel[i]));
        assert(t.contains(sel[i]));
        let u = choose|u: int| 0 <= u < t.len() && t[u] == sel[i];
        assert(rep.resolved[u] == ResolvedView::Candidate { candidate: t[u] });
    }
}

} // verus!

verus! {

/// The overlap walk keeps only results from its input.
proof fn lemma_keep_highest_subset(s: Seq<RecognizerResult>)
    ensures
        forall|x: RecognizerResult| keep_highest(s).contains(x) ==> s.contains(x),
    decreases s.len(),
{
    if s.len() > 0 {
        let rest = s.drop_last();
        lemma_keep_highest_subset(rest);
        let kept = keep_highest(rest);
        let out = keep_highest(s);
        assert forall|x: RecognizerResult| out.contains(x) implies s.contains(x) by {
            let i = choose|i: int| 0 <= i < out.len() && out[i] == x;
            if i < kept.len() && out[i] == kept[i] {
                assert(kept.contains(x));
                assert(rest.contains(x));
                let k = choose|k: int| 0 <= k < rest.len() && rest[k] == x;
                assert(s[k] == x);
            } else {
                assert(x == s[s.len() - 1]);
            }
        }
    }
}

/// Keeping the results at or above a threshold keeps only results from its input.
proof fn lemma_at_least_subset(s: Seq<RecognizerResult>, threshold: u32)
    ensures
        forall|x: RecognizerResult| at_least(s, threshold).contains(x) ==> s.contains(x),
    decreases s.len(),
{
    if s.len() > 0 {
        let rest = s.drop_last();
        lemma_at_least_subset(rest, threshold);
        let a = at_least(rest, threshold);
        let out = at_least(s, threshold);
        assert forall|x: RecognizerResult| out.contains(x) implies s.contains(x) by {
            let i = choose|i: int| 0 <= i < out.len() && out[i] == x;
            if i < a.len() && out[i] == a[i] {
                assert(a.contains(x));
                assert(rest.contains(x));
                let k = choose|k: int| 0 <= k < rest.len() && rest[k] == x;
                assert(s[k] == x);
            } else {
                assert(x == s[s.len() - 1]);
            }
        }
    }
}

/// Every legacy result is the result of one of the raw candidates.
proof fn lemma_legacy_projection_subset(cs: Seq<RawCandidate>, threshold: u32)
    ensures
        forall|x: RecognizerResult|
            legacy_projection(cs, threshold).contains(x) ==> exists|k: int|
                0 <= k < cs.len() && x == legacy_result(#[trigger] cs[k]),
{
    let results = legacy_results(cs);
    let sorted = stable_sort(results, overlap_order());
    lemma_stable_sort_elements(results, overlap_order());
    lemma_keep_highest_subset(sorted);
    let kept = keep_highest(sorted);
    lemma_at_least_subset(kept, threshold);
    let above = at_least(kept, threshold);
    lemma_stable_sort_elements(above, start_order());
    assert forall|x: RecognizerResult| legacy_projection(cs, threshold).contains(x) implies exists|k: int|
        0 <= k < cs.len() && x == legacy_result(#[trigger] cs[k]) by {
        assert(above.contains(x));
        assert(kept.contains(x));
        assert(sorted.contains(x));
        assert(results.contains(x));
        let k = choose|k: int| 0 <= k < results.len() && results[k] == x;
        assert(results[k] == legacy_result(cs[k]));
    }
}

/// The candidates of a recognizer all have its entity type.
proof fn lemma_recognizer_candidates_entity(text: Seq<char>, rec: PatternRecognizer, ri: int, k: int)
    ensures
        forall|j: int|
            0 <= j < recognizer_candidates(text, rec, ri, k).len() ==> (#[trigger] recognizer_candidates(
                text,
                rec,
                ri,
                k,
            )[j]).entity_type == rec.entity_type,
    decreases k,
{
    if k > 0 {
        lemma_recognizer_candidates_entity(text, rec, ri, k - 1);
        let ms = pattern_matches(rec.patterns@[k - 1].spec_regex(), text);
        lemma_match_candidates_entity(text, rec, ri, k - 1, ms, ms.len() as int);
        let before = recognizer_candidates(text, rec, ri, k - 1);
        let more = pattern_candidates(text, rec, ri, k - 1);
        assert forall|j: int| 0 <= j < (before + more).len() implies (#[trigger] (before + more)[j]).entity_type
            == rec.entity_type by {
            if j >= before.len() {
                assert((before + more)[j] == more[j - before.len()]);
            }
        }
    }
}

/// The candidates of a pattern's matches all have the recognizer's entity type.
proof fn lemma_match_candidates_entity(
    text: Seq<char>,
    rec: PatternRecognizer,
    ri: int,
    pi: int,
    ms: Seq<(usize, usize)>,
    k: int,
)
    ensures
        forall|j: int|
            0 <= j < match_candidates(text, rec, ri, pi, ms, k).len() ==> (#[trigger] match_candidates(
                text,
                rec,
                ri,
                pi,
                ms,
                k,
            )[j]).entity_type == rec.entity_type,
    decreases k,
{
    if k > 0 {
        lemma_match_candidates_entity(text, rec, ri, pi, ms, k - 1);
    }
}

/// The candidates of a registry under a filter all have an entity type the filter
/// lets through.
proof fn lemma_registry_candidates_filtered(
    text: Seq<char>,
    recs: Seq<PatternRecognizer>,
    filter: Option<Seq<EntityType>>,
    k: int,
)
    requires
        k <= recs.len(),
    ensures
        forall|j: int|
            0 <= j < registry_candidates(text, recs, filter, k).len() ==> filter_allows(
                filter,
                (#[trigger] registry_candidates(text, recs, filter, k)[j]).entity_type,
            ),
    decreases k,
{
    if k > 0 {
        lemma_registry_candidates_filtered(text, recs, filter, k - 1);
        let before = registry_candidates(text, recs, filter, k - 1);
        if filter_allows(filter, recs[k - 1].entity_type) {
            let more = recognizer_candidates(text, recs[k - 1], k - 1, recs[k - 1].patterns@.len() as int);
            lemma_recognizer_candidates_entity(text, recs[k - 1], k - 1, recs[k - 1].patterns@.len() as int);
            assert forall|j: int| 0 <= j < (before + more).len() implies filter_allows(
                filter,
                (#[trigger] (before + more)[j]).entity_type,
            ) by {
                if j >= before.len() {
                    assert((before + more)[j] == more[j - before.len()]);
                }
            }
        }
    }
}

/// Legacy analysis scoped by an entity filter reports only entity types the filter
/// names.
pub proof fn law_filtered_analysis_reports_only_requested_entities(
    text: Seq<char>,
    recs: Seq<PatternRecognizer>,
    filter: Option<Seq<EntityType>>,
    threshold: u32,
)
    ensures
        forall|i: int|
            0 <= i < legacy_projection(all_candidates(text, recs, filter), threshold).len() ==> filter_allows(
                filter,
                (#[trigger] legacy_projection(all_candidates(text, recs, filter), threshold)[i]).entity_type,
            ),
{
    let cs = all_candidates(text, recs, filter);
    lemma_registry_candidates_filtered(text, recs, filter, recs.len() as int);
    lemma_legacy_projection_subset(cs, threshold);
    let out = legacy_projection(cs, threshold);
    assert forall|i: int| 0 <= i < out.len() implies filter_allows(filter, (#[trigger] out[i]).entity_type) by {
        assert(out.contains(out[i]));
        let k = choose|k: int| 0 <= k < cs.len() && out[i] == legacy_result(#[trigger] cs[k]);
        assert(filter_allows(filter, cs[k].entity_type));
    }
}

} // verus!

verus! {

/// `tag` is the tag of an entity type that the filter lets through.
pub open spec fn entity_requested(filter: Option<Seq<EntityType>>, tag: Seq<char>) -> bool {
    exists|e: EntityType| filter_allows(filter, e) && #[trigger] entity_tag(e) == tag
}

/// Every finding of a report is the finding of one of its raw candidates.
proof fn lemma_report_findings_from(
    text: &str,
    cs: Seq<RawCandidate>,
    document: Option<BindingView>,
    k: int,
)
    requires
        k <= cs.len(),
    ensures
        forall|j: int|
            0 <= j < report_findings(text, cs, document, k).len() ==> exists|m: int|
                0 <= m < k && #[trigger] report_findings(text, cs, document, k)[j] == candidate_finding(
                    cs[m],
                    document,
                ),
    decreases k,
{
    if k > 0 {
        lemma_report_findings_from(text, cs, document, k - 1);
        let before = report_findings(text, cs, document, k - 1);
        let now = report_findings(text, cs, document, k);
        assert forall|j: int| 0 <= j < now.len() implies exists|m: int|
            0 <= m < k && #[trigger] now[j] == candidate_finding(cs[m], document) by {
            if j < before.len() {
                assert(now[j] == before[j]);
                let m = choose|m: int| 0 <= m < k - 1 && before[j] == candidate_finding(cs[m], document);
                assert(now[j] == candidate_finding(cs[m], document));
            } else {
                assert(now[j] == candidate_finding(cs[k - 1], document));
            }
        }
    }
}

/// A report of an analysis scoped by an entity filter holds only candidates and
/// legacy results of entity types that the filter names.
pub proof fn law_filtered_report_holds_only_requested_entities(
    rep: AnalysisReportView,
    text: &str,
    recs: Seq<PatternRecognizer>,
    filter: Option<Seq<EntityType>>,
    maximum: usize,
    threshold: u32,
    options: AnalysisOptions,
    document: Option<BindingView>,
)
    requires
        report_built(
            rep,
            text,
            bounded(all_candidates(text@, recs, filter), maximum),
            all_candidates(text@, recs, filter).len(),
            threshold,
            options,
            document,
        ),
    ensures
        forall|i: int| 0 <= i < rep.candidates.len() ==> entity_requested(filter, (#[trigger] rep.candidates[i]).entity),
        forall|i: int|
            0 <= i < rep.legacy_compatible_results.len() ==> filter_allows(
                filter,
                (#[trigger] rep.legacy_compatible_results[i]).entity_type,
            ),
{
    let all = all_candidates(text@, recs, filter);
    let raw = bounded(all, maximum);
    lemma_registry_candidates_filtered(text@, recs, filter, recs.len() as int);
    assert forall|k: int| 0 <= k < raw.len() implies filter_allows(filter, (#[trigger] raw[k]).entity_type) by {
        assert(raw[k] == all[k]);
    }
    let found = report_findings(text, raw, document, raw.len() as int);
    lemma_report_findings_from(text, raw, document, raw.len() as int);
    lemma_stable_sort_elements(found, span_order());
    assert forall|i: int| 0 <= i < rep.candidates.len() implies entity_requested(
        filter,
        (#[trigger] rep.candidates[i]).entity,
    ) by {
        assert(rep.candidates.contains(rep.candidates[i]));
        assert(found.contains(rep.candidates[i]));
        let j = choose|j: int| 0 <= j < found.len() && found[j] == rep.candidates[i];
        let m = choose|m: int| 0 <= m < raw.len() && found[j] == candidate_finding(raw[m], document);
        assert(filter_allows(filter, raw[m].entity_type));
        assert(entity_tag(raw[m].entity_type) == rep.candidates[i].entity);
    }
    lemma_legacy_projection_subset(raw, threshold);
    let out = legacy_projection(raw, threshold);
    assert forall|i: int| 0 <= i < out.len() implies filter_allows(filter, (#[trigger] out[i]).entity_type) by {
        assert(out.contains(out[i]));
        let k = choose|k: int| 0 <= k < raw.len() && out[i] == legacy_result(#[trigger] raw[k]);
        assert(filter_allows(filter, raw[k].entity_type));
    }
}

} // verus!

verus! {

/// A report holds no more findings than raw candidates.
proof fn lemma_report_findings_len(text: &str, cs: Seq<RawCandidate>, document: Option<BindingView>, k: int)
    requires
        0 <= k,
    ensures
        report_findings(text, cs, document, k).len() <= k,
    decreases k,
{
    if k > 0 {
        lemma_report_findings_len(text, cs, document, k - 1);
    }
}

/// Every finding of a report has a non-empty span that is valid for its text.
proof fn lemma_report_findings_valid(text: &str, cs: Seq<RawCandidate>, document: Option<BindingView>, k: int)
    requires
        0 <= k <= cs.len(),
    ensures
        forall|j: int|
            0 <= j < report_findings(text, cs, document, k).len() ==> emitted_span_check(
                text,
                (#[trigger] report_findings(text, cs, document, k)[j]).span.spec_start(),
                report_findings(text, cs, document, k)[j].span.spec_end(),
            ) is Ok,
    decreases k,
{
    if k > 0 {
        lemma_report_findings_valid(text, cs, document, k - 1);
        let c = cs[k - 1];
        Span::lemma_made_offsets(c.start, c.end);
        let before = report_findings(text, cs, document, k - 1);
        let now = report_findings(text, cs, document, k);
        assert forall|j: int| 0 <= j < now.len() implies emitted_span_check(
            text,
            (#[trigger] now[j]).span.spec_start(),
            now[j].span.spec_end(),
        ) is Ok by {
            if j < before.len() {
                assert(now[j] == before[j]);
            }
        }
    }
}

/// The span order is a total preorder.
proof fn lemma_span_order_preorder()
    ensures
        total_preorder(span_order()),
{
    let k1 = |f: FindingView| f.span.spec_start() as int;
    let k2 = |f: FindingView| f.span.spec_end() as int;
    crate::order::lemma_int_key_preorder(k1);
    crate::order::lemma_int_key_preorder(k2);
    crate::order::lemma_then_preorder(crate::order::by_int_key(k1), crate::order::by_int_key(k2));
    assert(span_order() =~= crate::order::then_by(crate::order::by_int_key(k1), crate::order::by_int_key(k2)));
}

/// A report keeps within its limits and in order: at most the candidate limit of
/// candidates, sorted by span start and then end, each with a non-empty span valid
/// for the text; at most the issue limit of issues; and when the candidate limit was
/// not reached, its legacy results are those of the legacy analysis of all
/// candidates.
pub proof fn law_report_within_limits(
    rep: AnalysisReportView,
    text: &str,
    all: Seq<RawCandidate>,
    threshold: u32,
    options: AnalysisOptions,
    document: Option<BindingView>,
)
    requires
        report_built(
            rep,
            text,
            bounded(all, options.spec_max_candidates()),
            all.len(),
            threshold,
            options,
            document,
        ),
    ensures
        rep.candidates.len() <= options.spec_max_candidates(),
        sorted_by(rep.candidates, span_order()),
        forall|i: int|
            0 <= i < rep.candidates.len() ==> emitted_span_check(
                text,
                (#[trigger] rep.candidates[i]).span.spec_start(),
                rep.candidates[i].span.spec_end(),
            ) is Ok,
        rep.issues.len() <= options.spec_max_issues(),
        rep.status.spec_candidate_limit_reached() == (all.len() > options.spec_max_candidates()),
        rep.status.spec_issue_limit_reached() == (crate::analyzer::report_issues(
            text,
            bounded(all, options.spec_max_candidates()),
            bounded(all, options.spec_max_candidates()).len() as int,
        ).len() > options.spec_max_issues()),
        !rep.status.spec_candidate_limit_reached() ==> rep.legacy_compatible_results == legacy_projection(
            all,
            threshold,
        ),
{
    let raw = bounded(all, options.spec_max_candidates());
    let found = report_findings(text, raw, document, raw.len() as int);
    lemma_report_findings_len(text, raw, document, raw.len() as int);
    lemma_report_findings_valid(text, raw, document, raw.len() as int);
    crate::order::lemma_stable_sort_len(found, span_order());
    lemma_stable_sort_elements(found, span_order());
    lemma_span_order_preorder();
    lemma_stable_sort_sorted(found, span_order());
    assert forall|i: int| 0 <= i < rep.candidates.len() implies emitted_span_check(
        text,
        (#[trigger] rep.candidates[i]).span.spec_start(),
        rep.candidates[i].span.spec_end(),
    ) is Ok by {
        assert(rep.candidates.contains(rep.candidates[i]));
        assert(found.contains(rep.candidates[i]));
    }
}

} // verus!

verus! {

/// An engine that applies one operator to every entity, as a new engine does,
/// anonymizes as the free `anonymize` does with that operator: it asks the same of
/// its input and gives the same text.
pub proof fn law_engine_without_overrides_matches_anonymize(
    engine: EngineView,
    op: OperatorView,
    text: Seq<char>,
    results: Seq<RecognizerResult>,
)
    requires
        forall|e: EntityType| #[trigger] engine_operator(engine, e) == op,
    ensures
        never_reversed(text, application_order(results), |e: EntityType| engine_operator(engine, e))
            == never_reversed(text, application_order(results), |e: EntityType| op),
        apply_all(text, application_order(results), |e: EntityType| engine_operator(engine, e))
            == apply_all(text, application_order(results), |e: EntityType| op),
{
    assert((|e: EntityType| engine_operator(engine, e)) =~= (|e: EntityType| op));
}

} // verus!

verus! {

/// Resolution has one outcome: two reports that both resolve the same candidates
/// under the same options are the same report. So the resolution a resolved analysis
/// holds is the report `resolve_candidates` gives for the analysis candidates.
pub proof fn law_resolution_report_unique(input: Seq<FindingView>, o: OptionsView, r1: ReportView, r2: ReportView)
    requires
        resolution_error(input, o) is None,
        resolution_report_ok(input, o, r1),
        resolution_report_ok(input, o, r2),
    ensures
        r1 == r2,
{
    let c = canonical_of(input, o);
    r1.status.lemma_determined(r2.status);
    if o.policy == ResolutionPolicy::ConservativeRedaction {
        assert forall|t: int| 0 <= t < r1.resolved.len() implies r1.resolved[t] == r2.resolved[t] by {
            lemma_union_unique(r1.resolved[t], r2.resolved[t], c, overlap_components(c)[t], r1.document);
        }
        assert(r1.resolved =~= r2.resolved);
    }
}

/// Setting an operator for one entity type changes how that type is anonymized and
/// nothing else: the engine asks of its input, and gives, what an engine would that
/// uses `op` for `entity` and the former engine's operator for every other type.
pub proof fn law_with_operator_overrides_one_entity(
    before: EngineView,
    after: EngineView,
    entity: EntityType,
    op: OperatorView,
    text: Seq<char>,
    results: Seq<RecognizerResult>,
)
    requires
        engine_operator(after, entity) == op,
        forall|e: EntityType| e != entity ==> #[trigger] engine_operator(after, e) == engine_operator(before, e),
    ensures
        never_reversed(text, application_order(results), |e: EntityType| engine_operator(after, e))
            == never_reversed(
            text,
            application_order(results),
            |e: EntityType| if e == entity { op } else { engine_operator(before, e) },
        ),
        apply_all(text, application_order(results), |e: EntityType| engine_operator(after, e)) == apply_all(
            text,
            application_order(results),
            |e: EntityType| if e == entity { op } else { engine_operator(before, e) },
        ),
{
    assert((|e: EntityType| engine_operator(after, e)) =~= (|e: EntityType|
        if e == entity { op } else { engine_operator(before, e) }));
}

} // verus!

verus! {

/// The overlap walk never gives up a raw result for one that scores strictly lower:
/// every result it is handed is matched or outscored by some result it keeps.
pub proof fn law_overlap_walk_keeps_highest(s: Seq<RecognizerResult>)
    ensures
        forall|i: int|
            0 <= i < s.len() ==> exists|j: int|
                #![trigger keep_highest(s)[j]]
                0 <= j < keep_highest(s).len() && !f32_lt(keep_highest(s)[j].score, (#[trigger] s[i]).score),
    decreases s.len(),
{
    if s.len() > 0 {
        let init = s.drop_last();
        law_overlap_walk_keeps_highest(init);
        let kept = keep_highest(init);
        let r = s.last();
        let out = keep_highest(s);
        assert forall|i: int| 0 <= i < s.len() implies exists|j: int|
            #![trigger keep_highest(s)[j]]
            0 <= j < keep_highest(s).len() && !f32_lt(keep_highest(s)[j].score, (#[trigger] s[i]).score) by {
            if kept.len() > 0 && r.start < kept.last().end {
                let n = kept.len() - 1;
                if i == s.len() - 1 {
                    assert(s[i] == r);
                    assert(!f32_lt(out[n].score, r.score));
                } else {
                    assert(s[i] == init[i]);
                    let j = choose|j: int|
                        #![trigger kept[j]]
                        0 <= j < kept.len() && !f32_lt(kept[j].score, (init[i]).score);
                    assert(!f32_lt(out[j].score, s[i].score));
                }
            } else {
                if i == s.len() - 1 {
                    assert(out[kept.len() as int] == r);
                    assert(!f32_lt(out[kept.len() as int].score, s[i].score));
                } else {
                    assert(s[i] == init[i]);
                    let j = choose|j: int|
                        #![trigger kept[j]]
                        0 <= j < kept.len() && !f32_lt(kept[j].score, (init[i]).score);
                    assert(out[j] == kept[j]);
                    assert(!f32_lt(out[j].score, s[i].score));
                }
            }
        }
    }
}

/// How the overlap walk answers one more result, given what it kept before: nothing
/// is kept of nothing; a result that starts at or after the end of the last kept one
/// is added; one that starts before it takes the last kept one's place exactly when
/// it scores strictly higher, and is dropped otherwise.
pub proof fn law_overlap_walk_step(s: Seq<RecognizerResult>, r: RecognizerResult)
    ensures
        keep_highest(Seq::<RecognizerResult>::empty()) == Seq::<RecognizerResult>::empty(),
        keep_highest(s).len() == 0 || keep_highest(s).last().end <= r.start ==> keep_highest(s.push(r))
            == keep_highest(s).push(r),
        keep_highest(s).len() > 0 && r.start < keep_highest(s).last().end && f32_lt(
            keep_highest(s).last().score,
            r.score,
        ) ==> keep_highest(s.push(r)) == keep_highest(s).update(keep_highest(s).len() - 1, r),
        keep_highest(s).len() > 0 && r.start < keep_highest(s).last().end && !f32_lt(
            keep_highest(s).last().score,
            r.score,
        ) ==> keep_highest(s.push(r)) == keep_highest(s),
{
    assert(s.push(r).drop_last() =~= s);
    assert(s.push(r).last() == r);
}

/// The threshold filter keeps, in their order, exactly the results whose score is at
/// least the threshold; in particular a score equal to the threshold is kept.
pub proof fn law_threshold_keeps_scores_at_least(s: Seq<RecognizerResult>, threshold: u32)
    ensures
        at_least(s, threshold) == s.filter(|r: RecognizerResult| f32_le(threshold, r.score)),
        forall|r: RecognizerResult|
            #[trigger] at_least(s, threshold).contains(r) <==> s.contains(r) && f32_le(threshold, r.score),
        forall|i: int|
            0 <= i < s.len() && (#[trigger] s[i]).score == threshold && !crate::score::f32_is_nan(threshold)
                ==> at_least(s, threshold).contains(s[i]),
    decreases s.len(),
{
    let pred = |r: RecognizerResult| f32_le(threshold, r.score);
    reveal(Seq::filter);
    let out = at_least(s, threshold);
    if s.len() > 0 {
        let init = s.drop_last();
        let last = s.last();
        law_threshold_keeps_scores_at_least(init, threshold);
        assert(at_least(s, threshold) == s.filter(pred));
        let a = at_least(init, threshold);
        if f32_le(threshold, last.score) {
            assert(out == a.push(last));
        } else {
            assert(out == a);
        }
        assert forall|r: RecognizerResult| #[trigger] out.contains(r) <==> s.contains(r) && f32_le(
            threshold,
            r.score,
        ) by {
            if out.contains(r) {
                let k = choose|k: int| 0 <= k < out.len() && out[k] == r;
                if k < a.len() {
                    assert(out[k] == a[k]);
                    assert(a.contains(r));
                    let m = choose|m: int| 0 <= m < init.len() && init[m] == r;
                    assert(s[m] == r);
                } else {
                    assert(s[s.len() - 1] == r);
                }
            }
            if s.contains(r) && f32_le(threshold, r.score) {
                let m = choose|m: int| 0 <= m < s.len() && s[m] == r;
                if m < s.len() - 1 {
                    assert(init[m] == r);
                    assert(init.contains(r));
                    assert(a.contains(r));
                    let k = choose|k: int| 0 <= k < a.len() && a[k] == r;
                    assert(out[k] == r);
                } else {
                    assert(out[a.len() as int] == r);
                }
            }
        }
    } else {
        assert forall|r: RecognizerResult| #[trigger] out.contains(r) <==> s.contains(r) && f32_le(
            threshold,
            r.score,
        ) by {}
    }
    assert forall|i: int|
        0 <= i < s.len() && (#[trigger] s[i]).score == threshold && !crate::score::f32_is_nan(threshold)
            implies out.contains(s[i]) by {
        assert(s.contains(s[i]));
        assert(f32_le(threshold, s[i].score));
    }
}

/// Context words are compared in lowercase: two word lists whose words have the
/// same lowercase forms find the same context, whatever the case they are written in.
pub proof fn law_context_words_compared_in_lowercase(
    text: Seq<char>,
    start: int,
    end: int,
    words: Seq<Seq<char>>,
    other: Seq<Seq<char>>,
)
    requires
        words.len() == other.len(),
        forall|k: int|
            0 <= k < words.len() ==> crate::context::unicode_lowercase(#[trigger] words[k])
                == crate::context::unicode_lowercase(other[k]),
    ensures
        crate::context::context_hit(text, start, end, words) == crate::context::context_hit(
            text,
            start,
            end,
            other,
        ),
{
    if crate::context::context_hit(text, start, end, words) {
        let k = choose|k: int|
            0 <= k < words.len() && crate::context::contains_bytes(
                vstd::utf8::encode_utf8(
                    crate::context::unicode_lowercase(crate::context::context_haystack(text, start, end)),
                ),
                vstd::utf8::encode_utf8(crate::context::unicode_lowercase(#[trigger] words[k])),
            );
        assert(crate::context::unicode_lowercase(other[k]) == crate::context::unicode_lowercase(words[k]));
    }
    if crate::context::context_hit(text, start, end, other) {
        let k = choose|k: int|
            0 <= k < other.len() && crate::context::contains_bytes(
                vstd::utf8::encode_utf8(
                    crate::context::unicode_lowercase(crate::context::context_haystack(text, start, end)),
                ),
                vstd::utf8::encode_utf8(crate::context::unicode_lowercase(#[trigger] other[k])),
            );
        assert(crate::context::unicode_lowercase(words[k]) == crate::context::unicode_lowercase(other[k]));
    }
}

/// The text around a match is compared in lowercase too: two matches whose
/// surroundings have the same lowercase form find the same context.
pub proof fn law_context_window_compared_in_lowercase(
    text: Seq<char>,
    start: int,
    end: int,
    other_text: Seq<char>,
    other_start: int,
    other_end: int,
    words: Seq<Seq<char>>,
)
    requires
        crate::context::unicode_lowercase(crate::context::context_haystack(text, start, end))
            == crate::context::unicode_lowercase(
            crate::context::context_haystack(other_text, other_start, other_end),
        ),
    ensures
        crate::context::context_hit(text, start, end, words) == crate::context::context_hit(
            other_text,
            other_start,
            other_end,
            words,
        ),
{
}

/// No context words find no context, and adding a context word never loses a hit.
pub proof fn law_context_words_only_add_hits(text: Seq<char>, start: int, end: int, words: Seq<Seq<char>>, w: Seq<char>)
    ensures
        !crate::context::context_hit(text, start, end, Seq::<Seq<char>>::empty()),
        crate::context::context_hit(text, start, end, words) ==> crate::context::context_hit(
            text,
            start,
            end,
            words.push(w),
        ),
{
    if crate::context::context_hit(text, start, end, words) {
        let k = choose|k: int|
            0 <= k < words.len() && crate::context::contains_bytes(
                vstd::utf8::encode_utf8(
                    crate::context::unicode_lowercase(crate::context::context_haystack(text, start, end)),
                ),
                vstd::utf8::encode_utf8(crate::context::unicode_lowercase(#[trigger] words[k])),
            );
        assert(words.push(w)[k] == words[k]);
    }
}

/// The number an IBAN's characters spell in decimal: a digit stands for itself, a
/// letter (of either case) for its two-digit number, `A` for 10 up to `Z` for 35.
pub open spec fn iban_number(s: Seq<char>) -> int
    decreases s.len(),
{
    if s.len() == 0 {
        0
    } else {
        let c = s.last();
        if 'A' <= c && c <= 'Z' {
            iban_number(s.drop_last()) * 100 + (c as int - 'A' as int + 10)
        } else if 'a' <= c && c <= 'z' {
            iban_number(s.drop_last()) * 100 + (c as int - 'a' as int + 10)
        } else {
            iban_number(s.drop_last()) * 10 + (c as int - '0' as int)
        }
    }
}

proof fn lemma_mod97_prefix_number(s: Seq<char>, k: int)
    requires
        0 <= k <= s.len(),
        forall|j: int| 0 <= j < s.len() ==> crate::validators::is_ascii_alnum_char(#[trigger] s[j]),
    ensures
        crate::validators::mod97_prefix(s, k) == iban_number(s.take(k)) % 97,
    decreases k,
{
    if k == 0 {
        assert(s.take(0) =~= Seq::<char>::empty());
    } else {
        lemma_mod97_prefix_number(s, k - 1);
        assert(s.take(k).drop_last() =~= s.take(k - 1));
        assert(s.take(k).last() == s[k - 1]);
        let n = iban_number(s.take(k - 1));
        assert(crate::validators::is_ascii_alnum_char(s[k - 1]));
        let v = crate::validators::base36_value(s[k - 1]);
        let w: int = if v >= 10 {
            100
        } else {
            10
        };
        vstd::arithmetic::div_mod::lemma_mul_mod_noop_left(n, w, 97);
        vstd::arithmetic::div_mod::lemma_add_mod_noop((n % 97) * w, v, 97);
        vstd::arithmetic::div_mod::lemma_add_mod_noop(n * w, v, 97);
        assert(crate::validators::mod97_prefix(s, k) == ((n % 97) * w + v) % 97);
        assert(iban_number(s.take(k)) == n * w + v);
    }
}

proof fn lemma_alphanumerics_of_alnum(s: Seq<char>)
    requires
        forall|j: int| 0 <= j < s.len() ==> crate::validators::is_ascii_alnum_char(#[trigger] s[j]),
    ensures
        crate::validators::alphanumerics(s) == s,
    decreases s.len(),
{
    if s.len() > 0 {
        assert(s[s.len() - 1] == s.last());
        lemma_alphanumerics_of_alnum(s.drop_last());
        assert(s.drop_last().push(s.last()) =~= s);
    }
}

/// The IBAN check on a run of ASCII letters and digits: it holds exactly when there
/// are 15 to 34 of them and the number they spell, with the first four moved to the
/// end, leaves remainder one when divided by 97.
pub proof fn law_iban_checks_mod97_of_accepted_lengths(c: Seq<char>)
    requires
        forall|j: int| 0 <= j < c.len() ==> crate::validators::is_ascii_alnum_char(#[trigger] c[j]),
    ensures
        crate::validators::iban_verdict(c) == (15 <= c.len() <= 34 && iban_number(
            c.subrange(4, c.len() as int) + c.subrange(0, 4),
        ) % 97 == 1),
{
    lemma_alphanumerics_of_alnum(c);
    if 15 <= c.len() <= 34 {
        let r = c.subrange(4, c.len() as int) + c.subrange(0, 4);
        assert(r == crate::validators::rotated(c));
        assert(r.len() == c.len());
        assert forall|j: int| 0 <= j < r.len() implies crate::validators::is_ascii_alnum_char(#[trigger] r[j]) by {
            if j < c.len() - 4 {
                assert(r[j] == c[j + 4]);
            } else {
                assert(r[j] == c[j - (c.len() - 4)]);
            }
        }
        lemma_mod97_prefix_number(r, c.len() as int);
        assert(r.take(c.len() as int) =~= r);
    }
}

/// The IBAN check reads only the ASCII letters and digits of its input: spaces and
/// other separators change nothing.
pub proof fn law_iban_ignores_separators(s: Seq<char>)
    ensures
        crate::validators::iban_verdict(s) == crate::validators::iban_verdict(crate::validators::alphanumerics(s)),
{
    crate::validators::lemma_alphanumerics(s);
    lemma_alphanumerics_of_alnum(crate::validators::alphanumerics(s));
}

/// Masking keeps the length, writes the mask character at every position before the
/// last `keep_last` characters whatever was there, and copies only those last ones.
pub proof fn law_mask_hides_all_but_the_last(s: Seq<char>, mask_char: char, keep_last: usize)
    ensures
        crate::anonymizer::mask_text(s, mask_char, keep_last).len() == s.len(),
        forall|i: int|
            0 <= i < s.len() - keep_last ==> #[trigger] crate::anonymizer::mask_text(s, mask_char, keep_last)[i]
                == mask_char,
        forall|i: int|
            0 <= i < s.len() && s.len() - keep_last <= i ==> #[trigger] crate::anonymizer::mask_text(
                s,
                mask_char,
                keep_last,
            )[i] == s[i],
{
}

/// What masking shows of a text depends only on its length and its last `keep_last`
/// characters: two texts of one length that end alike mask alike.
pub proof fn law_mask_depends_only_on_kept_tail(s: Seq<char>, t: Seq<char>, mask_char: char, keep_last: usize)
    requires
        s.len() == t.len(),
        forall|i: int| 0 <= i < s.len() && s.len() - keep_last <= i ==> #[trigger] s[i] == t[i],
    ensures
        crate::anonymizer::mask_text(s, mask_char, keep_last) == crate::anonymizer::mask_text(t, mask_char, keep_last),
{
    assert(crate::anonymizer::mask_text(s, mask_char, keep_last) =~= crate::anonymizer::mask_text(
        t,
        mask_char,
        keep_last,
    ));
}

} // verus!
