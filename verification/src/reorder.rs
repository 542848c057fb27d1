//! What resolution reads of a candidate, and why reordering candidates that tie in
//! the canonical order changes none of it.
use vstd::prelude::*;

use crate::canonical::{
    canonical_compare, evidence_compare, lex_evidence, optional_binding_compare, optional_recognizer_compare,
    precedence_compare, precedence_order,
};
use crate::resolution::{
    best_run, best_selection, first_duplicate_from, first_overlap_from, ordinals, overlap_components,
    precedence_sequence, required_outputs, spans_overlap, sweep, OptionsView, ResolutionPolicy,
};
use crate::document::BindingView;
use crate::finding::{EvidenceView, FindingView};
use crate::order::{
    compare_text, first_greater_from, lemma_first_greater_bounds, lemma_stable_sort_elements, lex_bytes, stable_sort, Order,
};

verus! {

/// A candidate as the canonical order and resolution read it: its recognizer
/// version and locale cleared and its confidence taken as the number it stands for.
pub open spec fn resolution_key(f: FindingView) -> FindingView {
    FindingView {
        entity: f.entity,
        span: f.span,
        confidence: f.confidence.number(),
        recognizer: f.recognizer,
        recognizer_version: None,
        evidence: f.evidence,
        locale: None,
        document: f.document,
    }
}

/// Byte runs that compare equal are equal.
proof fn lemma_lex_bytes_equal(a: Seq<u8>, b: Seq<u8>)
    requires
        lex_bytes(a, b) is Equal,
    ensures
        a == b,
    decreases a.len(),
{
    if a.len() > 0 && b.len() > 0 {
        let x = a.drop_first();
        let y = b.drop_first();
        lemma_lex_bytes_equal(x, y);
        assert forall|i: int| 0 <= i < a.len() implies a[i] == b[i] by {
            if i > 0 {
                assert(a[i] == x[i - 1]);
                assert(b[i] == y[i - 1]);
            }
        }
        assert(a =~= b);
    }
}

/// Texts that compare equal are equal: UTF-8 encoding loses nothing.
pub proof fn lemma_text_equal(a: Seq<char>, b: Seq<char>)
    requires
        compare_text(a, b) is Equal,
    ensures
        a == b,
{
    lemma_lex_bytes_equal(vstd::utf8::encode_utf8(a), vstd::utf8::encode_utf8(b));
    vstd::utf8::encode_utf8_decode_utf8(a);
    vstd::utf8::encode_utf8_decode_utf8(b);
}

proof fn lemma_evidence_equal(a: EvidenceView, b: EvidenceView)
    requires
        evidence_compare(a, b) is Equal,
    ensures
        a == b,
{
    match (a, b) {
        (EvidenceView::Pattern { pattern_id: x }, EvidenceView::Pattern { pattern_id: y }) => {
            lemma_text_equal(x, y);
        },
        (EvidenceView::Validator { validator_id: x, .. }, EvidenceView::Validator { validator_id: y, .. }) => {
            lemma_text_equal(x, y);
        },
        (EvidenceView::Context { context_id: x, .. }, EvidenceView::Context { context_id: y, .. }) => {
            lemma_text_equal(x, y);
        },
        _ => {},
    }
}

proof fn lemma_lex_evidence_equal(a: Seq<EvidenceView>, b: Seq<EvidenceView>)
    requires
        lex_evidence(a, b) is Equal,
    ensures
        a == b,
    decreases a.len(),
{
    if a.len() > 0 && b.len() > 0 {
        let x = a.drop_first();
        let y = b.drop_first();
        lemma_evidence_equal(a[0], b[0]);
        lemma_lex_evidence_equal(x, y);
        assert forall|i: int| 0 <= i < a.len() implies a[i] == b[i] by {
            if i > 0 {
                assert(a[i] == x[i - 1]);
                assert(b[i] == y[i - 1]);
            }
        }
        assert(a =~= b);
    }
}

proof fn lemma_binding_equal(a: Option<BindingView>, b: Option<BindingView>)
    requires
        optional_binding_compare(a, b) is Equal,
    ensures
        a == b,
{
    match (a, b) {
        (Some(x), Some(y)) => {
            lemma_text_equal(x.id, y.id);
            lemma_lex_bytes_equal(x.fingerprint, y.fingerprint);
        },
        _ => {},
    }
}

/// The canonical order reads a candidate only through its key.
pub proof fn lemma_key_compare(a: FindingView, b: FindingView)
    ensures
        canonical_compare(resolution_key(a), resolution_key(b)) == canonical_compare(a, b),
        resolution_key(resolution_key(a)) == resolution_key(a),
        resolution_key(a).confidence.spec_bits() == a.confidence.spec_bits(),
{
    reveal(canonical_compare);
    a.confidence.lemma_number(b.confidence);
    b.confidence.lemma_number(a.confidence);
    a.confidence.number().lemma_number(a.confidence);
}

/// Candidates that tie in the canonical order have the same key.
pub proof fn lemma_key_antisymmetric(a: FindingView, b: FindingView)
    requires
        canonical_compare(a, b) is Equal,
    ensures
        resolution_key(a) == resolution_key(b),
{
    reveal(canonical_compare);
    a.span.lemma_made();
    b.span.lemma_made();
    lemma_text_equal(a.entity, b.entity);
    match (a.recognizer, b.recognizer) {
        (Some(x), Some(y)) => {
            lemma_text_equal(x, y);
        },
        _ => {},
    }
    assert(a.recognizer == b.recognizer);
    a.confidence.lemma_number(b.confidence);
    lemma_lex_evidence_equal(a.evidence, b.evidence);
    lemma_binding_equal(a.document, b.document);
}

/// Mapping keeps equal multisets equal.
pub proof fn lemma_map_multiset<A, B>(s: Seq<A>, t: Seq<A>, g: spec_fn(A) -> B)
    requires
        s.to_multiset() == t.to_multiset(),
    ensures
        s.map_values(g).to_multiset() == t.map_values(g).to_multiset(),
    decreases s.len(),
{
    broadcast use vstd::seq_lib::group_to_multiset_ensures, vstd::multiset::group_multiset_axioms;

    vstd::seq_lib::to_multiset_len(s);
    vstd::seq_lib::to_multiset_len(t);
    if s.len() == 0 {
        assert(s.map_values(g) =~= t.map_values(g));
    } else {
        let x = s.last();
        let init = s.drop_last();
        assert(init.push(x) =~= s);
        vstd::seq_lib::to_multiset_build(init, x);
        vstd::seq_lib::to_multiset_contains(t, x);
        assert(s.to_multiset().count(x) > 0);
        assert(t.contains(x));
        let k = choose|k: int| 0 <= k < t.len() && t[k] == x;
        let rest = t.remove(k);
        vstd::seq_lib::to_multiset_remove(t, k);
        assert(init.to_multiset() =~= rest.to_multiset());
        lemma_map_multiset(init, rest, g);
        assert(s.map_values(g) =~= init.map_values(g).push(g(x)));
        vstd::seq_lib::to_multiset_build(init.map_values(g), g(x));
        assert(t.map_values(g) =~= rest.map_values(g).insert(k, g(x)));
        vstd::seq_lib::to_multiset_insert(rest.map_values(g), k, g(x));
    }
}

proof fn lemma_first_greater_map<T, K>(
    t: Seq<T>,
    x: T,
    f: spec_fn(T, T) -> Order,
    g: spec_fn(K, K) -> Order,
    key: spec_fn(T) -> K,
    i: int,
)
    requires
        0 <= i <= t.len(),
        forall|j: int| i <= j < t.len() ==> #[trigger] f(t[j], x) == g(key(t[j]), key(x)),
    ensures
        first_greater_from(t, x, f, i) == first_greater_from(t.map_values(key), key(x), g, i),
    decreases t.len() - i,
{
    if i < t.len() {
        assert(t.map_values(key)[i] == key(t[i]));
        assert(f(t[i], x) == g(key(t[i]), key(x)));
        lemma_first_greater_map(t, x, f, g, key, i + 1);
    }
}

/// Where `f` compares elements of `s` as `g` compares their images under `key`,
/// sorting and then mapping gives what mapping and then sorting gives.
pub proof fn lemma_stable_sort_map<T, K>(
    s: Seq<T>,
    f: spec_fn(T, T) -> Order,
    g: spec_fn(K, K) -> Order,
    key: spec_fn(T) -> K,
)
    requires
        forall|a: T, b: T| s.contains(a) && s.contains(b) ==> #[trigger] f(a, b) == g(key(a), key(b)),
    ensures
        stable_sort(s, f).map_values(key) == stable_sort(s.map_values(key), g),
    decreases s.len(),
{
    if s.len() > 0 {
        let init = s.drop_last();
        let x = s.last();
        assert forall|a: T, b: T| init.contains(a) && init.contains(b) implies #[trigger] f(a, b) == g(
            key(a),
            key(b),
        ) by {
            let i = choose|i: int| 0 <= i < init.len() && init[i] == a;
            let j = choose|j: int| 0 <= j < init.len() && init[j] == b;
            assert(s[i] == a);
            assert(s[j] == b);
        }
        lemma_stable_sort_map(init, f, g, key);
        let rest = stable_sort(init, f);
        lemma_stable_sort_elements(init, f);
        assert(s[s.len() - 1] == x);
        assert forall|j: int| 0 <= j < rest.len() implies #[trigger] f(rest[j], x) == g(key(rest[j]), key(x)) by {
            assert(rest.contains(rest[j]));
            assert(init.contains(rest[j]));
            let i = choose|i: int| 0 <= i < init.len() && init[i] == rest[j];
            assert(init[i] == s[i]);
            assert(s.contains(rest[j]));
            assert(s.contains(x));
        }
        lemma_first_greater_map(rest, x, f, g, key, 0);
        lemma_first_greater_bounds(rest, x, f, 0);
        let p = first_greater_from(rest, x, f, 0);
        assert(s.map_values(key).drop_last() =~= init.map_values(key));
        assert(s.map_values(key).last() == key(x));
        assert(rest.insert(p, x).map_values(key) =~= rest.map_values(key).insert(p, key(x)));
    }
}

} // verus!

verus! {

/// Every candidate's span is non-empty, as a span value always is.
pub open spec fn spans_valid(c: Seq<FindingView>) -> bool {
    forall|k: int| 0 <= k < c.len() ==> (#[trigger] c[k]).span.spec_start() < c[k].span.spec_end()
}

/// Ordinals that all name candidates of `c`.
spec fn in_range(s: Seq<usize>, n: int) -> bool {
    forall|j: int| 0 <= j < s.len() ==> #[trigger] s[j] < n
}

/// Two candidate runs of one length whose candidates have the same spans, place by place.
spec fn same_spans(c: Seq<FindingView>, d: Seq<FindingView>) -> bool {
    &&& c.len() == d.len()
    &&& forall|k: int| 0 <= k < c.len() ==> (#[trigger] c[k]).span == d[k].span
}

/// The overlap sweep reads nothing of a candidate but its span.
proof fn lemma_sweep_spans(c: Seq<FindingView>, d: Seq<FindingView>)
    requires
        same_spans(c, d),
    ensures
        sweep(c) == sweep(d),
    decreases c.len(),
{
    if c.len() > 0 {
        let (x, y) = (c.drop_last(), d.drop_last());
        assert forall|k: int| 0 <= k < x.len() implies (#[trigger] x[k]).span == y[k].span by {
            assert(x[k] == c[k]);
            assert(y[k] == d[k]);
        }
        lemma_sweep_spans(x, y);
        assert(c.last().span == d.last().span);
    }
}

/// Greedy selection by overlap alone: a candidate is kept unless a kept one overlaps it.
spec fn overlap_run(c: Seq<FindingView>, order: Seq<usize>) -> Seq<usize>
    decreases order.len(),
{
    if order.len() == 0 {
        Seq::empty()
    } else {
        let selected = overlap_run(c, order.drop_last());
        if first_overlap_from(c, selected, order.last() as int, 0) is Some {
            selected
        } else {
            selected.push(order.last())
        }
    }
}

/// With non-empty spans, a kept exact duplicate is also a kept overlap.
proof fn lemma_duplicate_overlaps(c: Seq<FindingView>, selected: Seq<usize>, cand: int, i: int)
    requires
        spans_valid(c),
        in_range(selected, c.len() as int),
        0 <= cand < c.len(),
        first_duplicate_from(c, selected, cand, i) is Some,
    ensures
        first_overlap_from(c, selected, cand, i) is Some,
    decreases selected.len() - i,
{
    if 0 <= i < selected.len() && !spans_overlap(c[selected[i] as int].span, c[cand].span) {
        assert(c[selected[i] as int] != c[cand]) by {
            assert(selected[i] < c.len());
        }
        lemma_duplicate_overlaps(c, selected, cand, i + 1);
    }
}

/// With non-empty spans, `BestCandidate` keeps exactly what selection by overlap keeps.
proof fn lemma_best_run_overlap(c: Seq<FindingView>, order: Seq<usize>)
    requires
        spans_valid(c),
        in_range(order, c.len() as int),
    ensures
        best_run(c, order).0 == overlap_run(c, order),
        in_range(overlap_run(c, order), c.len() as int),
    decreases order.len(),
{
    if order.len() > 0 {
        let init = order.drop_last();
        assert forall|j: int| 0 <= j < init.len() implies #[trigger] init[j] < c.len() by {
            assert(init[j] == order[j]);
        }
        lemma_best_run_overlap(c, init);
        let selected = overlap_run(c, init);
        let cand = order.last();
        assert(cand == order[order.len() - 1]);
        if first_duplicate_from(c, selected, cand as int, 0) is Some {
            lemma_duplicate_overlaps(c, selected, cand as int, 0);
        }
        assert forall|j: int| 0 <= j < selected.push(cand).len() implies #[trigger] selected.push(cand)[j] < c.len() by {
            if j < selected.len() {
                assert(selected.push(cand)[j] == selected[j]);
            }
        }
    }
}

proof fn lemma_first_overlap_spans(c: Seq<FindingView>, d: Seq<FindingView>, selected: Seq<usize>, cand: int, i: int)
    requires
        same_spans(c, d),
        in_range(selected, c.len() as int),
        0 <= cand < c.len(),
    ensures
        first_overlap_from(c, selected, cand, i) == first_overlap_from(d, selected, cand, i),
    decreases selected.len() - i,
{
    if 0 <= i < selected.len() {
        assert(selected[i] < c.len());
        lemma_first_overlap_spans(c, d, selected, cand, i + 1);
    }
}

/// Selection by overlap reads nothing of a candidate but its span.
proof fn lemma_overlap_run_spans(c: Seq<FindingView>, d: Seq<FindingView>, order: Seq<usize>)
    requires
        same_spans(c, d),
        in_range(order, c.len() as int),
    ensures
        overlap_run(c, order) == overlap_run(d, order),
        in_range(overlap_run(c, order), c.len() as int),
    decreases order.len(),
{
    if order.len() > 0 {
        let init = order.drop_last();
        assert forall|j: int| 0 <= j < init.len() implies #[trigger] init[j] < c.len() by {
            assert(init[j] == order[j]);
        }
        lemma_overlap_run_spans(c, d, init);
        let selected = overlap_run(c, init);
        let cand = order.last();
        assert(cand == order[order.len() - 1]);
        lemma_first_overlap_spans(c, d, selected, cand as int, 0);
        assert forall|j: int| 0 <= j < selected.push(cand).len() implies #[trigger] selected.push(cand)[j] < c.len() by {
            if j < selected.len() {
                assert(selected.push(cand)[j] == selected[j]);
            }
        }
    }
}

/// The precedence order reads a candidate only through its key.
proof fn lemma_precedence_keys(c: Seq<FindingView>, d: Seq<FindingView>, o: OptionsView)
    requires
        c.map_values(|f: FindingView| resolution_key(f)) == d.map_values(|f: FindingView| resolution_key(f)),
    ensures
        precedence_sequence(c, o) == precedence_sequence(d, o),
{
    reveal(precedence_compare);
    let key = |f: FindingView| resolution_key(f);
    let n = c.len();
    assert(d.len() == n) by {
        assert(c.map_values(key).len() == d.map_values(key).len());
    }
    let s = ordinals(n);
    let f = precedence_order(c, o);
    let g = precedence_order(d, o);
    let id = |i: usize| i;
    assert forall|a: usize, b: usize| s.contains(a) && s.contains(b) implies #[trigger] f(a, b) == g(id(a), id(b)) by {
        let i = choose|i: int| 0 <= i < s.len() && s[i] == a;
        let j = choose|j: int| 0 <= j < s.len() && s[j] == b;
        assert(c.map_values(key)[a as int] == d.map_values(key)[a as int]);
        assert(c.map_values(key)[b as int] == d.map_values(key)[b as int]);
        c[a as int].confidence.lemma_number(d[a as int].confidence);
        c[b as int].confidence.lemma_number(d[b as int].confidence);
    }
    crate::reorder::lemma_stable_sort_map(s, f, g, id);
    assert(s.map_values(id) =~= s);
    assert(stable_sort(s, f).map_values(id) =~= stable_sort(s, f));
}

/// Runs of candidates with the same keys, place by place, and non-empty spans need
/// the same number of outputs under every policy.
pub proof fn lemma_required_outputs_keys(c: Seq<FindingView>, d: Seq<FindingView>, o: OptionsView)
    requires
        c.map_values(|f: FindingView| resolution_key(f)) == d.map_values(|f: FindingView| resolution_key(f)),
        spans_valid(c),
    ensures
        required_outputs(c, o) == required_outputs(d, o),
{
    let key = |f: FindingView| resolution_key(f);
    assert(c.len() == d.len()) by {
        assert(c.map_values(key).len() == d.map_values(key).len());
    }
    assert forall|k: int| 0 <= k < c.len() implies (#[trigger] c[k]).span == d[k].span by {
        assert(c.map_values(key)[k] == d.map_values(key)[k]);
    }
    assert forall|k: int| 0 <= k < d.len() implies (#[trigger] d[k]).span.spec_start() < d[k].span.spec_end() by {
        assert(c[k].span == d[k].span);
    }
    match o.policy {
        ResolutionPolicy::ReportAll => {},
        ResolutionPolicy::BestCandidate => {
            lemma_precedence_keys(c, d, o);
            let ps = precedence_sequence(c, o);
            lemma_stable_sort_elements(ordinals(c.len()), precedence_order(c, o));
            assert forall|j: int| 0 <= j < ps.len() implies #[trigger] ps[j] < c.len() by {
                assert(ps.contains(ps[j]));
                assert(ordinals(c.len()).contains(ps[j]));
            }
            lemma_best_run_overlap(c, ps);
            lemma_best_run_overlap(d, ps);
            lemma_overlap_run_spans(c, d, ps);
            assert(best_selection(c, o).0 == best_selection(d, o).0);
        },
        ResolutionPolicy::ConservativeRedaction => {
            lemma_sweep_spans(c, d);
        },
    }
}

} // verus!
