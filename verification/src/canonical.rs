//! Canonical candidate order and resolution precedence.
use vstd::prelude::*;

use crate::document::{BindingView, DocumentBinding};
use crate::finding::{evidence_views, Evidence, EvidenceView, Finding, FindingView};
use crate::order::{compare_byte_slices, compare_int, compare_str, compare_text, compare_usize, lex_bytes, then, Order};
use crate::resolution::{entity_views, recognizer_views, OptionsView, ResolutionOptions};
use crate::types::{EntityId, RecognizerId};

verus! {

pub open spec fn bool_int(b: bool) -> int {
    if b {
        1
    } else {
        0
    }
}

/// Position of an evidence variant in the canonical order.
pub open spec fn evidence_rank(e: EvidenceView) -> int {
    match e {
        EvidenceView::LegacyResult => 0,
        EvidenceView::LegacyValidatorAccepted => 1,
        EvidenceView::Pattern { .. } => 2,
        EvidenceView::Validator { .. } => 3,
        EvidenceView::Context { .. } => 4,
    }
}

/// Canonical comparison of two evidence items: variant, then identifier, then the
/// remaining fields.
pub open spec fn evidence_compare(a: EvidenceView, b: EvidenceView) -> Order {
    then(
        compare_int(evidence_rank(a), evidence_rank(b)),
        match (a, b) {
            (EvidenceView::Pattern { pattern_id: x }, EvidenceView::Pattern { pattern_id: y }) =>
                compare_text(x, y),
            (
                EvidenceView::Validator { validator_id: x, accepted: p },
                EvidenceView::Validator { validator_id: y, accepted: q },
            ) => then(compare_text(x, y), compare_int(bool_int(p), bool_int(q))),
            (
                EvidenceView::Context { context_id: x, distance_bytes: d, positive: p },
                EvidenceView::Context { context_id: y, distance_bytes: e, positive: q },
            ) => then(
                compare_text(x, y),
                then(compare_int(d as int, e as int), compare_int(bool_int(p), bool_int(q))),
            ),
            _ => Order::Equal,
        },
    )
}

/// Lexicographic comparison of evidence runs; a proper prefix comes first.
pub open spec fn lex_evidence(a: Seq<EvidenceView>, b: Seq<EvidenceView>) -> Order
    decreases a.len(),
{
    if a.len() == 0 {
        if b.len() == 0 {
            Order::Equal
        } else {
            Order::Less
        }
    } else if b.len() == 0 {
        Order::Greater
    } else {
        then(evidence_compare(a[0], b[0]), lex_evidence(a.drop_first(), b.drop_first()))
    }
}

/// Present recognizers come before absent ones; present ones compare by text.
pub open spec fn optional_recognizer_compare(a: Option<Seq<char>>, b: Option<Seq<char>>) -> Order {
    match (a, b) {
        (Some(x), Some(y)) => compare_text(x, y),
        (Some(_), None) => Order::Less,
        (None, Some(_)) => Order::Greater,
        (None, None) => Order::Equal,
    }
}

/// Present bindings come before absent ones; present ones compare by identifier,
/// byte length and digest bytes.
pub open spec fn optional_binding_compare(a: Option<BindingView>, b: Option<BindingView>) -> Order {
    match (a, b) {
        (Some(x), Some(y)) => then(
            compare_text(x.id, y.id),
            then(compare_int(x.byte_len as int, y.byte_len as int), lex_bytes(x.fingerprint, y.fingerprint)),
        ),
        (Some(_), None) => Order::Less,
        (None, Some(_)) => Order::Greater,
        (None, None) => Order::Equal,
    }
}

/// The canonical order of candidates: span start, span end, entity, recognizer,
/// higher confidence first, evidence, then document binding.
#[verifier::opaque]
pub open spec fn canonical_compare(a: FindingView, b: FindingView) -> Order {
    then(
        compare_int(a.span.spec_start() as int, b.span.spec_start() as int),
        then(
            compare_int(a.span.spec_end() as int, b.span.spec_end() as int),
            then(
                compare_text(a.entity, b.entity),
                then(
                    optional_recognizer_compare(a.recognizer, b.recognizer),
                    then(
                        compare_int(b.confidence.spec_bits() as int, a.confidence.spec_bits() as int),
                        then(
                            lex_evidence(a.evidence, b.evidence),
                            optional_binding_compare(a.document, b.document),
                        ),
                    ),
                ),
            ),
        ),
    )
}

/// `canonical_compare` as a comparator value.
pub open spec fn canonical_order() -> spec_fn(FindingView, FindingView) -> Order {
    |a: FindingView, b: FindingView| canonical_compare(a, b)
}

fn evidence_rank_of(e: &Evidence) -> (r: u8)
    ensures
        r as int == evidence_rank(e@),
{
    match e {
        Evidence::LegacyResult => 0,
        Evidence::LegacyValidatorAccepted => 1,
        Evidence::Pattern { .. } => 2,
        Evidence::Validator { .. } => 3,
        Evidence::Context { .. } => 4,
    }
}

fn compare_bool(a: bool, b: bool) -> (r: Order)
    ensures
        r == compare_int(bool_int(a), bool_int(b)),
{
    if a == b {
        Order::Equal
    } else if !a {
        Order::Less
    } else {
        Order::Greater
    }
}

/// Canonical comparison of two evidence items.
pub fn compare_evidence(a: &Evidence, b: &Evidence) -> (r: Order)
    ensures
        r == evidence_compare(a@, b@),
{
    let ra = evidence_rank_of(a);
    let rb = evidence_rank_of(b);
    if ra < rb {
        return Order::Less;
    }
    if ra > rb {
        return Order::Greater;
    }
    match (a, b) {
        (Evidence::Pattern { pattern_id: x }, Evidence::Pattern { pattern_id: y }) => compare_str(
            x.as_str(),
            y.as_str(),
        ),
        (
            Evidence::Validator { validator_id: x, accepted: p },
            Evidence::Validator { validator_id: y, accepted: q },
        ) => {
            let o = compare_str(x.as_str(), y.as_str());
            if o != Order::Equal {
                o
            } else {
                compare_bool(*p, *q)
            }
        },
        (
            Evidence::Context { context_id: x, distance_bytes: d, positive: p },
            Evidence::Context { context_id: y, distance_bytes: e, positive: q },
        ) => {
            let o = compare_str(x.as_str(), y.as_str());
            if o != Order::Equal {
                o
            } else {
                let o2 = compare_usize(*d, *e);
                if o2 != Order::Equal {
                    o2
                } else {
                    compare_bool(*p, *q)
                }
            }
        },
        _ => Order::Equal,
    }
}

proof fn lemma_lex_evidence_skip(a: Seq<EvidenceView>, b: Seq<EvidenceView>, i: int)
    requires
        0 <= i <= a.len(),
        i <= b.len(),
        forall|j: int| 0 <= j < i ==> evidence_compare(a[j], b[j]) is Equal,
    ensures
        lex_evidence(a, b) == lex_evidence(a.skip(i), b.skip(i)),
    decreases i,
{
    if i > 0 {
        lemma_lex_evidence_skip(a.drop_first(), b.drop_first(), i - 1);
        assert(a.drop_first().skip(i - 1) =~= a.skip(i));
        assert(b.drop_first().skip(i - 1) =~= b.skip(i));
    } else {
        assert(a.skip(0) =~= a);
        assert(b.skip(0) =~= b);
    }
}

/// Lexicographic comparison of two evidence runs.
pub fn compare_evidence_slices(a: &[Evidence], b: &[Evidence]) -> (r: Order)
    ensures
        r == lex_evidence(evidence_views(a@), evidence_views(b@)),
{
    let ghost va = evidence_views(a@);
    let ghost vb = evidence_views(b@);
    let mut i: usize = 0;
    while i < a.len() && i < b.len()
        invariant
            va == evidence_views(a@),
            vb == evidence_views(b@),
            i <= a@.len(),
            i <= b@.len(),
            forall|j: int| 0 <= j < i ==> evidence_compare(va[j], vb[j]) is Equal,
        decreases a@.len() - i,
    {
        let o = compare_evidence(&a[i], &b[i]);
        if o != Order::Equal {
            proof {
                lemma_lex_evidence_skip(va, vb, i as int);
                assert(va.skip(i as int)[0] == a@[i as int]@);
                assert(vb.skip(i as int)[0] == b@[i as int]@);
            }
            return o;
        }
        i = i + 1;
    }
    proof {
        lemma_lex_evidence_skip(va, vb, i as int);
    }
    if a.len() == b.len() {
        Order::Equal
    } else if i == a.len() {
        Order::Less
    } else {
        Order::Greater
    }
}

fn compare_optional_recognizer(a: Option<&RecognizerId>, b: Option<&RecognizerId>) -> (r: Order)
    ensures
        r == optional_recognizer_compare(
            match a {
                Some(x) => Some(x@),
                None => None,
            },
            match b {
                Some(x) => Some(x@),
                None => None,
            },
        ),
{
    match (a, b) {
        (Some(x), Some(y)) => compare_str(x.as_str(), y.as_str()),
        (Some(_), None) => Order::Less,
        (None, Some(_)) => Order::Greater,
        (None, None) => Order::Equal,
    }
}

fn compare_optional_binding(a: Option<&DocumentBinding>, b: Option<&DocumentBinding>) -> (r: Order)
    ensures
        r == optional_binding_compare(
            match a {
                Some(x) => Some(x@),
                None => None,
            },
            match b {
                Some(x) => Some(x@),
                None => None,
            },
        ),
{
    match (a, b) {
        (Some(x), Some(y)) => {
            let o = compare_str(x.id().as_str(), y.id().as_str());
            if o != Order::Equal {
                return o;
            }
            let o2 = compare_usize(x.byte_len(), y.byte_len());
            if o2 != Order::Equal {
                return o2;
            }
            let fx = x.fingerprint();
            let fy = y.fingerprint();
            compare_byte_slices(fx.as_bytes().as_slice(), fy.as_bytes().as_slice())
        },
        (Some(_), None) => Order::Less,
        (None, Some(_)) => Order::Greater,
        (None, None) => Order::Equal,
    }
}

/// Canonical comparison of two candidates.
pub fn compare_canonical_candidates(left: &Finding, right: &Finding) -> (r: Order)
    ensures
        r == canonical_compare(left@, right@),
{
    reveal(canonical_compare);
    let o = compare_usize(left.span().start(), right.span().start());
    if o != Order::Equal {
        return o;
    }
    let o = compare_usize(left.span().end(), right.span().end());
    if o != Order::Equal {
        return o;
    }
    let o = compare_str(left.entity().as_str(), right.entity().as_str());
    if o != Order::Equal {
        return o;
    }
    let o = compare_optional_recognizer(left.recognizer(), right.recognizer());
    if o != Order::Equal {
        return o;
    }
    let lc = left.confidence().number_bits();
    let rc = right.confidence().number_bits();
    proof {
        left.spec_confidence().lemma_number(right.spec_confidence());
        right.spec_confidence().lemma_number(left.spec_confidence());
    }
    let o = if rc < lc {
        Order::Less
    } else if rc == lc {
        Order::Equal
    } else {
        Order::Greater
    };
    if o != Order::Equal {
        return o;
    }
    let o = compare_evidence_slices(left.evidence(), right.evidence());
    if o != Order::Equal {
        return o;
    }
    compare_optional_binding(left.document_binding(), right.document_binding())
}

/// Position of `v` at or after `i` in a priority list, or `usize::MAX` when absent.
pub open spec fn rank_from(priority: Seq<Seq<char>>, v: Seq<char>, i: int) -> int
    decreases priority.len() - i,
{
    if i >= priority.len() || i < 0 {
        usize::MAX as int
    } else if priority[i] == v {
        i
    } else {
        rank_from(priority, v, i + 1)
    }
}

/// Position of an entity in a priority list, or `usize::MAX` when absent.
pub open spec fn priority_rank_of(priority: Seq<Seq<char>>, v: Seq<char>) -> int {
    rank_from(priority, v, 0)
}

/// Position of a recognizer in a priority list; absent and unknown recognizers
/// rank last (`usize::MAX`).
pub open spec fn recognizer_rank_of(priority: Seq<Seq<char>>, v: Option<Seq<char>>) -> int {
    match v {
        Some(x) => rank_from(priority, x, 0),
        None => usize::MAX as int,
    }
}

/// Position of an entity identifier in a priority list.
pub fn priority_rank(priority: &[EntityId], value: &EntityId) -> (r: usize)
    ensures
        r as int == priority_rank_of(entity_views(priority@), value@),
{
    let ghost p = entity_views(priority@);
    let mut i: usize = 0;
    while i < priority.len()
        invariant
            p == entity_views(priority@),
            i <= priority@.len(),
            rank_from(p, value@, 0) == rank_from(p, value@, i as int),
        decreases priority@.len() - i,
    {
        if priority[i].same_as(value) {
            return i;
        }
        i = i + 1;
    }
    usize::MAX
}

/// Position of a recognizer identifier in a priority list.
pub fn recognizer_priority_rank(priority: &[RecognizerId], value: Option<&RecognizerId>) -> (r: usize)
    ensures
        r as int == recognizer_rank_of(
            recognizer_views(priority@),
            match value {
                Some(x) => Some(x@),
                None => None,
            },
        ),
{
    let v = match value {
        Some(v) => v,
        None => return usize::MAX,
    };
    let ghost p = recognizer_views(priority@);
    let mut i: usize = 0;
    while i < priority.len()
        invariant
            p == recognizer_views(priority@),
            value == Some(v),
            i <= priority@.len(),
            rank_from(p, v@, 0) == rank_from(p, v@, i as int),
        decreases priority@.len() - i,
    {
        if priority[i].same_as(v) {
            assert(p[i as int] == priority@[i as int]@);
            return i;
        }
        i = i + 1;
    }
    usize::MAX
}

/// Precedence of candidate `l` against candidate `r` under `BestCandidate`:
/// entity priority, recognizer priority, higher confidence, longer span,
/// earlier start, earlier end, entity text, recognizer, then ordinal.
#[verifier::opaque]
pub open spec fn precedence_compare(l: int, r: int, c: Seq<FindingView>, o: OptionsView) -> Order {
    let a = c[l];
    let b = c[r];
    then(
        compare_int(
            priority_rank_of(o.entity_priority, a.entity),
            priority_rank_of(o.entity_priority, b.entity),
        ),
        then(
            compare_int(
                recognizer_rank_of(o.recognizer_priority, a.recognizer),
                recognizer_rank_of(o.recognizer_priority, b.recognizer),
            ),
            then(
                compare_int(b.confidence.spec_bits() as int, a.confidence.spec_bits() as int),
                then(
                    compare_int(
                        b.span.spec_end() - b.span.spec_start(),
                        a.span.spec_end() - a.span.spec_start(),
                    ),
                    then(
                        compare_int(a.span.spec_start() as int, b.span.spec_start() as int),
                        then(
                            compare_int(a.span.spec_end() as int, b.span.spec_end() as int),
                            then(
                                compare_text(a.entity, b.entity),
                                then(
                                    optional_recognizer_compare(a.recognizer, b.recognizer),
                                    compare_int(l, r),
                                ),
                            ),
                        ),
                    ),
                ),
            ),
        ),
    )
}

/// `precedence_compare` over candidate ordinals as a comparator value.
pub open spec fn precedence_order(c: Seq<FindingView>, o: OptionsView) -> spec_fn(usize, usize) -> Order {
    |l: usize, r: usize| precedence_compare(l as int, r as int, c, o)
}

/// Precedence comparison of two candidate ordinals.
pub fn compare_precedence(left: usize, right: usize, candidates: &[Finding], options: &ResolutionOptions) -> (r: Order)
    requires
        left < candidates@.len(),
        right < candidates@.len(),
    ensures
        r == precedence_compare(left as int, right as int, candidates@.map_values(|f: Finding| f@), options@),
{
    reveal(precedence_compare);
    let ghost c = candidates@.map_values(|f: Finding| f@);
    let a = &candidates[left];
    let b = &candidates[right];
    assert(c[left as int] == a@);
    assert(c[right as int] == b@);
    let ra = priority_rank(options.entity_priority(), a.entity());
    let rb = priority_rank(options.entity_priority(), b.entity());
    let o = compare_usize(ra, rb);
    if o != Order::Equal {
        return o;
    }
    let ra = recognizer_priority_rank(options.recognizer_priority(), a.recognizer());
    let rb = recognizer_priority_rank(options.recognizer_priority(), b.recognizer());
    let o = compare_usize(ra, rb);
    if o != Order::Equal {
        return o;
    }
    proof {
        a.spec_confidence().lemma_number(b.spec_confidence());
        b.spec_confidence().lemma_number(a.spec_confidence());
    }
    let o = compare_usize(b.confidence().number_bits() as usize, a.confidence().number_bits() as usize);
    if o != Order::Equal {
        return o;
    }
    let o = compare_usize(b.span().len(), a.span().len());
    if o != Order::Equal {
        return o;
    }
    let o = compare_usize(a.span().start(), b.span().start());
    if o != Order::Equal {
        return o;
    }
    let o = compare_usize(a.span().end(), b.span().end());
    if o != Order::Equal {
        return o;
    }
    let o = compare_str(a.entity().as_str(), b.entity().as_str());
    if o != Order::Equal {
        return o;
    }
    let o = compare_optional_recognizer(a.recognizer(), b.recognizer());
    if o != Order::Equal {
        return o;
    }
    compare_usize(left, right)
}

} // verus!
