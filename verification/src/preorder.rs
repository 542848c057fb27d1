//! The canonical candidate order is a total preorder.
use vstd::prelude::*;
use vstd::utf8::*;

use crate::canonical::{
    bool_int, canonical_compare, canonical_order, evidence_compare, evidence_rank, lex_evidence,
    optional_binding_compare, optional_recognizer_compare,
};
use crate::document::BindingView;
use crate::finding::{EvidenceView, FindingView};
use crate::order::{
    by_int_key, by_key, compare_int, compare_text, lemma_int_key_preorder, lemma_key_preorder,
    lemma_lex_preorder, lemma_then_preorder, lex_by, lex_bytes, lex_order, then, then_by,
    total_preorder, Order,
};

verus! {

/// Integer order on bytes.
pub open spec fn byte_order() -> spec_fn(u8, u8) -> Order {
    |x: u8, y: u8| compare_int(x as int, y as int)
}

/// Order of texts by their UTF-8 bytes.
pub open spec fn text_order() -> spec_fn(Seq<char>, Seq<char>) -> Order {
    by_key(|s: Seq<char>| encode_utf8(s), lex_order(byte_order()))
}

/// Present values first, present values compared by `f`.
pub open spec fn opt_by<K>(f: spec_fn(K, K) -> Order) -> spec_fn(Option<K>, Option<K>) -> Order {
    |a: Option<K>, b: Option<K>|
        match (a, b) {
            (Some(x), Some(y)) => f(x, y),
            (Some(_), None) => Order::Less,
            (None, Some(_)) => Order::Greater,
            (None, None) => Order::Equal,
        }
}

proof fn lemma_opt_preorder<K>(f: spec_fn(K, K) -> Order)
    requires
        total_preorder(f),
    ensures
        total_preorder(opt_by(f)),
{
    let h = opt_by(f);
    assert forall|a: Option<K>, b: Option<K>| #[trigger] h(a, b) == crate::order::flip(h(b, a)) by {
        match (a, b) {
            (Some(x), Some(y)) => {
                assert(f(x, y) == crate::order::flip(f(y, x)));
            },
            _ => {},
        }
    }
    assert forall|a: Option<K>, b: Option<K>, c: Option<K>|
        !(#[trigger] h(a, b) is Greater) && !(#[trigger] h(b, c) is Greater) implies !(#[trigger] h(
            a,
            c,
        ) is Greater) by {
        match (a, b, c) {
            (Some(x), Some(y), Some(z)) => {
                assert(!(f(x, y) is Greater) && !(f(y, z) is Greater));
            },
            _ => {},
        }
    }
    assert forall|a: Option<K>| #[trigger] h(a, a) is Equal by {
        match a {
            Some(x) => {
                assert(f(x, x) is Equal);
            },
            None => {},
        }
    }
}

proof fn lemma_lex_bytes_is_lex(a: Seq<u8>, b: Seq<u8>)
    ensures
        lex_bytes(a, b) == lex_by(a, b, byte_order()),
    decreases a.len(),
{
    if a.len() > 0 && b.len() > 0 {
        lemma_lex_bytes_is_lex(a.drop_first(), b.drop_first());
    }
}

proof fn lemma_text_order(a: Seq<char>, b: Seq<char>)
    ensures
        compare_text(a, b) == (text_order())(a, b),
{
    lemma_lex_bytes_is_lex(encode_utf8(a), encode_utf8(b));
}

proof fn lemma_text_preorder()
    ensures
        total_preorder(text_order()),
{
    assert(total_preorder(by_int_key(|x: u8| x as int)));
    lemma_int_key_preorder(|x: u8| x as int);
    assert(byte_order() =~= by_int_key(|x: u8| x as int));
    lemma_lex_preorder(byte_order());
    lemma_key_preorder(|s: Seq<char>| encode_utf8(s), lex_order(byte_order()));
}

/// Text key of an evidence item (empty for variants without one).
pub open spec fn evidence_text(e: EvidenceView) -> Seq<char> {
    match e {
        EvidenceView::Pattern { pattern_id } => pattern_id,
        EvidenceView::Validator { validator_id, .. } => validator_id,
        EvidenceView::Context { context_id, .. } => context_id,
        _ => Seq::empty(),
    }
}

/// First integer key of an evidence item.
pub open spec fn evidence_first(e: EvidenceView) -> int {
    match e {
        EvidenceView::Validator { accepted, .. } => bool_int(accepted),
        EvidenceView::Context { distance_bytes, .. } => distance_bytes as int,
        _ => 0,
    }
}

/// Second integer key of an evidence item.
pub open spec fn evidence_second(e: EvidenceView) -> int {
    match e {
        EvidenceView::Context { positive, .. } => bool_int(positive),
        _ => 0,
    }
}

/// The evidence comparison as a chain of key comparisons.
pub open spec fn evidence_chain() -> spec_fn(EvidenceView, EvidenceView) -> Order {
    then_by(
        by_int_key(|e: EvidenceView| evidence_rank(e)),
        then_by(
            by_key(|e: EvidenceView| evidence_text(e), text_order()),
            then_by(
                by_int_key(|e: EvidenceView| evidence_first(e)),
                by_int_key(|e: EvidenceView| evidence_second(e)),
            ),
        ),
    )
}

proof fn lemma_evidence_chain(a: EvidenceView, b: EvidenceView)
    ensures
        evidence_compare(a, b) == (evidence_chain())(a, b),
{
    lemma_text_order(evidence_text(a), evidence_text(b));
}

proof fn lemma_evidence_preorder()
    ensures
        total_preorder(evidence_chain()),
{
    lemma_int_key_preorder(|e: EvidenceView| evidence_rank(e));
    lemma_text_preorder();
    lemma_key_preorder(|e: EvidenceView| evidence_text(e), text_order());
    lemma_int_key_preorder(|e: EvidenceView| evidence_first(e));
    lemma_int_key_preorder(|e: EvidenceView| evidence_second(e));
    lemma_then_preorder(
        by_int_key(|e: EvidenceView| evidence_first(e)),
        by_int_key(|e: EvidenceView| evidence_second(e)),
    );
    lemma_then_preorder(
        by_key(|e: EvidenceView| evidence_text(e), text_order()),
        then_by(
            by_int_key(|e: EvidenceView| evidence_first(e)),
            by_int_key(|e: EvidenceView| evidence_second(e)),
        ),
    );
    lemma_then_preorder(
        by_int_key(|e: EvidenceView| evidence_rank(e)),
        then_by(
            by_key(|e: EvidenceView| evidence_text(e), text_order()),
            then_by(
                by_int_key(|e: EvidenceView| evidence_first(e)),
                by_int_key(|e: EvidenceView| evidence_second(e)),
            ),
        ),
    );
}

proof fn lemma_lex_evidence_is_lex(a: Seq<EvidenceView>, b: Seq<EvidenceView>)
    ensures
        lex_evidence(a, b) == lex_by(a, b, evidence_chain()),
    decreases a.len(),
{
    if a.len() > 0 && b.len() > 0 {
        lemma_evidence_chain(a[0], b[0]);
        lemma_lex_evidence_is_lex(a.drop_first(), b.drop_first());
    }
}

/// The binding comparison as a chain of key comparisons.
pub open spec fn binding_chain() -> spec_fn(BindingView, BindingView) -> Order {
    then_by(
        by_key(|b: BindingView| b.id, text_order()),
        then_by(
            by_int_key(|b: BindingView| b.byte_len as int),
            by_key(|b: BindingView| b.fingerprint, lex_order(byte_order())),
        ),
    )
}

proof fn lemma_binding_preorder()
    ensures
        total_preorder(binding_chain()),
{
    lemma_text_preorder();
    lemma_key_preorder(|b: BindingView| b.id, text_order());
    lemma_int_key_preorder(|b: BindingView| b.byte_len as int);
    lemma_int_key_preorder(|x: u8| x as int);
    assert(byte_order() =~= by_int_key(|x: u8| x as int));
    lemma_lex_preorder(byte_order());
    lemma_key_preorder(|b: BindingView| b.fingerprint, lex_order(byte_order()));
    lemma_then_preorder(
        by_int_key(|b: BindingView| b.byte_len as int),
        by_key(|b: BindingView| b.fingerprint, lex_order(byte_order())),
    );
    lemma_then_preorder(
        by_key(|b: BindingView| b.id, text_order()),
        then_by(
            by_int_key(|b: BindingView| b.byte_len as int),
            by_key(|b: BindingView| b.fingerprint, lex_order(byte_order())),
        ),
    );
}

/// The canonical comparison as a chain of key comparisons.
pub open spec fn canonical_chain() -> spec_fn(FindingView, FindingView) -> Order {
    then_by(
        by_int_key(|f: FindingView| f.span.spec_start() as int),
        then_by(
            by_int_key(|f: FindingView| f.span.spec_end() as int),
            then_by(
                by_key(|f: FindingView| f.entity, text_order()),
                then_by(
                    by_key(|f: FindingView| f.recognizer, opt_by(text_order())),
                    then_by(
                        by_int_key(|f: FindingView| -(f.confidence.spec_bits() as int)),
                        then_by(
                            by_key(|f: FindingView| f.evidence, lex_order(evidence_chain())),
                            by_key(|f: FindingView| f.document, opt_by(binding_chain())),
                        ),
                    ),
                ),
            ),
        ),
    )
}

proof fn lemma_canonical_chain(a: FindingView, b: FindingView)
    ensures
        canonical_compare(a, b) == (canonical_chain())(a, b),
{
    reveal(canonical_compare);
    lemma_text_order(a.entity, b.entity);
    match (a.recognizer, b.recognizer) {
        (Some(x), Some(y)) => {
            lemma_text_order(x, y);
        },
        _ => {},
    }
    assert(optional_recognizer_compare(a.recognizer, b.recognizer) == (opt_by(text_order()))(
        a.recognizer,
        b.recognizer,
    ));
    lemma_lex_evidence_is_lex(a.evidence, b.evidence);
    match (a.document, b.document) {
        (Some(x), Some(y)) => {
            lemma_text_order(x.id, y.id);
            lemma_lex_bytes_is_lex(x.fingerprint, y.fingerprint);
        },
        _ => {},
    }
    assert(optional_binding_compare(a.document, b.document) == (opt_by(binding_chain()))(
        a.document,
        b.document,
    ));
}

/// The canonical candidate order is a total preorder.
pub proof fn lemma_canonical_preorder()
    ensures
        total_preorder(canonical_order()),
{
    lemma_text_preorder();
    lemma_evidence_preorder();
    lemma_binding_preorder();
    let c1 = by_int_key(|f: FindingView| f.span.spec_start() as int);
    let c2 = by_int_key(|f: FindingView| f.span.spec_end() as int);
    let c3 = by_key(|f: FindingView| f.entity, text_order());
    let c4 = by_key(|f: FindingView| f.recognizer, opt_by(text_order()));
    let c5 = by_int_key(|f: FindingView| -(f.confidence.spec_bits() as int));
    let c6 = by_key(|f: FindingView| f.evidence, lex_order(evidence_chain()));
    let c7 = by_key(|f: FindingView| f.document, opt_by(binding_chain()));
    lemma_int_key_preorder(|f: FindingView| f.span.spec_start() as int);
    lemma_int_key_preorder(|f: FindingView| f.span.spec_end() as int);
    lemma_key_preorder(|f: FindingView| f.entity, text_order());
    lemma_opt_preorder(text_order());
    lemma_key_preorder(|f: FindingView| f.recognizer, opt_by(text_order()));
    lemma_int_key_preorder(|f: FindingView| -(f.confidence.spec_bits() as int));
    lemma_lex_preorder(evidence_chain());
    lemma_key_preorder(|f: FindingView| f.evidence, lex_order(evidence_chain()));
    lemma_opt_preorder(binding_chain());
    lemma_key_preorder(|f: FindingView| f.document, opt_by(binding_chain()));
    lemma_then_preorder(c6, c7);
    lemma_then_preorder(c5, then_by(c6, c7));
    lemma_then_preorder(c4, then_by(c5, then_by(c6, c7)));
    lemma_then_preorder(c3, then_by(c4, then_by(c5, then_by(c6, c7))));
    lemma_then_preorder(c2, then_by(c3, then_by(c4, then_by(c5, then_by(c6, c7)))));
    lemma_then_preorder(c1, then_by(c2, then_by(c3, then_by(c4, then_by(c5, then_by(c6, c7))))));
    assert forall|a: FindingView, b: FindingView| #[trigger] (canonical_order())(a, b)
        == (canonical_chain())(a, b) by {
        lemma_canonical_chain(a, b);
    }
    assert(canonical_order() =~= canonical_chain());
}

} // verus!
