//! Anonymization: transform detected spans of a text.
//!
//! Two entry points: the free [`anonymize`] function (one operator for every span)
//! and [`AnonymizerEngine`] (a default operator plus per-entity overrides).
use vstd::prelude::*;
use vstd::string::*;
use vstd::utf8::*;

use crate::document::{hex_lower, sha256, sha256_digest, to_hex_lower};
use crate::entity::{entity_tag, EntityType};
use crate::order::{compare_int, stable_sort, Order};
use crate::result::RecognizerResult;
use crate::text::push_char;
use crate::types::{char_boundary, slice_between};

verus! {

broadcast use vstd::utf8::group_utf8_lib;

/// Abstract content of an [`Operator`].
pub enum OperatorView {
    Replace(Option<Seq<char>>),
    Redact,
    Mask { mask_char: char, keep_last: usize },
    Hash { salt: Seq<char> },
}

/// How to transform a detected span.
#[derive(Debug, PartialEq, Eq)]
pub enum Operator {
    /// Replace with the given value, or `<ENTITY_TAG>` when `None`.
    Replace(Option<String>),
    /// Delete the span entirely.
    Redact,
    /// Overwrite with `mask_char`, keeping the last `keep_last` characters.
    Mask { mask_char: char, keep_last: usize },
    /// Replace with a salted SHA-256 digest (deterministic pseudonym).
    Hash { salt: String },
}

impl View for Operator {
    type V = OperatorView;

    open spec fn view(&self) -> OperatorView {
        match self {
            Operator::Replace(value) => OperatorView::Replace(
                match value {
                    Some(v) => Some(v@),
                    None => None,
                },
            ),
            Operator::Redact => OperatorView::Redact,
            Operator::Mask { mask_char, keep_last } => OperatorView::Mask {
                mask_char: *mask_char,
                keep_last: *keep_last,
            },
            Operator::Hash { salt } => OperatorView::Hash { salt: salt@ },
        }
    }
}

impl Clone for Operator {
    fn clone(&self) -> (r: Self)
        ensures
            r@ == self@,
    {
        match self {
            Operator::Replace(Some(v)) => Operator::Replace(Some(v.clone())),
            Operator::Replace(None) => Operator::Replace(None),
            Operator::Redact => Operator::Redact,
            Operator::Mask { mask_char, keep_last } => Operator::Mask {
                mask_char: *mask_char,
                keep_last: *keep_last,
            },
            Operator::Hash { salt } => Operator::Hash { salt: salt.clone() },
        }
    }
}

/// `s` with every character but the last `keep_last` ones replaced by `mask_char`.
pub open spec fn mask_text(s: Seq<char>, mask_char: char, keep_last: usize) -> Seq<char> {
    let keep = if keep_last < s.len() {
        keep_last as int
    } else {
        s.len() as int
    };
    Seq::new(s.len(), |i: int| if i >= s.len() - keep { s[i] } else { mask_char })
}

/// `<TAG>` for an entity.
pub open spec fn bracketed_tag(entity: EntityType) -> Seq<char> {
    seq!['<'] + entity_tag(entity) + seq!['>']
}

/// `<TAG:hex>`, where hex is the SHA-256 digest of the salt's bytes followed by the
/// original's bytes.
pub open spec fn hashed_text(entity: EntityType, salt: Seq<char>, original: Seq<char>) -> Seq<char> {
    seq!['<'] + entity_tag(entity) + seq![':'] + hex_lower(
        sha256(encode_utf8(salt) + encode_utf8(original)),
    ) + seq!['>']
}

/// The replacement an operator renders for the original text of a span.
pub open spec fn render_text(entity: EntityType, original: Seq<char>, op: OperatorView) -> Seq<
    char,
> {
    match op {
        OperatorView::Replace(Some(v)) => v,
        OperatorView::Replace(None) => bracketed_tag(entity),
        OperatorView::Redact => Seq::empty(),
        OperatorView::Mask { mask_char, keep_last } => mask_text(original, mask_char, keep_last),
        OperatorView::Hash { salt } => hashed_text(entity, salt, original),
    }
}

/// Overwrite all but the last `keep_last` characters of `original` with `mask_char`.
fn mask(original: &str, mask_char: char, keep_last: usize) -> (r: String)
    ensures
        r@ == mask_text(original@, mask_char, keep_last),
{
    let n = original.unicode_len();
    let keep = if keep_last < n {
        keep_last
    } else {
        n
    };
    let mut out = String::new();
    let mut i: usize = 0;
    while i < n
        invariant
            n == original@.len(),
            keep <= n,
            keep == (if keep_last < original@.len() { keep_last as int } else { original@.len() as int }),
            i <= n,
            out@ == mask_text(original@, mask_char, keep_last).take(i as int),
        decreases n - i,
    {
        let c = original.get_char(i);
        if i >= n - keep {
            push_char(&mut out, c);
        } else {
            push_char(&mut out, mask_char);
        }
        proof {
            assert(out@ =~= mask_text(original@, mask_char, keep_last).take(i + 1));
        }
        i = i + 1;
    }
    proof {
        assert(out@ =~= mask_text(original@, mask_char, keep_last));
    }
    out
}

/// The bytes of `a` followed by the bytes of `b`.
fn concat_bytes(a: &[u8], b: &[u8]) -> (r: Vec<u8>)
    ensures
        r@ == a@ + b@,
{
    let mut out: Vec<u8> = Vec::new();
    let mut i: usize = 0;
    while i < a.len()
        invariant
            i <= a@.len(),
            out@ == a@.take(i as int),
        decreases a@.len() - i,
    {
        out.push(a[i]);
        proof {
            assert(out@ =~= a@.take(i + 1));
        }
        i = i + 1;
    }
    let mut j: usize = 0;
    while j < b.len()
        invariant
            j <= b@.len(),
            out@ == a@ + b@.take(j as int),
        decreases b@.len() - j,
    {
        out.push(b[j]);
        proof {
            assert(out@ =~= a@ + b@.take(j + 1));
        }
        j = j + 1;
    }
    proof {
        assert(b@.take(b@.len() as int) =~= b@);
    }
    out
}

/// Render the replacement text of one span.
fn render(entity: EntityType, original: &str, op: &Operator) -> (r: String)
    ensures
        r@ == render_text(entity, original@, op@),
{
    proof {
        reveal_strlit("<");
        reveal_strlit(">");
        reveal_strlit(":");
    }
    match op {
        Operator::Replace(Some(v)) => v.clone(),
        Operator::Replace(None) => {
            let mut out = String::from_str("<");
            out.append(entity.as_tag());
            out.append(">");
            out
        },
        Operator::Redact => String::new(),
        Operator::Mask { mask_char, keep_last } => mask(original, *mask_char, *keep_last),
        Operator::Hash { salt } => {
            let bytes = concat_bytes(salt.as_str().as_bytes(), original.as_bytes());
            let digest = sha256_digest(bytes.as_slice());
            let hex = to_hex_lower(digest.as_slice());
            let mut out = String::from_str("<");
            out.append(entity.as_tag());
            out.append(":");
            out.append(hex.as_str());
            out.append(">");
            out
        },
    }
}

/// Results applied from the rightmost start leftwards; equal starts keep their order.
pub open spec fn by_start_descending() -> spec_fn(RecognizerResult, RecognizerResult) -> Order {
    |a: RecognizerResult, b: RecognizerResult| compare_int(b.start as int, a.start as int)
}

/// The order in which results are applied.
pub open spec fn application_order(results: Seq<RecognizerResult>) -> Seq<RecognizerResult> {
    stable_sort(results, by_start_descending())
}

/// A result applies to `out` when its end is inside the text and both its offsets are
/// character boundaries; other results are skipped.
pub open spec fn span_applies(out: Seq<char>, r: RecognizerResult) -> bool {
    let b = encode_utf8(out);
    &&& r.end <= b.len()
    &&& is_char_boundary(b, r.start as int)
    &&& is_char_boundary(b, r.end as int)
}

/// The text of the byte range `start..end` of `out`.
pub open spec fn byte_range_text(out: Seq<char>, start: int, end: int) -> Seq<char> {
    decode_utf8(encode_utf8(out).subrange(start, end))
}

/// One application step: an applicable span's text is replaced by its rendering.
pub open spec fn apply_step(out: Seq<char>, r: RecognizerResult, op: OperatorView) -> Seq<char> {
    if span_applies(out, r) {
        byte_range_text(out, 0, r.start as int) + render_text(
            r.entity_type,
            byte_range_text(out, r.start as int, r.end as int),
            op,
        ) + byte_range_text(out, r.end as int, encode_utf8(out).len() as int)
    } else {
        out
    }
}

/// Apply every result in turn, each with the operator `select` gives for its entity.
pub open spec fn apply_all(
    out: Seq<char>,
    rs: Seq<RecognizerResult>,
    select: spec_fn(EntityType) -> OperatorView,
) -> Seq<char>
    decreases rs.len(),
{
    if rs.len() == 0 {
        out
    } else {
        apply_all(apply_step(out, rs[0], select(rs[0].entity_type)), rs.drop_first(), select)
    }
}

/// No applicable span met on the way is reversed (one would make slicing panic).
pub open spec fn never_reversed(
    out: Seq<char>,
    rs: Seq<RecognizerResult>,
    select: spec_fn(EntityType) -> OperatorView,
) -> bool
    decreases rs.len(),
{
    rs.len() == 0 || ((span_applies(out, rs[0]) ==> rs[0].start <= rs[0].end) && never_reversed(
        apply_step(out, rs[0], select(rs[0].entity_type)),
        rs.drop_first(),
        select,
    ))
}

/// Sort results so that in-place replacement from the right keeps offsets valid.
fn ordered(results: &[RecognizerResult]) -> (r: Vec<RecognizerResult>)
    ensures
        r@ == application_order(results@),
{
    let ghost f = by_start_descending();
    let mut out: Vec<RecognizerResult> = Vec::new();
    let mut i: usize = 0;
    while i < results.len()
        invariant
            i <= results@.len(),
            f == by_start_descending(),
            out@ == stable_sort(results@.take(i as int), f),
        decreases results@.len() - i,
    {
        let x = results[i];
        let ghost sorted = out@;
        let mut j: usize = 0;
        while j < out.len() && !(x.start > out[j].start)
            invariant
                j <= out@.len(),
                sorted == out@,
                f == by_start_descending(),
                crate::order::first_greater_from(sorted, x, f, 0)
                    == crate::order::first_greater_from(sorted, x, f, j as int),
            decreases out@.len() - j,
        {
            j = j + 1;
        }
        proof {
            assert(results@.take(i + 1) =~= results@.take(i as int).push(x));
            crate::order::lemma_stable_sort_push(results@.take(i as int), x, f);
        }
        out.insert(j, x);
        i = i + 1;
    }
    proof {
        assert(results@.take(results@.len() as int) =~= results@);
    }
    out
}

/// Apply one span to `out` with `op`.
fn apply_span(out: &mut String, r: &RecognizerResult, op: &Operator)
    requires
        span_applies(old(out)@, *r) ==> r.start <= r.end,
    ensures
        final(out)@ == apply_step(old(out)@, *r, op@),
{
    let text = out.as_str();
    proof {
        assert(text@ == old(out)@);
        assert(text.spec_bytes() == encode_utf8(old(out)@));
        is_char_boundary_start_end_of_seq(text.spec_bytes());
        assert(char_boundary(text, text.spec_bytes().len() as int));
    }
    let bytes = text.as_bytes();
    let n = bytes.len();
    let start_ok = text.is_char_boundary(r.start);
    let end_ok = text.is_char_boundary(r.end);
    proof {
        assert(n == text.spec_bytes().len());
        assert(start_ok == is_char_boundary(encode_utf8(old(out)@), r.start as int));
        assert(end_ok == is_char_boundary(encode_utf8(old(out)@), r.end as int));
    }
    if r.end > n || !start_ok || !end_ok {
        proof {
            assert(!span_applies(old(out)@, *r));
        }
        return;
    }
    let prefix = slice_between(text, 0, r.start);
    let original = slice_between(text, r.start, r.end);
    let suffix = slice_between(text, r.end, n);
    let replacement = render(r.entity_type, original, op);
    let mut next = String::from_str(prefix);
    next.append(replacement.as_str());
    next.append(suffix);
    proof {
        assert(prefix@ == byte_range_text(old(out)@, 0, r.start as int));
        assert(original@ == byte_range_text(old(out)@, r.start as int, r.end as int));
        assert(suffix@ == byte_range_text(
            old(out)@,
            r.end as int,
            encode_utf8(old(out)@).len() as int,
        ));
    }
    *out = next;
}

/// Abstract content of a list of per-entity overrides.
pub open spec fn override_views(s: Seq<(EntityType, Operator)>) -> Seq<(EntityType, OperatorView)> {
    s.map_values(|p: (EntityType, Operator)| (p.0, p.1@))
}

/// The operator an override list gives an entity: its override, else `default`.
pub open spec fn operator_for(
    overrides: Seq<(EntityType, OperatorView)>,
    default: OperatorView,
    entity: EntityType,
) -> OperatorView {
    if exists|i: int| 0 <= i < overrides.len() && (#[trigger] overrides[i]).0 == entity {
        overrides[choose|i: int| 0 <= i < overrides.len() && (#[trigger] overrides[i]).0 == entity].1
    } else {
        default
    }
}

/// No entity has two overrides.
pub open spec fn distinct_keys(overrides: Seq<(EntityType, OperatorView)>) -> bool {
    forall|i: int, j: int|
        0 <= i < j < overrides.len() ==> (#[trigger] overrides[i]).0 != (#[trigger] overrides[j]).0
}

/// The operator of an entity when `overrides` holds it at position `i`.
proof fn lemma_operator_at(
    overrides: Seq<(EntityType, OperatorView)>,
    default: OperatorView,
    i: int,
)
    requires
        distinct_keys(overrides),
        0 <= i < overrides.len(),
    ensures
        operator_for(overrides, default, overrides[i].0) == overrides[i].1,
{
    let e = overrides[i].0;
    assert(exists|k: int| 0 <= k < overrides.len() && (#[trigger] overrides[k]).0 == e);
    let k = choose|k: int| 0 <= k < overrides.len() && (#[trigger] overrides[k]).0 == e;
    if k != i {
        if k < i {
            assert(overrides[k].0 != overrides[i].0);
        } else {
            assert(overrides[i].0 != overrides[k].0);
        }
    }
}

/// Apply every result of `ordered` to `text`, choosing each operator by entity type.
fn apply_all_spans(
    text: &str,
    ordered: &[RecognizerResult],
    default: &Operator,
    overrides: &[(EntityType, Operator)],
) -> (r: String)
    requires
        distinct_keys(override_views(overrides@)),
        never_reversed(
            text@,
            ordered@,
            |e: EntityType| operator_for(override_views(overrides@), default@, e),
        ),
    ensures
        r@ == apply_all(
            text@,
            ordered@,
            |e: EntityType| operator_for(override_views(overrides@), default@, e),
        ),
{
    let ghost select = |e: EntityType| operator_for(override_views(overrides@), default@, e);
    let mut out = text.to_owned();
    proof {
        assert(ordered@.skip(0) =~= ordered@);
    }
    let mut i: usize = 0;
    while i < ordered.len()
        invariant
            i <= ordered@.len(),
            select == (|e: EntityType| operator_for(override_views(overrides@), default@, e)),
            distinct_keys(override_views(overrides@)),
            apply_all(out@, ordered@.skip(i as int), select) == apply_all(text@, ordered@, select),
            never_reversed(out@, ordered@.skip(i as int), select),
        decreases ordered@.len() - i,
    {
        let r = &ordered[i];
        let op = operator_of(overrides, default, r.entity_type);
        proof {
            assert(ordered@.skip(i as int)[0] == *r);
            assert(ordered@.skip(i as int).drop_first() =~= ordered@.skip(i + 1));
        }
        apply_span(&mut out, r, op);
        i = i + 1;
    }
    proof {
        assert(ordered@.skip(ordered@.len() as int) =~= Seq::<RecognizerResult>::empty());
    }
    out
}

/// The operator for `entity`: its override, else `default`.
fn operator_of<'a>(
    overrides: &'a [(EntityType, Operator)],
    default: &'a Operator,
    entity: EntityType,
) -> (r: &'a Operator)
    requires
        distinct_keys(override_views(overrides@)),
    ensures
        r@ == operator_for(override_views(overrides@), default@, entity),
{
    let ghost v = override_views(overrides@);
    let mut i: usize = 0;
    while i < overrides.len()
        invariant
            i <= overrides@.len(),
            v == override_views(overrides@),
            distinct_keys(v),
            forall|k: int| 0 <= k < i ==> (#[trigger] v[k]).0 != entity,
        decreases overrides@.len() - i,
    {
        if overrides[i].0 == entity {
            proof {
                assert(v[i as int] == (overrides@[i as int].0, overrides@[i as int].1@));
                lemma_operator_at(v, default@, i as int);
            }
            return &overrides[i].1;
        }
        proof {
            assert(v[i as int].0 == overrides@[i as int].0);
        }
        i = i + 1;
    }
    proof {
        assert(!(exists|k: int| 0 <= k < v.len() && (#[trigger] v[k]).0 == entity));
    }
    default
}

/// Apply a single operator to every span in `results`, returning the transformed text.
///
/// Spans are applied from the rightmost start leftwards, so that byte offsets stay
/// valid; a result whose end is past the text or whose offsets are not character
/// boundaries of the text at that point is skipped.
pub fn anonymize(text: &str, results: &[RecognizerResult], op: &Operator) -> (r: String)
    requires
        never_reversed(text@, application_order(results@), |e: EntityType| op@),
    ensures
        r@ == apply_all(text@, application_order(results@), |e: EntityType| op@),
{
    let spans = ordered(results);
    let overrides: Vec<(EntityType, Operator)> = Vec::new();
    proof {
        let v = override_views(overrides@);
        assert(v.len() == 0);
        assert((|e: EntityType| operator_for(v, op@, e)) =~= (|e: EntityType| op@));
    }
    apply_all_spans(text, spans.as_slice(), op, overrides.as_slice())
}

/// Abstract content of an [`AnonymizerEngine`].
pub struct EngineView {
    pub default: OperatorView,
    pub overrides: Seq<(EntityType, OperatorView)>,
}

/// A per-entity anonymization policy: a default operator plus overrides keyed by
/// [`EntityType`].
pub struct AnonymizerEngine {
    default: Operator,
    overrides: Vec<(EntityType, Operator)>,
}

impl View for AnonymizerEngine {
    type V = EngineView;

    closed spec fn view(&self) -> EngineView {
        EngineView { default: self.default@, overrides: override_views(self.overrides@) }
    }
}

/// The operator an engine applies to `entity`.
pub open spec fn engine_operator(e: EngineView, entity: EntityType) -> OperatorView {
    operator_for(e.overrides, e.default, entity)
}

impl AnonymizerEngine {
    #[verifier::type_invariant]
    closed spec fn keyed(self) -> bool {
        distinct_keys(override_views(self.overrides@))
    }

    /// New engine that applies `default` to any entity without an override.
    pub fn new(default: Operator) -> (r: AnonymizerEngine)
        ensures
            forall|e: EntityType| #[trigger] engine_operator(r@, e) == default@,
            r@.default == default@,
    {
        let overrides: Vec<(EntityType, Operator)> = Vec::new();
        proof {
            assert(override_views(overrides@).len() == 0);
        }
        AnonymizerEngine { default, overrides }
    }

    /// Set the operator used for `entity` (builder style); a later setting for the
    /// same entity replaces an earlier one.
    pub fn with_operator(self, entity: EntityType, op: Operator) -> (r: AnonymizerEngine)
        ensures
            engine_operator(r@, entity) == op@,
            forall|e: EntityType|
                e != entity ==> #[trigger] engine_operator(r@, e) == engine_operator(self@, e),
            r@.default == self@.default,
    {
        proof {
            use_type_invariant(&self);
        }
        let ghost op_view = op@;
        let AnonymizerEngine { default, mut overrides } = self;
        let ghost before = override_views(overrides@);
        let mut i: usize = 0;
        while i < overrides.len()
            invariant
                i <= overrides@.len(),
                before == override_views(overrides@),
                distinct_keys(before),
                op_view == op@,
                before == self@.overrides,
                default@ == self@.default,
                forall|k: int| 0 <= k < i ==> (#[trigger] before[k]).0 != entity,
            decreases overrides@.len() - i,
        {
            if overrides[i].0 == entity {
                let ghost old_vec = overrides@;
                overrides.set(i, (entity, op));
                proof {
                    let after = override_views(overrides@);
                    assert(overrides@ == old_vec.update(i as int, (entity, op)));
                    assert(after.len() == before.len());
                    assert(overrides@[i as int] == (entity, op));
                    assert(overrides@[i as int].1@ == op_view);
                    assert(after[i as int] == (entity, op_view));
                    assert(after =~= before.update(i as int, (entity, op_view)));
                    assert(distinct_keys(after)) by {
                        assert forall|a: int, b: int| 0 <= a < b < after.len() implies (
                        #[trigger] after[a]).0 != (#[trigger] after[b]).0 by {
                            assert(before[a].0 != before[b].0);
                        }
                    }
                    lemma_operator_at(after, default@, i as int);
                    assert forall|e: EntityType| e != entity implies operator_for(after, default@, e)
                        == operator_for(before, default@, e) by {
                        lemma_operator_update(before, i as int, (entity, op_view), default@, e);
                    }
                }
                return AnonymizerEngine { default, overrides };
            }
            proof {
                assert(before[i as int].0 == overrides@[i as int].0);
            }
            i = i + 1;
        }
        overrides.push((entity, op));
        proof {
            let after = override_views(overrides@);
            assert(after =~= before.push((entity, op_view)));
            assert(distinct_keys(after)) by {
                assert forall|a: int, b: int| 0 <= a < b < after.len() implies (
                #[trigger] after[a]).0 != (#[trigger] after[b]).0 by {
                    if b < before.len() {
                        assert(before[a].0 != before[b].0);
                    } else {
                        assert(before[a].0 != entity);
                    }
                }
            }
            lemma_operator_at(after, default@, before.len() as int);
            assert forall|e: EntityType| e != entity implies operator_for(after, default@, e)
                == operator_for(before, default@, e) by {
                lemma_operator_push(before, (entity, op_view), default@, e);
            }
        }
        AnonymizerEngine { default, overrides }
    }

    /// Anonymize `text`, choosing each span's operator by entity type; spans are
    /// applied as [`anonymize`] applies them.
    pub fn anonymize(&self, text: &str, results: &[RecognizerResult]) -> (r: String)
        requires
            never_reversed(
                text@,
                application_order(results@),
                |e: EntityType| engine_operator(self@, e),
            ),
        ensures
            r@ == apply_all(
                text@,
                application_order(results@),
                |e: EntityType| engine_operator(self@, e),
            ),
    {
        proof {
            use_type_invariant(self);
        }
        let spans = ordered(results);
        proof {
            assert((|e: EntityType| engine_operator(self@, e)) =~= (|e: EntityType|
                operator_for(override_views(self.overrides@), self.default@, e)));
        }
        apply_all_spans(text, spans.as_slice(), &self.default, self.overrides.as_slice())
    }
}

/// Overriding one entity in place leaves every other entity's operator as it was.
proof fn lemma_operator_update(
    before: Seq<(EntityType, OperatorView)>,
    i: int,
    x: (EntityType, OperatorView),
    default: OperatorView,
    e: EntityType,
)
    requires
        distinct_keys(before),
        0 <= i < before.len(),
        before[i].0 == x.0,
        e != x.0,
    ensures
        operator_for(before.update(i, x), default, e) == operator_for(before, default, e),
{
    let after = before.update(i, x);
    if exists|k: int| 0 <= k < before.len() && (#[trigger] before[k]).0 == e {
        let k = choose|k: int| 0 <= k < before.len() && (#[trigger] before[k]).0 == e;
        assert(after[k] == before[k]);
        let m = choose|m: int| 0 <= m < after.len() && (#[trigger] after[m]).0 == e;
        assert(after[m] == before[m]);
        assert(before[m].0 == e);
        if k != m {
            if k < m {
                assert(before[k].0 != before[m].0);
            } else {
                assert(before[m].0 != before[k].0);
            }
        }
    } else {
        if exists|m: int| 0 <= m < after.len() && (#[trigger] after[m]).0 == e {
            let m = choose|m: int| 0 <= m < after.len() && (#[trigger] after[m]).0 == e;
            assert(after[m] == before[m]);
            assert(before[m].0 == e);
        }
    }
}

/// Adding an override for a new entity leaves every other entity's operator as it was.
proof fn lemma_operator_push(
    before: Seq<(EntityType, OperatorView)>,
    x: (EntityType, OperatorView),
    default: OperatorView,
    e: EntityType,
)
    requires
        distinct_keys(before),
        e != x.0,
    ensures
        operator_for(before.push(x), default, e) == operator_for(before, default, e),
{
    let after = before.push(x);
    if exists|k: int| 0 <= k < before.len() && (#[trigger] before[k]).0 == e {
        let k = choose|k: int| 0 <= k < before.len() && (#[trigger] before[k]).0 == e;
        assert(after[k] == before[k]);
        let m = choose|m: int| 0 <= m < after.len() && (#[trigger] after[m]).0 == e;
        assert(m < before.len());
        assert(after[m] == before[m]);
        if k != m {
            if k < m {
                assert(before[k].0 != before[m].0);
            } else {
                assert(before[m].0 != before[k].0);
            }
        }
    } else {
        if exists|m: int| 0 <= m < after.len() && (#[trigger] after[m]).0 == e {
            let m = choose|m: int| 0 <= m < after.len() && (#[trigger] after[m]).0 == e;
            assert(m < before.len());
            assert(after[m] == before[m]);
        }
    }
}

} // verus!
