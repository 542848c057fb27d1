//! The analyzer engine: runs a recognizer registry, applies validators and context
//! scoring, resolves overlaps, and filters by a score threshold.
use vstd::prelude::*;
use vstd::string::*;
use vstd::utf8::*;

use crate::anonymizer::byte_range_text;
use crate::context::{context_hit, has_context_hit, word_views};
use crate::entity::EntityType;
use crate::order::{compare_int, stable_sort, then, Order};
use crate::recognizer::{
    find_matches, pattern_matches, validator_verdict, well_placed_matches, Pattern,
    PatternRecognizer, regex_compiles,
};
use crate::registry::{RecognizerRegistry, RegistryView};
use crate::result::RecognizerResult;
use crate::score::{f32_is_nan, f32_key, f32_le, f32_lt, score_le, score_lt, ONE_BITS};
use crate::document::{BindingView, DocumentBinding, TextDocument};
use crate::entity::entity_tag;
use crate::finding::{Evidence, EvidenceView, Finding, FindingView, ENGINE_VERSION};
use crate::recognition::emitted_span_check;
use crate::report::{
    AnalysisIssue, AnalysisOptions, AnalysisReport, AnalysisReportView, AnalysisStatus,
    metadata_views,
};
use crate::metadata::RecognizerMetadata;
use crate::resolution::finding_views;
use crate::types::{
    confidence_check, slice_between, valid_identifier, Confidence, EntityId, MetadataId, Span,
};

verus! {

broadcast use vstd::utf8::group_utf8_lib;

/// Default minimum score a result must reach to be returned: the bit pattern of the
/// float `0.3`.
pub const DEFAULT_SCORE_THRESHOLD: u32 = 0x3e99_999a;

/// One accepted pattern match before validation into a finding.
#[derive(Debug, Clone, Copy)]
pub struct RawCandidate {
    pub entity_type: EntityType,
    pub start: usize,
    pub end: usize,
    pub score: u32,
    pub recognizer_index: usize,
    pub pattern_index: usize,
    pub pattern_name: &'static str,
    pub validator_accepted: bool,
}

/// The candidate that match `m` of pattern `pi` of recognizer `ri` gives, unless the
/// recognizer's validator rejects the matched text.
///
/// A validator that accepts raises the score to `1.0`; a context hit raises it to the
/// pattern's context score (`1.0` stays `1.0`).
pub open spec fn match_candidate(
    text: Seq<char>,
    rec: PatternRecognizer,
    ri: int,
    pi: int,
    m: (usize, usize),
) -> Option<RawCandidate> {
    let pattern = rec.patterns@[pi];
    let piece = byte_range_text(text, m.0 as int, m.1 as int);
    let verdict = match rec.validator {
        Some(v) => validator_verdict(v, piece),
        None => None,
    };
    if verdict == Some(false) {
        None
    } else {
        let accepted = verdict == Some(true);
        let hit = rec.context@.len() > 0 && context_hit(
            text,
            m.0 as int,
            m.1 as int,
            word_views(rec.context@),
        );
        let score = if accepted {
            ONE_BITS
        } else if hit {
            pattern.spec_context_score()
        } else {
            pattern.spec_base_score()
        };
        Some(
            RawCandidate {
                entity_type: rec.entity_type,
                start: m.0,
                end: m.1,
                score,
                recognizer_index: ri as usize,
                pattern_index: pi as usize,
                pattern_name: pattern.spec_name_str(),
                validator_accepted: accepted,
            },
        )
    }
}

/// The candidates of the first `k` matches in `ms` of pattern `pi` of recognizer `ri`.
pub open spec fn match_candidates(
    text: Seq<char>,
    rec: PatternRecognizer,
    ri: int,
    pi: int,
    ms: Seq<(usize, usize)>,
    k: int,
) -> Seq<RawCandidate>
    decreases k,
{
    if k <= 0 {
        Seq::empty()
    } else {
        let before = match_candidates(text, rec, ri, pi, ms, k - 1);
        match match_candidate(text, rec, ri, pi, ms[k - 1]) {
            Some(c) => before.push(c),
            None => before,
        }
    }
}

/// The candidates of pattern `pi` of recognizer `ri`.
pub open spec fn pattern_candidates(text: Seq<char>, rec: PatternRecognizer, ri: int, pi: int) -> Seq<
    RawCandidate,
> {
    let ms = pattern_matches(rec.patterns@[pi].spec_regex(), text);
    match_candidates(text, rec, ri, pi, ms, ms.len() as int)
}

/// The candidates of the first `k` patterns of recognizer `ri`.
pub open spec fn recognizer_candidates(text: Seq<char>, rec: PatternRecognizer, ri: int, k: int) -> Seq<
    RawCandidate,
>
    decreases k,
{
    if k <= 0 {
        Seq::empty()
    } else {
        recognizer_candidates(text, rec, ri, k - 1) + pattern_candidates(text, rec, ri, k - 1)
    }
}

/// Whether an entity filter lets an entity type through (no filter lets all through).
pub open spec fn filter_allows(filter: Option<Seq<EntityType>>, e: EntityType) -> bool {
    match filter {
        Some(f) => f.contains(e),
        None => true,
    }
}

/// The filter a caller's optional slice of entity types stands for.
pub open spec fn filter_view(entities: Option<&[EntityType]>) -> Option<Seq<EntityType>> {
    match entities {
        Some(f) => Some(f@),
        None => None,
    }
}

/// The candidates of the first `k` recognizers that the filter lets through, in
/// recognizer, pattern and match order.
pub open spec fn registry_candidates(
    text: Seq<char>,
    recs: Seq<PatternRecognizer>,
    filter: Option<Seq<EntityType>>,
    k: int,
) -> Seq<RawCandidate>
    decreases k,
{
    if k <= 0 {
        Seq::empty()
    } else {
        let before = registry_candidates(text, recs, filter, k - 1);
        if filter_allows(filter, recs[k - 1].entity_type) {
            before + recognizer_candidates(
                text,
                recs[k - 1],
                k - 1,
                recs[k - 1].patterns@.len() as int,
            )
        } else {
            before
        }
    }
}

/// Every raw candidate of a registry over a text.
pub open spec fn all_candidates(
    text: Seq<char>,
    recs: Seq<PatternRecognizer>,
    filter: Option<Seq<EntityType>>,
) -> Seq<RawCandidate> {
    registry_candidates(text, recs, filter, recs.len() as int)
}

/// The legacy result of a raw candidate.
pub open spec fn legacy_result(c: RawCandidate) -> RecognizerResult {
    RecognizerResult { entity_type: c.entity_type, start: c.start, end: c.end, score: c.score }
}

/// The legacy results of a run of raw candidates.
pub open spec fn legacy_results(cs: Seq<RawCandidate>) -> Seq<RecognizerResult> {
    cs.map_values(|c: RawCandidate| legacy_result(c))
}

/// Overlap order: by start, then by descending score.
pub open spec fn overlap_order() -> spec_fn(RecognizerResult, RecognizerResult) -> Order {
    |a: RecognizerResult, b: RecognizerResult|
        then(compare_int(a.start as int, b.start as int), descending_score(a.score, b.score))
}

/// Higher score first; a NaN score compares equal to every score, as
/// `partial_cmp(..).unwrap_or(Equal)` orders it.
pub open spec fn descending_score(a: u32, b: u32) -> Order {
    if f32_is_nan(a) || f32_is_nan(b) {
        Order::Equal
    } else {
        compare_int(f32_key(b), f32_key(a))
    }
}

/// Order by start only.
pub open spec fn start_order() -> spec_fn(RecognizerResult, RecognizerResult) -> Order {
    |a: RecognizerResult, b: RecognizerResult| compare_int(a.start as int, b.start as int)
}

/// Walk results in overlap order, keeping a result unless it starts before the end of
/// the last kept one; then the higher-scoring of the two is kept in that place.
pub open spec fn keep_highest(s: Seq<RecognizerResult>) -> Seq<RecognizerResult>
    decreases s.len(),
{
    if s.len() == 0 {
        Seq::empty()
    } else {
        let kept = keep_highest(s.drop_last());
        let r = s.last();
        if kept.len() > 0 && r.start < kept.last().end {
            if f32_lt(kept.last().score, r.score) {
                kept.update(kept.len() - 1, r)
            } else {
                kept
            }
        } else {
            kept.push(r)
        }
    }
}

/// The results whose score is at least `threshold`.
pub open spec fn at_least(s: Seq<RecognizerResult>, threshold: u32) -> Seq<RecognizerResult>
    decreases s.len(),
{
    if s.len() == 0 {
        Seq::empty()
    } else if f32_le(threshold, s.last().score) {
        at_least(s.drop_last(), threshold).push(s.last())
    } else {
        at_least(s.drop_last(), threshold)
    }
}

/// The legacy analyzer policy on raw candidates: the highest-scoring result of each
/// run of overlapping spans, at or above the threshold, ordered by start.
pub open spec fn legacy_projection(cs: Seq<RawCandidate>, threshold: u32) -> Seq<RecognizerResult> {
    stable_sort(
        at_least(keep_highest(stable_sort(legacy_results(cs), overlap_order())), threshold),
        start_order(),
    )
}

/// Whether `e` occurs in `filter`.
fn contains_entity(filter: &[EntityType], e: EntityType) -> (r: bool)
    ensures
        r == filter@.contains(e),
{
    let mut i: usize = 0;
    while i < filter.len()
        invariant
            i <= filter@.len(),
            forall|j: int| 0 <= j < i ==> filter@[j] != e,
        decreases filter@.len() - i,
    {
        if filter[i] == e {
            proof {
                assert(filter@[i as int] == e);
            }
            return true;
        }
        i = i + 1;
    }
    false
}

/// The raw candidate of one match.
pub(crate) fn candidate_for_match(
    text: &str,
    rec: &PatternRecognizer,
    ri: usize,
    pi: usize,
    start: usize,
    end: usize,
) -> (r: Option<RawCandidate>)
    requires
        pi < rec.patterns@.len(),
        start <= end,
        is_char_boundary(encode_utf8(text@), start as int),
        is_char_boundary(encode_utf8(text@), end as int),
    ensures
        r == match_candidate(text@, *rec, ri as int, pi as int, (start, end)),
{
    let pattern = &rec.patterns[pi];
    let piece = slice_between(text, start, end);
    proof {
        assert(piece@ == byte_range_text(text@, start as int, end as int)) by {
            assert(decode_utf8(encode_utf8(piece@)) == piece@);
        }
    }
    let verdict = match rec.validator {
        Some(v) => v.validate(piece),
        None => None,
    };
    if verdict == Some(false) {
        return None;
    }
    let accepted = verdict == Some(true);
    let hit = if rec.context.len() > 0 {
        has_context_hit(text, start, end, rec.context)
    } else {
        false
    };
    let score = if accepted {
        ONE_BITS
    } else if hit {
        pattern.context_score()
    } else {
        pattern.base_score()
    };
    Some(
        RawCandidate {
            entity_type: rec.entity_type,
            start,
            end,
            score,
            recognizer_index: ri,
            pattern_index: pi,
            pattern_name: pattern.name(),
            validator_accepted: accepted,
        },
    )
}

/// Every raw candidate of the registry's recognizers that the filter lets through.
fn collect_raw_candidates(
    registry: &RecognizerRegistry,
    text: &str,
    entities: Option<&[EntityType]>,
) -> (r: Vec<RawCandidate>)
    ensures
        r@ == all_candidates(text@, registry@.recognizers, filter_view(entities)),
        forall|j: int| 0 <= j < r@.len() ==> (#[trigger] r@[j]).start <= r@[j].end,
{
    let recs = registry.recognizers();
    let ghost filter = filter_view(entities);
    let mut out: Vec<RawCandidate> = Vec::new();
    let mut ri: usize = 0;
    while ri < recs.len()
        invariant
            ri <= recs@.len(),
            filter == filter_view(entities),
            out@ == registry_candidates(text@, recs@, filter, ri as int),
            forall|j: int| 0 <= j < out@.len() ==> (#[trigger] out@[j]).start <= out@[j].end,
        decreases recs@.len() - ri,
    {
        let rec = &recs[ri];
        let allowed = match entities {
            Some(f) => contains_entity(f, rec.entity_type),
            None => true,
        };
        let ghost before = out@;
        if allowed {
            let mut pi: usize = 0;
            while pi < rec.patterns.len()
                invariant
                    ri < recs@.len(),
                    *rec == recs@[ri as int],
                    pi <= rec.patterns@.len(),
                    before == registry_candidates(text@, recs@, filter, ri as int),
                    out@ == before + recognizer_candidates(text@, *rec, ri as int, pi as int),
                    forall|j: int| 0 <= j < out@.len() ==> (#[trigger] out@[j]).start <= out@[j].end,
                decreases rec.patterns@.len() - pi,
            {
                let pattern = &rec.patterns[pi];
                let ms = find_matches(pattern.regex(), text);
                let ghost mid = out@;
                let mut k: usize = 0;
                while k < ms.len()
                    invariant
                        pi < rec.patterns@.len(),
                        *pattern == rec.patterns@[pi as int],
                        ms@ == pattern_matches(pattern.spec_regex(), text@),
                        regex_compiles(pattern.spec_regex()) ==> well_placed_matches(ms@, text@),
                        k <= ms@.len(),
                        mid == before + recognizer_candidates(text@, *rec, ri as int, pi as int),
                        out@ == mid + match_candidates(text@, *rec, ri as int, pi as int, ms@, k as int),
                        forall|j: int| 0 <= j < out@.len() ==> (#[trigger] out@[j]).start <= out@[j].end,
                    decreases ms@.len() - k,
                {
                    let (s, e) = ms[k];
                    proof {
                        if !regex_compiles(pattern.spec_regex()) {
                            assert(ms@.len() == 0);
                        }
                        assert(ms@[k as int] == (s, e));
                    }
                    let ghost prev = out@;
                    match candidate_for_match(text, rec, ri, pi, s, e) {
                        Some(c) => {
                            out.push(c);
                            proof {
                                assert(out@ =~= mid + match_candidates(
                                    text@,
                                    *rec,
                                    ri as int,
                                    pi as int,
                                    ms@,
                                    k + 1,
                                ));
                            }
                        },
                        None => {},
                    }
                    k = k + 1;
                }
                proof {
                    assert(out@ =~= before + recognizer_candidates(
                        text@,
                        *rec,
                        ri as int,
                        pi + 1,
                    ));
                }
                pi = pi + 1;
            }
            proof {
                assert(out@ == registry_candidates(text@, recs@, filter, ri + 1));
            }
        }
        ri = ri + 1;
    }
    out
}

/// The legacy results of raw candidates, in order.
fn to_legacy(cs: &[RawCandidate]) -> (r: Vec<RecognizerResult>)
    ensures
        r@ == legacy_results(cs@),
{
    let mut out: Vec<RecognizerResult> = Vec::new();
    let mut i: usize = 0;
    while i < cs.len()
        invariant
            i <= cs@.len(),
            out@ == legacy_results(cs@.take(i as int)),
        decreases cs@.len() - i,
    {
        let c = cs[i];
        out.push(RecognizerResult::new(c.entity_type, c.start, c.end, c.score));
        proof {
            assert(legacy_results(cs@.take(i + 1)) =~= legacy_results(cs@.take(i as int)).push(
                legacy_result(c),
            ));
        }
        i = i + 1;
    }
    proof {
        assert(cs@.take(cs@.len() as int) =~= cs@);
    }
    out
}

/// Compare two results in overlap order.
fn compare_overlap(a: &RecognizerResult, b: &RecognizerResult) -> (r: Order)
    ensures
        r == (overlap_order())(*a, *b),
{
    if a.start < b.start {
        Order::Less
    } else if a.start > b.start {
        Order::Greater
    } else if crate::score::score_is_nan(a.score) || crate::score::score_is_nan(b.score) {
        Order::Equal
    } else {
        let ka = crate::score::score_key(a.score);
        let kb = crate::score::score_key(b.score);
        if kb < ka {
            Order::Less
        } else if kb == ka {
            Order::Equal
        } else {
            Order::Greater
        }
    }
}

/// Stable insertion sort of results in overlap order.
fn sort_by_overlap(v: &[RecognizerResult]) -> (r: Vec<RecognizerResult>)
    ensures
        r@ == stable_sort(v@, overlap_order()),
{
    let ghost f = overlap_order();
    let mut out: Vec<RecognizerResult> = Vec::new();
    let mut i: usize = 0;
    while i < v.len()
        invariant
            i <= v@.len(),
            f == overlap_order(),
            out@ == stable_sort(v@.take(i as int), f),
        decreases v@.len() - i,
    {
        let x = v[i];
        let ghost sorted = out@;
        let mut j: usize = 0;
        while j < out.len() && compare_overlap(&out[j], &x) != Order::Greater
            invariant
                j <= out@.len(),
                sorted == out@,
                f == overlap_order(),
                crate::order::first_greater_from(sorted, x, f, 0)
                    == crate::order::first_greater_from(sorted, x, f, j as int),
            decreases out@.len() - j,
        {
            j = j + 1;
        }
        proof {
            assert(v@.take(i + 1) =~= v@.take(i as int).push(x));
            crate::order::lemma_stable_sort_push(v@.take(i as int), x, f);
        }
        out.insert(j, x);
        i = i + 1;
    }
    proof {
        assert(v@.take(v@.len() as int) =~= v@);
    }
    out
}

/// Stable insertion sort of results by start.
fn sort_by_start(v: &[RecognizerResult]) -> (r: Vec<RecognizerResult>)
    ensures
        r@ == stable_sort(v@, start_order()),
{
    let ghost f = start_order();
    let mut out: Vec<RecognizerResult> = Vec::new();
    let mut i: usize = 0;
    while i < v.len()
        invariant
            i <= v@.len(),
            f == start_order(),
            out@ == stable_sort(v@.take(i as int), f),
        decreases v@.len() - i,
    {
        let x = v[i];
        let ghost sorted = out@;
        let mut j: usize = 0;
        while j < out.len() && !(out[j].start > x.start)
            invariant
                j <= out@.len(),
                sorted == out@,
                f == start_order(),
                crate::order::first_greater_from(sorted, x, f, 0)
                    == crate::order::first_greater_from(sorted, x, f, j as int),
            decreases out@.len() - j,
        {
            j = j + 1;
        }
        proof {
            assert(v@.take(i + 1) =~= v@.take(i as int).push(x));
            crate::order::lemma_stable_sort_push(v@.take(i as int), x, f);
        }
        out.insert(j, x);
        i = i + 1;
    }
    proof {
        assert(v@.take(v@.len() as int) =~= v@);
    }
    out
}

/// Keep the highest-scoring result among overlapping spans.
fn dedupe_overlaps(sorted: &[RecognizerResult]) -> (r: Vec<RecognizerResult>)
    ensures
        r@ == keep_highest(sorted@),
{
    let mut kept: Vec<RecognizerResult> = Vec::new();
    let mut i: usize = 0;
    while i < sorted.len()
        invariant
            i <= sorted@.len(),
            kept@ == keep_highest(sorted@.take(i as int)),
        decreases sorted@.len() - i,
    {
        let r = sorted[i];
        proof {
            assert(sorted@.take(i + 1).drop_last() =~= sorted@.take(i as int));
            assert(sorted@.take(i + 1).last() == r);
        }
        let n = kept.len();
        if n > 0 && r.start < kept[n - 1].end {
            if score_lt(kept[n - 1].score, r.score) {
                kept.set(n - 1, r);
            }
        } else {
            kept.push(r);
        }
        i = i + 1;
    }
    proof {
        assert(sorted@.take(sorted@.len() as int) =~= sorted@);
    }
    kept
}

/// The results whose score is at least `threshold`.
fn retain_at_least(v: &[RecognizerResult], threshold: u32) -> (r: Vec<RecognizerResult>)
    ensures
        r@ == at_least(v@, threshold),
{
    let mut out: Vec<RecognizerResult> = Vec::new();
    let mut i: usize = 0;
    while i < v.len()
        invariant
            i <= v@.len(),
            out@ == at_least(v@.take(i as int), threshold),
        decreases v@.len() - i,
    {
        let r = v[i];
        proof {
            assert(v@.take(i + 1).drop_last() =~= v@.take(i as int));
            assert(v@.take(i + 1).last() == r);
        }
        if score_le(threshold, r.score) {
            out.push(r);
        }
        i = i + 1;
    }
    proof {
        assert(v@.take(v@.len() as int) =~= v@);
    }
    out
}

/// The legacy analyzer policy applied to raw candidates.
fn project_legacy_results(cs: &[RawCandidate], threshold: u32) -> (r: Vec<RecognizerResult>)
    ensures
        r@ == legacy_projection(cs@, threshold),
{
    let results = to_legacy(cs);
    let sorted = sort_by_overlap(results.as_slice());
    let kept = dedupe_overlaps(sorted.as_slice());
    let above = retain_at_least(kept.as_slice(), threshold);
    sort_by_start(above.as_slice())
}

/// The first `maximum` items of `s` (all of them when there are fewer).
pub open spec fn bounded<A>(s: Seq<A>, maximum: usize) -> Seq<A> {
    if s.len() <= maximum {
        s
    } else {
        s.take(maximum as int)
    }
}

/// Evidence a validated raw candidate carries: its pattern, when the pattern name is a
/// valid identifier, and the validator's acceptance.
pub open spec fn candidate_evidence(c: RawCandidate) -> Seq<EvidenceView> {
    (if valid_identifier(c.pattern_name@) {
        seq![EvidenceView::Pattern { pattern_id: c.pattern_name@ }]
    } else {
        Seq::empty()
    }) + (if c.validator_accepted {
        seq![EvidenceView::LegacyValidatorAccepted]
    } else {
        Seq::empty()
    })
}

/// A raw candidate whose span is valid for the text and whose score is a confidence.
pub open spec fn candidate_valid(text: &str, c: RawCandidate) -> bool {
    emitted_span_check(text, c.start, c.end) is Ok && confidence_check(c.score) is Ok
}

/// The finding a valid raw candidate yields.
pub open spec fn candidate_finding(c: RawCandidate, document: Option<BindingView>) -> FindingView {
    FindingView {
        entity: entity_tag(c.entity_type),
        span: Span::made(c.start, c.end),
        confidence: Confidence::made(confidence_check(c.score)->Ok_0),
        recognizer: None,
        recognizer_version: None,
        evidence: candidate_evidence(c),
        locale: None,
        document,
    }
}

/// The issues a raw candidate raises: an invalid span or confidence drops it; an
/// invalid pattern name only drops its pattern evidence.
pub open spec fn candidate_issues(text: &str, c: RawCandidate) -> Seq<AnalysisIssue> {
    if emitted_span_check(text, c.start, c.end) is Err {
        seq![
            AnalysisIssue::InvalidSpan {
                recognizer_index: c.recognizer_index,
                pattern_index: c.pattern_index,
                start: c.start,
                end: c.end,
            },
        ]
    } else if confidence_check(c.score) is Err {
        seq![
            AnalysisIssue::InvalidConfidence {
                recognizer_index: c.recognizer_index,
                pattern_index: c.pattern_index,
                value: c.score,
            },
        ]
    } else if !valid_identifier(c.pattern_name@) {
        seq![
            AnalysisIssue::InvalidPatternMetadata {
                recognizer_index: c.recognizer_index,
                pattern_index: c.pattern_index,
            },
        ]
    } else {
        Seq::empty()
    }
}

/// The findings of the first `k` raw candidates, in candidate order.
pub open spec fn report_findings(
    text: &str,
    cs: Seq<RawCandidate>,
    document: Option<BindingView>,
    k: int,
) -> Seq<FindingView>
    decreases k,
{
    if k <= 0 {
        Seq::empty()
    } else if candidate_valid(text, cs[k - 1]) {
        report_findings(text, cs, document, k - 1).push(candidate_finding(cs[k - 1], document))
    } else {
        report_findings(text, cs, document, k - 1)
    }
}

/// The issues of the first `k` raw candidates, in candidate order.
pub open spec fn report_issues(text: &str, cs: Seq<RawCandidate>, k: int) -> Seq<AnalysisIssue>
    decreases k,
{
    if k <= 0 {
        Seq::empty()
    } else {
        report_issues(text, cs, k - 1) + candidate_issues(text, cs[k - 1])
    }
}

/// Order of findings by span: start, then end.
pub open spec fn span_order() -> spec_fn(FindingView, FindingView) -> Order {
    |a: FindingView, b: FindingView|
        then(
            compare_int(a.span.spec_start() as int, b.span.spec_start() as int),
            compare_int(a.span.spec_end() as int, b.span.spec_end() as int),
        )
}

/// What a report built from the raw candidates `raw` of a text holds, when collection
/// found `total` candidates in all.
pub open spec fn report_built(
    rep: AnalysisReportView,
    text: &str,
    raw: Seq<RawCandidate>,
    total: nat,
    threshold: u32,
    options: AnalysisOptions,
    document: Option<BindingView>,
) -> bool {
    let issues = report_issues(text, raw, raw.len() as int);
    &&& rep.engine_version == ENGINE_VERSION@
    &&& rep.document == document
    &&& rep.candidates == stable_sort(
        report_findings(text, raw, document, raw.len() as int),
        span_order(),
    )
    &&& rep.recognizers.len() == 0
    &&& rep.legacy_compatible_results == legacy_projection(raw, threshold)
    &&& rep.issues == bounded(issues, options.spec_max_issues())
    &&& rep.status.spec_candidate_limit_reached() == (total > options.spec_max_candidates())
    &&& rep.status.spec_issue_limit_reached() == (issues.len() > options.spec_max_issues())
}

/// Compare two findings by span.
fn compare_spans(a: &Finding, b: &Finding) -> (r: Order)
    ensures
        r == (span_order())(a@, b@),
{
    let x = a.span();
    let y = b.span();
    if x.start() < y.start() {
        Order::Less
    } else if x.start() > y.start() {
        Order::Greater
    } else if x.end() < y.end() {
        Order::Less
    } else if x.end() == y.end() {
        Order::Equal
    } else {
        Order::Greater
    }
}

/// The first `maximum` raw candidates.
fn take_candidates(v: &[RawCandidate], maximum: usize) -> (r: Vec<RawCandidate>)
    ensures
        r@ == bounded(v@, maximum),
{
    let mut out: Vec<RawCandidate> = Vec::new();
    let mut i: usize = 0;
    while i < v.len() && i < maximum
        invariant
            i <= v@.len(),
            i <= maximum,
            out@ == v@.take(i as int),
        decreases v@.len() - i,
    {
        out.push(v[i]);
        proof {
            assert(out@ =~= v@.take(i + 1));
        }
        i = i + 1;
    }
    proof {
        if v@.len() <= maximum {
            assert(v@.take(v@.len() as int) =~= v@);
        }
    }
    out
}

/// Record an issue while fewer than `maximum` are retained; otherwise note the limit.
fn push_issue(
    issues: &mut Vec<AnalysisIssue>,
    limit_reached: &mut bool,
    maximum: usize,
    issue: AnalysisIssue,
)
    ensures
        old(issues)@.len() < maximum ==> final(issues)@ == old(issues)@.push(issue)
            && *final(limit_reached) == *old(limit_reached),
        old(issues)@.len() >= maximum ==> final(issues)@ == old(issues)@ && *final(limit_reached),
{
    if issues.len() < maximum {
        issues.push(issue);
    } else {
        *limit_reached = true;
    }
}

proof fn lemma_bounded_push<A>(s: Seq<A>, x: A, m: usize)
    ensures
        s.len() < m ==> bounded(s.push(x), m) == bounded(s, m).push(x),
        s.len() >= m ==> bounded(s.push(x), m) == bounded(s, m),
        bounded(s, m).len() == if s.len() <= m { s.len() } else { m as nat },
{
    if s.len() < m {
        assert(bounded(s.push(x), m) =~= bounded(s, m).push(x));
    } else if s.len() == m {
        assert(bounded(s.push(x), m) =~= s.push(x).take(m as int));
        assert(s.push(x).take(m as int) =~= s);
    } else {
        assert(bounded(s.push(x), m) =~= s.push(x).take(m as int));
        assert(s.push(x).take(m as int) =~= s.take(m as int));
    }
}

/// The binding view of an optional borrowed binding.
pub open spec fn ref_binding_view(b: Option<&DocumentBinding>) -> Option<BindingView> {
    match b {
        Some(x) => Some(x@),
        None => None,
    }
}

/// Build the finding of a valid raw candidate.
fn make_finding(
    c: &RawCandidate,
    span: Span,
    confidence: Confidence,
    issues: &mut Vec<AnalysisIssue>,
    limit_reached: &mut bool,
    maximum: usize,
    document: Option<&DocumentBinding>,
) -> (r: Finding)
    requires
        span == Span::made(c.start, c.end),
        confidence.spec_bits() == confidence_check(c.score)->Ok_0,
    ensures
        r@ == candidate_finding(*c, ref_binding_view(document)),
        valid_identifier(c.pattern_name@) ==> final(issues)@ == old(issues)@ && *final(limit_reached)
            == *old(limit_reached),
        !valid_identifier(c.pattern_name@) ==> ({
            let issue = AnalysisIssue::InvalidPatternMetadata {
                recognizer_index: c.recognizer_index,
                pattern_index: c.pattern_index,
            };
            &&& old(issues)@.len() < maximum ==> final(issues)@ == old(issues)@.push(issue)
                && *final(limit_reached) == *old(limit_reached)
            &&& old(issues)@.len() >= maximum ==> final(issues)@ == old(issues)@
                && *final(limit_reached)
        }),
{
    let mut evidence: Vec<Evidence> = Vec::new();
    match MetadataId::new(c.pattern_name) {
        Ok(pattern_id) => evidence.push(Evidence::Pattern { pattern_id }),
        Err(_) => push_issue(
            issues,
            limit_reached,
            maximum,
            AnalysisIssue::InvalidPatternMetadata {
                recognizer_index: c.recognizer_index,
                pattern_index: c.pattern_index,
            },
        ),
    }
    if c.validator_accepted {
        evidence.push(Evidence::LegacyValidatorAccepted);
    }
    proof {
        assert(crate::finding::evidence_views(evidence@) =~= candidate_evidence(*c));
    }
    let f = Finding::new(EntityId::from_entity_type(c.entity_type), span, confidence).with_evidence(
        evidence,
    );
    proof {
        assert(f@.evidence =~= candidate_evidence(*c));
    }
    match document {
        Some(b) => f.with_document_binding(b.clone()),
        None => f,
    }
}

/// Abstract content of an [`AnalyzerEngine`].
pub struct AnalyzerView {
    pub registry: RegistryView,
    pub score_threshold: u32,
}

/// Runs a [`RecognizerRegistry`] over text and returns scored PII spans.
pub struct AnalyzerEngine {
    registry: RecognizerRegistry,
    score_threshold: u32,
}

impl View for AnalyzerEngine {
    type V = AnalyzerView;

    closed spec fn view(&self) -> AnalyzerView {
        AnalyzerView { registry: self.registry@, score_threshold: self.score_threshold }
    }
}

impl AnalyzerEngine {
    /// Build an engine with the built-in recognizers and the default threshold.
    pub fn new() -> (r: AnalyzerEngine)
        ensures
            r@.registry.recognizers.len() == crate::registry::BUILTIN_RECOGNIZER_COUNT,
            forall|i: int|
                0 <= i < crate::registry::BUILTIN_RECOGNIZER_COUNT ==> crate::registry::builtin_recognizer(
                    #[trigger] r@.registry.recognizers[i],
                    i,
                ),
            r@.score_threshold == DEFAULT_SCORE_THRESHOLD,
    {
        AnalyzerEngine {
            registry: RecognizerRegistry::with_predefined(),
            score_threshold: DEFAULT_SCORE_THRESHOLD,
        }
    }

    /// Build an engine over a caller-supplied registry.
    pub fn with_registry(registry: RecognizerRegistry) -> (r: AnalyzerEngine)
        ensures
            r@ == (AnalyzerView { registry: registry@, score_threshold: DEFAULT_SCORE_THRESHOLD }),
    {
        AnalyzerEngine { registry, score_threshold: DEFAULT_SCORE_THRESHOLD }
    }

    /// Override the score threshold (builder style); `threshold` is the bit pattern of
    /// a 32-bit float.
    pub fn with_threshold(self, threshold: u32) -> (r: AnalyzerEngine)
        ensures
            r@ == (AnalyzerView { score_threshold: threshold, ..self@ }),
    {
        AnalyzerEngine { registry: self.registry, score_threshold: threshold }
    }

    /// The registry this engine runs.
    pub fn registry(&self) -> (r: &RecognizerRegistry)
        ensures
            r@ == self@.registry,
    {
        &self.registry
    }

    /// Mutable access to the registry, to register custom recognizers in place.
    pub fn registry_mut(&mut self) -> (r: &mut RecognizerRegistry)
        ensures
            r@ == old(self)@.registry,
            final(self)@.registry == final(r)@,
            final(self)@.score_threshold == old(self)@.score_threshold,
    {
        &mut self.registry
    }

    /// Register an additional custom recognizer.
    pub fn add_recognizer(&mut self, recognizer: PatternRecognizer)
        ensures
            final(self)@.score_threshold == old(self)@.score_threshold,
            final(self)@.registry.recognizers == old(self)@.registry.recognizers.push(recognizer),
            final(self)@.registry.metadata == old(self)@.registry.metadata.push(
                crate::registry::generated_registration(
                    recognizer.entity_type,
                    old(self)@.registry.recognizers.len(),
                ),
            ),
    {
        self.registry.add(recognizer);
    }

    /// Detect PII in `text`. When `entities` is `Some`, only those entity types are
    /// scanned for; `None` scans for all.
    pub fn analyze(&self, text: &str, entities: Option<&[EntityType]>) -> (r: Vec<RecognizerResult>)
        ensures
            r@ == legacy_projection(
                all_candidates(text@, self@.registry.recognizers, filter_view(entities)),
                self@.score_threshold,
            ),
            crate::laws::spans_in_sequence(r@),
            forall|i: int| 0 <= i < r@.len() ==> filter_allows(filter_view(entities), (#[trigger] r@[i]).entity_type),
    {
        let candidates = collect_raw_candidates(&self.registry, text, entities);
        proof {
            crate::laws::law_legacy_results_in_sequence(candidates@, self.score_threshold);
            crate::laws::law_filtered_analysis_reports_only_requested_entities(
                text@,
                self@.registry.recognizers,
                filter_view(entities),
                self.score_threshold,
            );
        }
        project_legacy_results(candidates.as_slice(), self.score_threshold)
    }
}

impl Default for AnalyzerEngine {
    /// An engine with the built-in recognizers and the default threshold.
    fn default() -> (r: AnalyzerEngine)
        ensures
            r@.registry.recognizers.len() == crate::registry::BUILTIN_RECOGNIZER_COUNT,
            forall|i: int|
                0 <= i < crate::registry::BUILTIN_RECOGNIZER_COUNT ==> crate::registry::builtin_recognizer(
                    #[trigger] r@.registry.recognizers[i],
                    i,
                ),
            r@.score_threshold == DEFAULT_SCORE_THRESHOLD,
    {
        AnalyzerEngine::new()
    }
}

/// Insert a finding after every finding that does not follow it in span order.
fn insert_by_span(findings: &mut Vec<Finding>, f: Finding)
    ensures
        finding_views(final(findings)@) == crate::order::insert_stable(
            finding_views(old(findings)@),
            f@,
            span_order(),
        ),
{
    let ghost sorted = finding_views(findings@);
    let ghost order = span_order();
    let mut j: usize = 0;
    while j < findings.len() && compare_spans(&findings[j], &f) != Order::Greater
        invariant
            j <= findings@.len(),
            sorted == finding_views(findings@),
            order == span_order(),
            crate::order::first_greater_from(sorted, f@, order, 0)
                == crate::order::first_greater_from(sorted, f@, order, j as int),
        decreases findings@.len() - j,
    {
        proof {
            assert(sorted[j as int] == findings@[j as int]@);
        }
        j = j + 1;
    }
    proof {
        if j < findings@.len() {
            assert(sorted[j as int] == findings@[j as int]@);
        }
    }
    let ghost fv = f@;
    findings.insert(j, f);
    proof {
        assert(finding_views(findings@) =~= sorted.insert(j as int, fv));
    }
}

impl AnalyzerEngine {
    /// Build a report from the raw candidates of `text`, at most `options`' candidate
    /// limit of them, bound to `document` when one is given.
    fn build_report(
        &self,
        text: &str,
        entities: Option<&[EntityType]>,
        options: AnalysisOptions,
        document: Option<&DocumentBinding>,
    ) -> (r: AnalysisReport)
        ensures
            ({
                let all = all_candidates(text@, self@.registry.recognizers, filter_view(entities));
                report_built(
                    r@,
                    text,
                    bounded(all, options.spec_max_candidates()),
                    all.len(),
                    self@.score_threshold,
                    options,
                    ref_binding_view(document),
                )
            }),
            crate::laws::spans_in_sequence(r@.legacy_compatible_results),
            r@.candidates.len() <= options.spec_max_candidates(),
            crate::order::sorted_by(r@.candidates, span_order()),
            forall|i: int|
                0 <= i < r@.candidates.len() ==> crate::recognition::emitted_span_check(
                    text,
                    (#[trigger] r@.candidates[i]).span.spec_start(),
                    r@.candidates[i].span.spec_end(),
                ) is Ok,
            r@.issues.len() <= options.spec_max_issues(),
            !r@.status.spec_candidate_limit_reached() ==> r@.legacy_compatible_results == legacy_projection(
                all_candidates(text@, self@.registry.recognizers, filter_view(entities)),
                self@.score_threshold,
            ),
            forall|i: int|
                0 <= i < r@.candidates.len() ==> crate::laws::entity_requested(
                    filter_view(entities),
                    (#[trigger] r@.candidates[i]).entity,
                ),
            forall|i: int|
                0 <= i < r@.legacy_compatible_results.len() ==> filter_allows(
                    filter_view(entities),
                    (#[trigger] r@.legacy_compatible_results[i]).entity_type,
                ),
    {
        let all = collect_raw_candidates(&self.registry, text, entities);
        let max_issues = options.max_issues();
        let raw = take_candidates(all.as_slice(), options.max_candidates());
        proof {
            crate::laws::law_legacy_results_in_sequence(raw@, self.score_threshold);
        }
        let legacy = project_legacy_results(raw.as_slice(), self.score_threshold);
        let ghost doc = ref_binding_view(document);
        let mut findings: Vec<Finding> = Vec::new();
        let mut issues: Vec<AnalysisIssue> = Vec::new();
        let mut issue_limit_reached = false;
        let mut i: usize = 0;
        while i < raw.len()
            invariant
                i <= raw@.len(),
                doc == ref_binding_view(document),
                max_issues == options.spec_max_issues(),
                finding_views(findings@) == stable_sort(
                    report_findings(text, raw@, doc, i as int),
                    span_order(),
                ),
                issues@ == bounded(report_issues(text, raw@, i as int), max_issues),
                issue_limit_reached == (report_issues(text, raw@, i as int).len() > max_issues),
            decreases raw@.len() - i,
        {
            let c = raw[i];
            let ghost before = report_issues(text, raw@, i as int);
            proof {
                lemma_bounded_push(
                    before,
                    AnalysisIssue::InvalidSpan {
                        recognizer_index: c.recognizer_index,
                        pattern_index: c.pattern_index,
                        start: c.start,
                        end: c.end,
                    },
                    max_issues,
                );
                lemma_bounded_push(
                    before,
                    AnalysisIssue::InvalidConfidence {
                        recognizer_index: c.recognizer_index,
                        pattern_index: c.pattern_index,
                        value: c.score,
                    },
                    max_issues,
                );
                lemma_bounded_push(
                    before,
                    AnalysisIssue::InvalidPatternMetadata {
                        recognizer_index: c.recognizer_index,
                        pattern_index: c.pattern_index,
                    },
                    max_issues,
                );
                assert(raw@[i as int] == c);
            }
            match Span::new_for(text, c.start, c.end) {
                Err(_) => {
                    push_issue(
                        &mut issues,
                        &mut issue_limit_reached,
                        max_issues,
                        AnalysisIssue::InvalidSpan {
                            recognizer_index: c.recognizer_index,
                            pattern_index: c.pattern_index,
                            start: c.start,
                            end: c.end,
                        },
                    );
                    proof {
                        assert(report_issues(text, raw@, i + 1) =~= before.push(
                            AnalysisIssue::InvalidSpan {
                                recognizer_index: c.recognizer_index,
                                pattern_index: c.pattern_index,
                                start: c.start,
                                end: c.end,
                            },
                        ));
                    }
                },
                Ok(span) => match Confidence::from_bits(c.score) {
                    Err(_) => {
                        push_issue(
                            &mut issues,
                            &mut issue_limit_reached,
                            max_issues,
                            AnalysisIssue::InvalidConfidence {
                                recognizer_index: c.recognizer_index,
                                pattern_index: c.pattern_index,
                                value: c.score,
                            },
                        );
                        proof {
                            assert(report_issues(text, raw@, i + 1) =~= before.push(
                                AnalysisIssue::InvalidConfidence {
                                    recognizer_index: c.recognizer_index,
                                    pattern_index: c.pattern_index,
                                    value: c.score,
                                },
                            ));
                        }
                    },
                    Ok(confidence) => {
                        proof {
                            span.lemma_made();
                        }
                        let f = make_finding(
                            &c,
                            span,
                            confidence,
                            &mut issues,
                            &mut issue_limit_reached,
                            max_issues,
                            document,
                        );
                        let ghost sorted = finding_views(findings@);
                        insert_by_span(&mut findings, f);
                        proof {
                            let fs = report_findings(text, raw@, doc, i as int);
                            assert(report_findings(text, raw@, doc, i + 1) == fs.push(
                                candidate_finding(c, doc),
                            ));
                            crate::order::lemma_stable_sort_push(
                                fs,
                                candidate_finding(c, doc),
                                span_order(),
                            );
                            if valid_identifier(c.pattern_name@) {
                                assert(report_issues(text, raw@, i + 1) =~= before);
                            } else {
                                assert(report_issues(text, raw@, i + 1) =~= before.push(
                                    AnalysisIssue::InvalidPatternMetadata {
                                        recognizer_index: c.recognizer_index,
                                        pattern_index: c.pattern_index,
                                    },
                                ));
                            }
                        }
                    },
                },
            }
            i = i + 1;
        }
        let recognizers: Vec<RecognizerMetadata> = Vec::new();
        proof {
            assert(metadata_views(recognizers@).len() == 0);
        }
        let bound = match document {
            Some(b) => Some(b.clone()),
            None => None,
        };
        let report = AnalysisReport::new(
            ENGINE_VERSION,
            bound,
            findings,
            recognizers,
            legacy,
            issues,
            AnalysisStatus::new(all.len() > options.max_candidates(), issue_limit_reached),
        );
        proof {
            crate::laws::law_report_within_limits(
                report@,
                text,
                all@,
                self@.score_threshold,
                options,
                ref_binding_view(document),
            );
            crate::laws::law_filtered_report_holds_only_requested_entities(
                report@,
                text,
                self@.registry.recognizers,
                filter_view(entities),
                options.spec_max_candidates(),
                self@.score_threshold,
                options,
                ref_binding_view(document),
            );
        }
        report
    }

    /// Analyze text while preserving validated candidates before the legacy policy,
    /// with the default report limits.
    pub fn analyze_report(&self, text: &str, entities: Option<&[EntityType]>) -> (r: AnalysisReport)
        ensures
            ({
                let all = all_candidates(text@, self@.registry.recognizers, filter_view(entities));
                report_built(
                    r@,
                    text,
                    bounded(all, crate::report::DEFAULT_REPORT_CANDIDATE_LIMIT),
                    all.len(),
                    self@.score_threshold,
                    AnalysisOptions::default_spec(),
                    None,
                )
            }),
            crate::laws::spans_in_sequence(r@.legacy_compatible_results),
            r@.candidates.len() <= crate::report::DEFAULT_REPORT_CANDIDATE_LIMIT,
            crate::order::sorted_by(r@.candidates, span_order()),
            forall|i: int|
                0 <= i < r@.candidates.len() ==> crate::recognition::emitted_span_check(
                    text,
                    (#[trigger] r@.candidates[i]).span.spec_start(),
                    r@.candidates[i].span.spec_end(),
                ) is Ok,
            r@.issues.len() <= crate::report::DEFAULT_REPORT_ISSUE_LIMIT,
            !r@.status.spec_candidate_limit_reached() ==> r@.legacy_compatible_results == legacy_projection(
                all_candidates(text@, self@.registry.recognizers, filter_view(entities)),
                self@.score_threshold,
            ),
            forall|i: int|
                0 <= i < r@.candidates.len() ==> crate::laws::entity_requested(
                    filter_view(entities),
                    (#[trigger] r@.candidates[i]).entity,
                ),
            forall|i: int|
                0 <= i < r@.legacy_compatible_results.len() ==> filter_allows(
                    filter_view(entities),
                    (#[trigger] r@.legacy_compatible_results[i]).entity_type,
                ),
    {
        self.analyze_report_with_options(text, entities, AnalysisOptions::default())
    }

    /// Analyze text with explicit report resource limits.
    ///
    /// At most the candidate limit of raw candidates is processed, in recognizer,
    /// pattern and match order; the report notes when more were found. Candidates with
    /// an invalid span or confidence become issues; at most the issue limit of issues is
    /// kept, and the report notes when more arose.
    pub fn analyze_report_with_options(
        &self,
        text: &str,
        entities: Option<&[EntityType]>,
        options: AnalysisOptions,
    ) -> (r: AnalysisReport)
        ensures
            ({
                let all = all_candidates(text@, self@.registry.recognizers, filter_view(entities));
                report_built(
                    r@,
                    text,
                    bounded(all, options.spec_max_candidates()),
                    all.len(),
                    self@.score_threshold,
                    options,
                    None,
                )
            }),
            crate::laws::spans_in_sequence(r@.legacy_compatible_results),
            r@.candidates.len() <= options.spec_max_candidates(),
            crate::order::sorted_by(r@.candidates, span_order()),
            forall|i: int|
                0 <= i < r@.candidates.len() ==> crate::recognition::emitted_span_check(
                    text,
                    (#[trigger] r@.candidates[i]).span.spec_start(),
                    r@.candidates[i].span.spec_end(),
                ) is Ok,
            r@.issues.len() <= options.spec_max_issues(),
            !r@.status.spec_candidate_limit_reached() ==> r@.legacy_compatible_results == legacy_projection(
                all_candidates(text@, self@.registry.recognizers, filter_view(entities)),
                self@.score_threshold,
            ),
            forall|i: int|
                0 <= i < r@.candidates.len() ==> crate::laws::entity_requested(
                    filter_view(entities),
                    (#[trigger] r@.candidates[i]).entity,
                ),
            forall|i: int|
                0 <= i < r@.legacy_compatible_results.len() ==> filter_allows(
                    filter_view(entities),
                    (#[trigger] r@.legacy_compatible_results[i]).entity_type,
                ),
    {
        self.build_report(text, entities, options, None)
    }

    /// Analyze a document with explicit report limits: the report and its candidates
    /// are bound to the document's exact source.
    pub fn analyze_document_with_options(
        &self,
        document: &TextDocument<'_>,
        entities: Option<&[EntityType]>,
        options: AnalysisOptions,
    ) -> (r: AnalysisReport)
        ensures
            ({
                let text = document.spec_original();
                let all = all_candidates(text@, self@.registry.recognizers, filter_view(entities));
                report_built(
                    r@,
                    text,
                    bounded(all, options.spec_max_candidates()),
                    all.len(),
                    self@.score_threshold,
                    options,
                    Some(document.binding_view()),
                )
            }),
            crate::laws::spans_in_sequence(r@.legacy_compatible_results),
            r@.candidates.len() <= options.spec_max_candidates(),
            crate::order::sorted_by(r@.candidates, span_order()),
            forall|i: int|
                0 <= i < r@.candidates.len() ==> crate::recognition::emitted_span_check(
                    document.spec_original(),
                    (#[trigger] r@.candidates[i]).span.spec_start(),
                    r@.candidates[i].span.spec_end(),
                ) is Ok,
            r@.issues.len() <= options.spec_max_issues(),
            !r@.status.spec_candidate_limit_reached() ==> r@.legacy_compatible_results == legacy_projection(
                all_candidates(document.spec_original()@, self@.registry.recognizers, filter_view(entities)),
                self@.score_threshold,
            ),
            forall|i: int|
                0 <= i < r@.candidates.len() ==> crate::laws::entity_requested(
                    filter_view(entities),
                    (#[trigger] r@.candidates[i]).entity,
                ),
            forall|i: int|
                0 <= i < r@.legacy_compatible_results.len() ==> filter_allows(
                    filter_view(entities),
                    (#[trigger] r@.legacy_compatible_results[i]).entity_type,
                ),
    {
        let text = document.original();
        self.build_report(text, entities, options, Some(document.binding()))
    }

    /// Analyze a document: the report and its candidates are bound to the document's
    /// exact source.
    pub fn analyze_document(&self, document: &TextDocument<'_>, entities: Option<&[EntityType]>) -> (r:
        AnalysisReport)
        ensures
            ({
                let text = document.spec_original();
                let all = all_candidates(text@, self@.registry.recognizers, filter_view(entities));
                report_built(
                    r@,
                    text,
                    bounded(all, crate::report::DEFAULT_REPORT_CANDIDATE_LIMIT),
                    all.len(),
                    self@.score_threshold,
                    AnalysisOptions::default_spec(),
                    Some(document.binding_view()),
                )
            }),
            crate::laws::spans_in_sequence(r@.legacy_compatible_results),
            r@.candidates.len() <= crate::report::DEFAULT_REPORT_CANDIDATE_LIMIT,
            crate::order::sorted_by(r@.candidates, span_order()),
            forall|i: int|
                0 <= i < r@.candidates.len() ==> crate::recognition::emitted_span_check(
                    document.spec_original(),
                    (#[trigger] r@.candidates[i]).span.spec_start(),
                    r@.candidates[i].span.spec_end(),
                ) is Ok,
            r@.issues.len() <= crate::report::DEFAULT_REPORT_ISSUE_LIMIT,
            !r@.status.spec_candidate_limit_reached() ==> r@.legacy_compatible_results == legacy_projection(
                all_candidates(document.spec_original()@, self@.registry.recognizers, filter_view(entities)),
                self@.score_threshold,
            ),
            forall|i: int|
                0 <= i < r@.candidates.len() ==> crate::laws::entity_requested(
                    filter_view(entities),
                    (#[trigger] r@.candidates[i]).entity,
                ),
            forall|i: int|
                0 <= i < r@.legacy_compatible_results.len() ==> filter_allows(
                    filter_view(entities),
                    (#[trigger] r@.legacy_compatible_results[i]).entity_type,
                ),
    {
        let text = document.original();
        self.build_report(text, entities, AnalysisOptions::default(), Some(document.binding()))
    }
}

} // verus!
