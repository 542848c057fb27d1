//! Legacy detection results.
use vstd::prelude::*;

use crate::entity::{entity_tag, EntityType};
use crate::finding::{EvidenceView, Evidence, Finding, FindingView, ENGINE_VERSION};
use crate::text::is_blank;
use crate::types::{
    confidence_check, Confidence, ConfidenceError, EntityId, RecognizerId, Span, SpanError,
};

verus! {

/// A detected PII span: `text[start..end]` is the matched substring and
/// `score` is the bit pattern of the 32-bit float confidence.
#[derive(Debug, Clone, Copy, PartialEq, Eq)]
pub struct RecognizerResult {
    pub entity_type: EntityType,
    pub start: usize,
    pub end: usize,
    pub score: u32,
}

impl RecognizerResult {
    pub fn new(entity_type: EntityType, start: usize, end: usize, score: u32) -> (r: Self)
        ensures
            r == (RecognizerResult { entity_type, start, end, score }),
    {
        RecognizerResult { entity_type, start, end, score }
    }
}

/// Failure to convert a legacy result into a validated [`Finding`].
#[derive(Debug, Clone, PartialEq, Eq)]
pub enum FindingConversionError {
    /// The legacy span is invalid.
    Span(SpanError),
    /// The legacy score is invalid.
    Confidence(ConfidenceError),
}

impl From<SpanError> for FindingConversionError {
    fn from(value: SpanError) -> (r: FindingConversionError) {
        FindingConversionError::Span(value)
    }
}

impl vstd::std_specs::convert::FromSpecImpl<SpanError> for FindingConversionError {
    open spec fn obeys_from_spec() -> bool {
        true
    }

    open spec fn from_spec(v: SpanError) -> FindingConversionError {
        FindingConversionError::Span(v)
    }
}

impl From<ConfidenceError> for FindingConversionError {
    fn from(value: ConfidenceError) -> (r: FindingConversionError) {
        FindingConversionError::Confidence(value)
    }
}

impl vstd::std_specs::convert::FromSpecImpl<ConfidenceError> for FindingConversionError {
    open spec fn obeys_from_spec() -> bool {
        true
    }

    open spec fn from_spec(v: ConfidenceError) -> FindingConversionError {
        FindingConversionError::Confidence(v)
    }
}

/// Identifier recorded as the recognizer of converted legacy results.
pub open spec fn legacy_recognizer_id() -> Seq<char> {
    seq!['l', 'e', 'g', 'a', 'c', 'y', '.', 'p', 'a', 't', 't', 'e', 'r', 'n']
}

impl Finding {
    /// Convert a legacy result into a validated finding: the span must be
    /// non-empty and ordered and the score a confidence in `0.0..=1.0`.
    pub fn from_legacy(value: &RecognizerResult) -> (r: Result<Finding, FindingConversionError>)
        ensures
            value.start > value.end ==> r == Err::<Finding, FindingConversionError>(
                FindingConversionError::Span(
                    SpanError::Reversed { start: value.start, end: value.end },
                ),
            ),
            value.start == value.end ==> r == Err::<Finding, FindingConversionError>(
                FindingConversionError::Span(SpanError::Empty { offset: value.start }),
            ),
            value.start < value.end ==> (confidence_check(value.score) matches Err(e) ==> r
                == Err::<Finding, FindingConversionError>(FindingConversionError::Confidence(e))),
            value.start < value.end && confidence_check(value.score) is Ok ==> (r matches Ok(f)
                && f@.entity == entity_tag(value.entity_type) && f@.span.spec_start()
                == value.start && f@.span.spec_end() == value.end && f@.confidence.spec_bits()
                == confidence_check(value.score)->Ok_0 && f@.recognizer == Some(
                legacy_recognizer_id(),
            ) && f@.recognizer_version == Some(ENGINE_VERSION@) && f@.evidence == seq![
                EvidenceView::LegacyResult,
            ] && f@.locale is None && f@.document is None),
    {
        let entity = EntityId::from_entity_type(value.entity_type);
        let span = match Span::new(value.start, value.end) {
            Ok(s) => s,
            Err(e) => return Err(FindingConversionError::Span(e)),
        };
        let confidence = match Confidence::from_bits(value.score) {
            Ok(c) => c,
            Err(e) => return Err(FindingConversionError::Confidence(e)),
        };
        proof {
            reveal_strlit("legacy.pattern");
            assert("legacy.pattern"@ =~= legacy_recognizer_id());
            reveal_with_fuel(crate::types::first_disallowed_from, 16);
            assert(vstd::utf8::is_ascii_chars(legacy_recognizer_id()));
            vstd::utf8::is_ascii_chars_encode_utf8(legacy_recognizer_id());
            reveal_strlit("0.1.0");
            assert(!is_blank(ENGINE_VERSION@)) by {
                assert(ENGINE_VERSION@[0] == '0');
            }
        }
        let recognizer = RecognizerId::new("legacy.pattern").unwrap();
        let mut evidence: Vec<Evidence> = Vec::new();
        evidence.push(Evidence::LegacyResult);
        let f = Finding::new(entity, span, confidence).with_recognizer(recognizer)
            .with_recognizer_version(ENGINE_VERSION).with_evidence(evidence);
        proof {
            assert(f@.evidence =~= seq![EvidenceView::LegacyResult]);
            confidence.lemma_number(confidence);
        }
        Ok(f)
    }
}

impl<'a> TryFrom<&'a RecognizerResult> for Finding {
    type Error = FindingConversionError;

    /// Convert a legacy result into a validated finding, as [`Finding::from_legacy`] does.
    fn try_from(value: &'a RecognizerResult) -> (r: Result<Finding, FindingConversionError>)
        ensures
            value.start > value.end ==> r == Err::<Finding, FindingConversionError>(
                FindingConversionError::Span(
                    SpanError::Reversed { start: value.start, end: value.end },
                ),
            ),
            value.start == value.end ==> r == Err::<Finding, FindingConversionError>(
                FindingConversionError::Span(SpanError::Empty { offset: value.start }),
            ),
            value.start < value.end ==> (confidence_check(value.score) matches Err(e) ==> r
                == Err::<Finding, FindingConversionError>(FindingConversionError::Confidence(e))),
            value.start < value.end && confidence_check(value.score) is Ok ==> (r matches Ok(f)
                && f@.entity == entity_tag(value.entity_type) && f@.span.spec_start()
                == value.start && f@.span.spec_end() == value.end && f@.confidence.spec_bits()
                == confidence_check(value.score)->Ok_0 && f@.recognizer == Some(
                legacy_recognizer_id(),
            ) && f@.recognizer_version == Some(ENGINE_VERSION@) && f@.evidence == seq![
                EvidenceView::LegacyResult,
            ] && f@.locale is None && f@.document is None),
    {
        Finding::from_legacy(value)
    }
}

impl<'a> vstd::std_specs::convert::TryFromSpecImpl<&'a RecognizerResult> for Finding {
    /// What the conversion gives is stated by `try_from` itself; findings hold
    /// identifiers that are compared by their text, so no single value stands for it.
    open spec fn obeys_try_from_spec() -> bool {
        false
    }

    open spec fn try_from_spec(v: &'a RecognizerResult) -> Result<Finding, FindingConversionError> {
        arbitrary()
    }
}

} // verus!
