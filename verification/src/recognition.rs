//! Backend-neutral recognizer execution and validated candidate emission.
use vstd::prelude::*;
use vstd::string::*;

use crate::document::{BindingView, DocumentBinding, TextDocument};
use crate::finding::{evidence_views, Evidence, EvidenceView, Finding, FindingView};
use crate::ids::{contains_id, id_views};
use crate::metadata::{MetadataView, RecognizerMetadata};
use crate::request::{request_selects, AnalysisRequest};
use crate::resolution::finding_views;
use crate::types::{
    confidence_check, lemma_valid_identifier, span_check, Confidence, ConfidenceError, EntityId,
    MetadataId, Span, SpanError,
};

verus! {

/// Backend-neutral recognizer interface.
///
/// Implementations receive an exact source document, a validated request, and a
/// candidate emitter that enforces source coordinates, declared entities,
/// confidence bounds, provenance, and candidate limits.
pub trait Recognizer {
    /// The recognizer's metadata, in contracts.
    spec fn metadata_view(&self) -> MetadataView;

    /// Authoritative recognizer metadata.
    fn metadata(&self) -> (r: &RecognizerMetadata)
        ensures
            r@ == self.metadata_view(),
    ;

    /// Whether this recognizer is selected and executable for the request; by
    /// default, whether the request selects the recognizer's metadata.
    fn supports(&self, request: &AnalysisRequest) -> (r: bool)
        default_ensures
            r == request_selects(request@, self.metadata_view()),
    {
        request.selects(self.metadata())
    }

    /// Analyze a document and emit validated candidates.
    fn recognize(
        &self,
        document: &TextDocument<'_>,
        request: &AnalysisRequest,
        emitter: &mut CandidateEmitter<'_, '_>,
    ) -> Result<(), RecognitionError>;
}

/// Abstract state of a [`CandidateEmitter`].
pub struct EmitterView {
    pub binding: BindingView,
    pub metadata: MetadataView,
    pub maximum: usize,
    pub findings: Seq<FindingView>,
    pub limit_reached: bool,
}

/// Validated candidate sink scoped to one recognizer and one exact document.
pub struct CandidateEmitter<'metadata, 'text> {
    text: &'text str,
    binding: DocumentBinding,
    metadata: &'metadata RecognizerMetadata,
    maximum: usize,
    findings: Vec<Finding>,
    limit_reached: bool,
}

impl<'metadata, 'text> View for CandidateEmitter<'metadata, 'text> {
    type V = EmitterView;

    closed spec fn view(&self) -> EmitterView {
        EmitterView {
            binding: self.binding@,
            metadata: self.metadata@,
            maximum: self.maximum,
            findings: finding_views(self.findings@),
            limit_reached: self.limit_reached,
        }
    }
}

/// The outcome of checking `start..end` as a non-empty span of `text`.
pub open spec fn emitted_span_check(text: &str, start: usize, end: usize) -> Result<(), SpanError> {
    if start > end {
        Err(SpanError::Reversed { start, end })
    } else if start == end {
        Err(SpanError::Empty { offset: start })
    } else {
        span_check(text, start, end)
    }
}

/// The finding an emitter records for an accepted candidate.
pub open spec fn emitted_finding(
    e: EmitterView,
    entity: Seq<char>,
    span: Span,
    confidence: Confidence,
    evidence: Seq<EvidenceView>,
) -> FindingView {
    FindingView {
        entity,
        span,
        confidence,
        recognizer: Some(e.metadata.id),
        recognizer_version: None,
        evidence,
        locale: None,
        document: Some(e.binding),
    }
}

/// What one emission attempt answers, without the error values.
pub enum EmitOutcome {
    Accepted,
    LimitReached,
    UndeclaredEntity,
    InvalidSpan,
    InvalidConfidence,
}

/// The emitter state and answer after one emission attempt on state `e`, checking
/// spans against `text`.
pub open spec fn emit_outcome(
    e: EmitterView,
    text: &str,
    entity: Seq<char>,
    start: usize,
    end: usize,
    score: u32,
    evidence: Seq<EvidenceView>,
) -> (EmitterView, EmitOutcome) {
    if e.findings.len() >= e.maximum {
        (EmitterView { limit_reached: true, ..e }, EmitOutcome::LimitReached)
    } else if !e.metadata.supported_entities.contains(entity) {
        (e, EmitOutcome::UndeclaredEntity)
    } else if emitted_span_check(text, start, end) is Err {
        (e, EmitOutcome::InvalidSpan)
    } else if confidence_check(score) is Err {
        (e, EmitOutcome::InvalidConfidence)
    } else {
        (
            EmitterView {
                findings: e.findings.push(
                    emitted_finding(
                        e,
                        entity,
                        Span::made(start, end),
                        Confidence::made(confidence_check(score)->Ok_0),
                        evidence,
                    ),
                ),
                ..e
            },
            EmitOutcome::Accepted,
        )
    }
}

/// The outcome kind of an emission result.
pub open spec fn outcome_of(r: Result<EmissionStatus, CandidateEmissionError>) -> EmitOutcome {
    match r {
        Ok(EmissionStatus::Accepted) => EmitOutcome::Accepted,
        Ok(EmissionStatus::LimitReached) => EmitOutcome::LimitReached,
        Err(CandidateEmissionError::UndeclaredEntity { .. }) => EmitOutcome::UndeclaredEntity,
        Err(CandidateEmissionError::Span(_)) => EmitOutcome::InvalidSpan,
        Err(CandidateEmissionError::Confidence(_)) => EmitOutcome::InvalidConfidence,
    }
}

impl<'metadata, 'text> CandidateEmitter<'metadata, 'text> {
    /// The exact source text candidates are checked against.
    pub closed spec fn spec_text(self) -> &'text str {
        self.text
    }

    /// An emitter for one recognizer over one document, accepting at most `maximum`
    /// candidates.
    pub fn new(
        document: &'text TextDocument<'_>,
        metadata: &'metadata RecognizerMetadata,
        maximum: usize,
    ) -> (r: CandidateEmitter<'metadata, 'text>)
        ensures
            r.spec_text() == document.spec_original(),
            r@ == (EmitterView {
                binding: document.binding_view(),
                metadata: metadata@,
                maximum,
                findings: Seq::empty(),
                limit_reached: false,
            }),
    {
        let findings: Vec<Finding> = Vec::new();
        proof {
            assert(finding_views(findings@) =~= Seq::<FindingView>::empty());
        }
        CandidateEmitter {
            text: document.original(),
            binding: document.binding().clone(),
            metadata,
            maximum,
            findings,
            limit_reached: false,
        }
    }

    /// Emit one candidate using original UTF-8 byte coordinates; `score` is the bit
    /// pattern of the 32-bit float confidence.
    ///
    /// Once the capacity is exhausted every attempt answers `LimitReached` and records
    /// that the limit was reached. Otherwise the entity must be declared by the metadata,
    /// the span non-empty and valid for the source, and the score a confidence.
    pub fn emit(
        &mut self,
        entity: EntityId,
        start: usize,
        end: usize,
        score: u32,
        evidence: Vec<Evidence>,
    ) -> (r: Result<EmissionStatus, CandidateEmissionError>)
        ensures
            final(self).spec_text() == old(self).spec_text(),
            (final(self)@, outcome_of(r)) == emit_outcome(
                old(self)@,
                old(self).spec_text(),
                entity@,
                start,
                end,
                score,
                evidence_views(evidence@),
            ),
            old(self)@.findings.len() >= old(self)@.maximum ==> r == Ok::<
                EmissionStatus,
                CandidateEmissionError,
            >(EmissionStatus::LimitReached) && final(self)@ == (EmitterView {
                limit_reached: true,
                ..old(self)@
            }),
            old(self)@.findings.len() < old(self)@.maximum ==> ({
                let o = old(self)@;
                if !o.metadata.supported_entities.contains(entity@) {
                    &&& r matches Err(CandidateEmissionError::UndeclaredEntity { entity: x })
                    &&& x@ == entity@
                    &&& final(self)@ == o
                } else if emitted_span_check(old(self).spec_text(), start, end) is Err {
                    &&& r == Err::<EmissionStatus, CandidateEmissionError>(
                        CandidateEmissionError::Span(
                            emitted_span_check(old(self).spec_text(), start, end)->Err_0,
                        ),
                    )
                    &&& final(self)@ == o
                } else if confidence_check(score) is Err {
                    &&& r == Err::<EmissionStatus, CandidateEmissionError>(
                        CandidateEmissionError::Confidence(confidence_check(score)->Err_0),
                    )
                    &&& final(self)@ == o
                } else {
                    &&& r == Ok::<EmissionStatus, CandidateEmissionError>(
                        EmissionStatus::Accepted,
                    )
                    &&& final(self)@.binding == o.binding
                    &&& final(self)@.metadata == o.metadata
                    &&& final(self)@.maximum == o.maximum
                    &&& final(self)@.limit_reached == o.limit_reached
                    &&& final(self)@.findings.len() == o.findings.len() + 1
                    &&& final(self)@.findings.drop_last() == o.findings
                    &&& ({
                        let f = final(self)@.findings.last();
                        &&& f.entity == entity@
                        &&& f.span.spec_start() == start
                        &&& f.span.spec_end() == end
                        &&& f.confidence.spec_bits() == confidence_check(score)->Ok_0
                        &&& f == emitted_finding(
                            o,
                            entity@,
                            f.span,
                            f.confidence,
                            evidence_views(evidence@),
                        )
                    })
                }
            }),
    {
        if self.findings.len() >= self.maximum {
            self.limit_reached = true;
            return Ok(EmissionStatus::LimitReached);
        }
        if !contains_id(self.metadata.supported_entities(), &entity) {
            return Err(CandidateEmissionError::UndeclaredEntity { entity });
        }
        let span = match Span::new_for(self.text, start, end) {
            Ok(s) => s,
            Err(e) => return Err(CandidateEmissionError::Span(e)),
        };
        let confidence = match Confidence::from_bits(score) {
            Ok(c) => c,
            Err(e) => return Err(CandidateEmissionError::Confidence(e)),
        };
        let finding = Finding::new(entity, span, confidence).with_recognizer(
            self.metadata.id().clone(),
        ).with_document_binding(self.binding.clone()).with_evidence(evidence);
        let ghost before = self.findings@;
        self.findings.push(finding);
        proof {
            span.lemma_made();
            confidence.lemma_number(confidence);
            assert(finding_views(self.findings@) =~= finding_views(before).push(finding@));
            assert(finding@ == emitted_finding(
                old(self)@,
                entity@,
                Span::made(start, end),
                Confidence::made(confidence_check(score)->Ok_0),
                evidence_views(evidence@),
            ));
            assert(finding_views(self.findings@).drop_last() =~= finding_views(before));
            assert(finding.view().evidence =~= evidence_views(evidence@));
        }
        Ok(EmissionStatus::Accepted)
    }

    /// Remaining candidate capacity for this recognizer invocation.
    pub fn remaining(&self) -> (r: usize)
        ensures
            r == if self@.findings.len() >= self@.maximum {
                0
            } else {
                (self@.maximum - self@.findings.len()) as usize
            },
    {
        if self.findings.len() >= self.maximum {
            0
        } else {
            self.maximum - self.findings.len()
        }
    }

    /// Whether an emission attempt reached the configured candidate limit.
    pub fn limit_reached(&self) -> (r: bool)
        ensures
            r == self@.limit_reached,
    {
        self.limit_reached
    }

    /// The findings accepted so far, in emission order.
    pub fn into_findings(self) -> (r: Vec<Finding>)
        ensures
            finding_views(r@) == self@.findings,
    {
        self.findings
    }
}

/// Outcome of one validated candidate-emission attempt.
#[derive(Debug, Clone, Copy, PartialEq, Eq, Structural)]
pub enum EmissionStatus {
    /// The candidate was accepted.
    Accepted,
    /// The configured candidate capacity was already exhausted.
    LimitReached,
}

/// Candidate data violated the emitter's source or metadata contract.
#[derive(Debug, Clone, PartialEq)]
pub enum CandidateEmissionError {
    /// The recognizer emitted an entity not declared by its metadata.
    UndeclaredEntity { entity: EntityId },
    /// The candidate span was not valid for the exact source document.
    Span(SpanError),
    /// The candidate confidence was non-finite or outside `0.0..=1.0`.
    Confidence(ConfidenceError),
}

/// Stable category of recognizer execution failure.
#[derive(Debug, Clone, Copy, PartialEq, Eq, Structural)]
#[non_exhaustive]
pub enum RecognitionErrorKind {
    /// A candidate violated the validated emission contract.
    InvalidCandidate,
    /// Required backend resources are unavailable.
    BackendUnavailable,
    /// Recognizer configuration is invalid for execution.
    Configuration,
    /// A recognizer-specific resource limit was reached.
    ResourceLimit,
    /// An unexpected recognizer implementation failure occurred.
    Internal,
}

/// Abstract content of a [`RecognitionError`].
pub struct RecognitionErrorView {
    pub kind: RecognitionErrorKind,
    pub code: Seq<char>,
    pub retryable: bool,
}

/// Non-plaintext typed recognizer execution failure.
#[derive(Debug, Clone, PartialEq, Eq)]
pub struct RecognitionError {
    kind: RecognitionErrorKind,
    code: MetadataId,
    retryable: bool,
}

impl View for RecognitionError {
    type V = RecognitionErrorView;

    closed spec fn view(&self) -> RecognitionErrorView {
        RecognitionErrorView { kind: self.kind, code: self.code@, retryable: self.retryable }
    }
}

/// The stable code of a failed emission outcome.
pub open spec fn failure_code(o: EmitOutcome) -> Seq<char> {
    match o {
        EmitOutcome::UndeclaredEntity => seq![
            'c', 'a', 'n', 'd', 'i', 'd', 'a', 't', 'e', '.', 'u', 'n', 'd', 'e', 'c', 'l', 'a',
            'r', 'e', 'd', '-', 'e', 'n', 't', 'i', 't', 'y',
        ],
        EmitOutcome::InvalidSpan => seq![
            'c', 'a', 'n', 'd', 'i', 'd', 'a', 't', 'e', '.', 'i', 'n', 'v', 'a', 'l', 'i', 'd',
            '-', 's', 'p', 'a', 'n',
        ],
        EmitOutcome::InvalidConfidence => seq![
            'c', 'a', 'n', 'd', 'i', 'd', 'a', 't', 'e', '.', 'i', 'n', 'v', 'a', 'l', 'i', 'd',
            '-', 'c', 'o', 'n', 'f', 'i', 'd', 'e', 'n', 'c', 'e',
        ],
        _ => Seq::empty(),
    }
}

/// The stable code of a candidate-emission violation.
pub open spec fn candidate_error_code(error: CandidateEmissionError) -> Seq<char> {
    failure_code(outcome_of(Err(error)))
}

impl RecognitionError {
    /// Construct a typed failure from a stable non-plaintext code.
    pub fn new(kind: RecognitionErrorKind, code: MetadataId, retryable: bool) -> (r: RecognitionError)
        ensures
            r@ == (RecognitionErrorView { kind, code: code@, retryable }),
    {
        RecognitionError { kind, code, retryable }
    }

    /// Convert a candidate-emission violation into a stable recognizer failure.
    pub fn from_candidate(error: &CandidateEmissionError) -> (r: RecognitionError)
        ensures
            r@ == (RecognitionErrorView {
                kind: RecognitionErrorKind::InvalidCandidate,
                code: candidate_error_code(*error),
                retryable: false,
            }),
    {
        let code = match error {
            CandidateEmissionError::UndeclaredEntity { .. } => {
                proof {
                    reveal_strlit("candidate.undeclared-entity");
                    assert("candidate.undeclared-entity"@ =~= candidate_error_code(*error));
                    lemma_valid_identifier("candidate.undeclared-entity"@);
                }
                MetadataId::new("candidate.undeclared-entity").unwrap()
            },
            CandidateEmissionError::Span(_) => {
                proof {
                    reveal_strlit("candidate.invalid-span");
                    assert("candidate.invalid-span"@ =~= candidate_error_code(*error));
                    lemma_valid_identifier("candidate.invalid-span"@);
                }
                MetadataId::new("candidate.invalid-span").unwrap()
            },
            CandidateEmissionError::Confidence(_) => {
                proof {
                    reveal_strlit("candidate.invalid-confidence");
                    assert("candidate.invalid-confidence"@ =~= candidate_error_code(*error));
                    lemma_valid_identifier("candidate.invalid-confidence"@);
                }
                MetadataId::new("candidate.invalid-confidence").unwrap()
            },
        };
        RecognitionError::new(RecognitionErrorKind::InvalidCandidate, code, false)
    }

    /// Failure category.
    pub fn kind(&self) -> (r: RecognitionErrorKind)
        ensures
            r == self@.kind,
    {
        self.kind
    }

    /// Stable non-plaintext error code.
    pub fn code(&self) -> (r: &MetadataId)
        ensures
            r@ == self@.code,
    {
        &self.code
    }

    /// Whether retrying with the same request may be meaningful.
    pub fn retryable(&self) -> (r: bool)
        ensures
            r == self@.retryable,
    {
        self.retryable
    }
}

} // verus!
