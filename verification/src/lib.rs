//! Offline PII detection and anonymization core.
mod adapter;
mod analyzer;
mod anonymizer;
mod canonical;
pub mod context;
mod document;
mod entity;
mod finding;
mod ids;
pub mod laws;
mod messages;
mod metadata;
pub mod order;
mod preorder;
mod recognition;
mod recognizer;
mod registry;
mod report;
mod report_resolution;
mod request;
mod reorder;
mod resolution;
mod result;
pub mod score;
mod text;
mod types;
pub mod validators;

pub use adapter::PatternRecognizerAdapter;
pub use analyzer::{AnalyzerEngine, DEFAULT_SCORE_THRESHOLD};
pub use anonymizer::{anonymize, AnonymizerEngine, Operator};
pub use document::{
    DocumentBinding, DocumentBindingError, DocumentFingerprint, FindingDocumentError, TextDocument,
};
pub use entity::EntityType;
pub use metadata::{RecognitionMechanism, RecognizerMetadata, RecognizerMetadataError};
pub use finding::{Evidence, Finding, ENGINE_VERSION};
pub use recognition::{
    CandidateEmissionError, CandidateEmitter, EmissionStatus, RecognitionError,
    RecognitionErrorKind, Recognizer,
};
pub use recognizer::{Pattern, PatternRecognizer, RecognizerMetadata as RegistrationMetadata, Validator};
pub use registry::{RecognizerRegistry, RegistryError};
pub use report::{
    AnalysisIssue, AnalysisOptions, AnalysisReport, AnalysisStatus, ReportDocumentError,
    DEFAULT_REPORT_CANDIDATE_LIMIT, DEFAULT_REPORT_ISSUE_LIMIT,
};
pub use report_resolution::{AnalysisResolutionError, ResolvedAnalysisReport};
pub use request::{
    AnalysisExecutionError, AnalysisRequest, AnalysisRequestError, LimitDimension,
    DEFAULT_ANALYSIS_INPUT_LIMIT,
};
pub use resolution::{
    resolve_candidates, ResolutionDecision, ResolutionReport, ResolutionError, ResolutionOptions, ResolutionPolicy, ResolutionStatus,
    ResolvedEntity, ResolvedFinding, DEFAULT_RESOLUTION_CANDIDATE_LIMIT,
    DEFAULT_RESOLUTION_DECISION_LIMIT, DEFAULT_RESOLUTION_OUTPUT_LIMIT, RESOLUTION_POLICY_VERSION_V1,
};
pub use result::{FindingConversionError, RecognizerResult};
pub use types::{
    Confidence, ConfidenceError, DocumentId, EntityId, IdentifierError, MetadataId, RecognizerId,
    Span, SpanError,
};
