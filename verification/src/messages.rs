//! Human-readable messages for the library's errors.
use vstd::prelude::*;
use vstd::string::*;

use crate::document::{DocumentBindingError, FindingDocumentError};
use crate::metadata::RecognizerMetadataError;
use crate::recognition::{RecognitionError, RecognitionErrorKind};
use crate::registry::{decimal_string, decimal_text, RegistryError};
use crate::request::{AnalysisExecutionError, AnalysisRequestError, LimitDimension};
use crate::report::ReportDocumentError;
use crate::report_resolution::AnalysisResolutionError;
use crate::resolution::ResolutionError;
use crate::types::{IdentifierError, SpanError};

verus! {

/// The text `format!("{:?}", c)` gives for a character: the character quoted and
/// escaped as `char::escape_debug` does.
pub uninterp spec fn char_debug_text(c: char) -> Seq<char>;

/// Renders a character with its `Debug` format.
/// Trusted: the result is `char_debug_text(c)`, a function of `c` alone; what the
/// quoting and escaping look like is not stated.
#[verifier::external_body]
fn char_debug(c: char) -> (r: String)
    ensures
        r@ == char_debug_text(c),
{
    format!("{c:?}")
}

/// Decimal text of an offset or count.
pub open spec fn dec(n: usize) -> Seq<char> {
    decimal_text(n as nat)
}

/// The message of a [`SpanError`].
pub open spec fn span_error_text(e: SpanError) -> Seq<char> {
    match e {
        SpanError::Reversed { start, end } => "span start "@ + dec(start) + " is greater than end "@ + dec(end),
        SpanError::Empty { offset } => "span at offset "@ + dec(offset) + " is empty"@,
        SpanError::OutOfBounds { start, end, text_len } => "span "@ + dec(start) + ".."@ + dec(end)
            + " exceeds text length "@ + dec(text_len),
        SpanError::NotCharBoundary { offset } => "offset "@ + dec(offset) + " is not a UTF-8 character boundary"@,
    }
}

impl SpanError {
    /// The error's message.
    pub fn to_string(&self) -> (r: String)
        ensures
            r@ == span_error_text(*self),
    {
        match self {
            SpanError::Reversed { start, end } => String::from_str("span start ").concat(
                decimal_string(*start).as_str(),
            ).concat(" is greater than end ").concat(decimal_string(*end).as_str()),
            SpanError::Empty { offset } => String::from_str("span at offset ").concat(
                decimal_string(*offset).as_str(),
            ).concat(" is empty"),
            SpanError::OutOfBounds { start, end, text_len } => String::from_str("span ").concat(
                decimal_string(*start).as_str(),
            ).concat("..").concat(decimal_string(*end).as_str()).concat(" exceeds text length ").concat(
                decimal_string(*text_len).as_str(),
            ),
            SpanError::NotCharBoundary { offset } => String::from_str("offset ").concat(
                decimal_string(*offset).as_str(),
            ).concat(" is not a UTF-8 character boundary"),
        }
    }
}

/// The message of an [`IdentifierError`].
pub open spec fn identifier_error_text(e: IdentifierError) -> Seq<char> {
    match e {
        IdentifierError::Empty => "identifier must not be empty"@,
        IdentifierError::TooLong { actual, maximum } => "identifier length "@ + dec(actual) + " exceeds maximum "@
            + dec(maximum),
        IdentifierError::InvalidStart { character } => "identifier must start with an ASCII letter or digit, found "@
            + char_debug_text(character),
        IdentifierError::InvalidCharacter { index, character } => "identifier contains unsupported character "@
            + char_debug_text(character) + " at byte "@ + dec(index),
    }
}

impl IdentifierError {
    /// The error's message.
    pub fn to_string(&self) -> (r: String)
        ensures
            r@ == identifier_error_text(*self),
    {
        match self {
            IdentifierError::Empty => String::from_str("identifier must not be empty"),
            IdentifierError::TooLong { actual, maximum } => String::from_str("identifier length ").concat(
                decimal_string(*actual).as_str(),
            ).concat(" exceeds maximum ").concat(decimal_string(*maximum).as_str()),
            IdentifierError::InvalidStart { character } => String::from_str(
                "identifier must start with an ASCII letter or digit, found ",
            ).concat(char_debug(*character).as_str()),
            IdentifierError::InvalidCharacter { index, character } => String::from_str(
                "identifier contains unsupported character ",
            ).concat(char_debug(*character).as_str()).concat(" at byte ").concat(
                decimal_string(*index).as_str(),
            ),
        }
    }
}

/// The message of a [`DocumentBindingError`].
pub open spec fn binding_error_text(e: DocumentBindingError) -> Seq<char> {
    match e {
        DocumentBindingError::IdMismatch { expected, actual } => "document ID mismatch: expected "@ + expected@
            + ", found "@ + actual@,
        DocumentBindingError::LengthMismatch { expected, actual } => "document byte length mismatch: expected "@
            + dec(expected) + ", found "@ + dec(actual),
        DocumentBindingError::FingerprintMismatch => "document content fingerprint mismatch"@,
    }
}

impl DocumentBindingError {
    /// The error's message.
    pub fn to_string(&self) -> (r: String)
        ensures
            r@ == binding_error_text(*self),
    {
        match self {
            DocumentBindingError::IdMismatch { expected, actual } => String::from_str(
                "document ID mismatch: expected ",
            ).concat(expected.as_str()).concat(", found ").concat(actual.as_str()),
            DocumentBindingError::LengthMismatch { expected, actual } => String::from_str(
                "document byte length mismatch: expected ",
            ).concat(decimal_string(*expected).as_str()).concat(", found ").concat(
                decimal_string(*actual).as_str(),
            ),
            DocumentBindingError::FingerprintMismatch => String::from_str("document content fingerprint mismatch"),
        }
    }
}

/// The message of a [`FindingDocumentError`].
pub open spec fn finding_document_error_text(e: FindingDocumentError) -> Seq<char> {
    match e {
        FindingDocumentError::UnboundFinding => "finding is not bound to a document"@,
        FindingDocumentError::Document(inner) => "finding document mismatch: "@ + binding_error_text(inner),
        FindingDocumentError::Span(inner) => "finding span is invalid for document: "@ + span_error_text(inner),
    }
}

impl FindingDocumentError {
    /// The error's message.
    pub fn to_string(&self) -> (r: String)
        ensures
            r@ == finding_document_error_text(*self),
    {
        match self {
            FindingDocumentError::UnboundFinding => String::from_str("finding is not bound to a document"),
            FindingDocumentError::Document(inner) => String::from_str("finding document mismatch: ").concat(
                inner.to_string().as_str(),
            ),
            FindingDocumentError::Span(inner) => String::from_str("finding span is invalid for document: ").concat(
                inner.to_string().as_str(),
            ),
        }
    }
}

/// The message of a [`RecognizerMetadataError`].
pub open spec fn metadata_error_text(e: RecognizerMetadataError) -> Seq<char> {
    match e {
        RecognizerMetadataError::NoSupportedEntities => "recognizer metadata must declare a supported entity"@,
        RecognizerMetadataError::DuplicateEntity { entity } => "duplicate supported entity "@ + entity@,
        RecognizerMetadataError::DuplicateLocale { locale } => "duplicate supported locale "@ + locale@,
        RecognizerMetadataError::DuplicateCapability { capability } => "duplicate required capability "@
            + capability@,
    }
}

impl RecognizerMetadataError {
    /// The error's message.
    pub fn to_string(&self) -> (r: String)
        ensures
            r@ == metadata_error_text(*self),
    {
        match self {
            RecognizerMetadataError::NoSupportedEntities => String::from_str(
                "recognizer metadata must declare a supported entity",
            ),
            RecognizerMetadataError::DuplicateEntity { entity } => String::from_str("duplicate supported entity ").concat(
                entity.as_str(),
            ),
            RecognizerMetadataError::DuplicateLocale { locale } => String::from_str("duplicate supported locale ").concat(
                locale.as_str(),
            ),
            RecognizerMetadataError::DuplicateCapability { capability } => String::from_str(
                "duplicate required capability ",
            ).concat(capability.as_str()),
        }
    }
}

/// The message of a [`RegistryError`].
pub open spec fn registry_error_text(e: RegistryError) -> Seq<char> {
    match e {
        RegistryError::DuplicateRecognizerId { id } => "recognizer identifier "@ + id@ + " is already registered"@,
    }
}

impl RegistryError {
    /// The error's message.
    pub fn to_string(&self) -> (r: String)
        ensures
            r@ == registry_error_text(*self),
    {
        match self {
            RegistryError::DuplicateRecognizerId { id } => String::from_str("recognizer identifier ").concat(
                id.as_str(),
            ).concat(" is already registered"),
        }
    }
}

/// The name of a [`LimitDimension`].
pub open spec fn dimension_text(d: LimitDimension) -> Seq<char> {
    match d {
        LimitDimension::InputBytes => "input_bytes"@,
        LimitDimension::Candidates => "candidates"@,
        LimitDimension::Issues => "issues"@,
    }
}

impl LimitDimension {
    /// The dimension's name.
    pub fn to_string(&self) -> (r: String)
        ensures
            r@ == dimension_text(*self),
    {
        match self {
            LimitDimension::InputBytes => String::from_str("input_bytes"),
            LimitDimension::Candidates => String::from_str("candidates"),
            LimitDimension::Issues => String::from_str("issues"),
        }
    }
}

/// The message of an [`AnalysisRequestError`].
pub open spec fn request_error_text(e: AnalysisRequestError) -> Seq<char> {
    match e {
        AnalysisRequestError::DuplicateEntity { entity } => "duplicate entity "@ + entity@,
        AnalysisRequestError::DuplicateRecognizer { recognizer } => "duplicate recognizer "@ + recognizer@,
        AnalysisRequestError::DuplicateCapability { capability } => "duplicate capability "@ + capability@,
        AnalysisRequestError::ZeroLimit { dimension } => "analysis limit "@ + dimension_text(dimension)
            + " must be greater than zero"@,
    }
}

impl AnalysisRequestError {
    /// The error's message.
    pub fn to_string(&self) -> (r: String)
        ensures
            r@ == request_error_text(*self),
    {
        match self {
            AnalysisRequestError::DuplicateEntity { entity } => String::from_str("duplicate entity ").concat(
                entity.as_str(),
            ),
            AnalysisRequestError::DuplicateRecognizer { recognizer } => String::from_str(
                "duplicate recognizer ",
            ).concat(recognizer.as_str()),
            AnalysisRequestError::DuplicateCapability { capability } => String::from_str(
                "duplicate capability ",
            ).concat(capability.as_str()),
            AnalysisRequestError::ZeroLimit { dimension } => String::from_str("analysis limit ").concat(
                dimension.to_string().as_str(),
            ).concat(" must be greater than zero"),
        }
    }
}

/// The message of an [`AnalysisExecutionError`].
pub open spec fn execution_error_text(e: AnalysisExecutionError) -> Seq<char> {
    match e {
        AnalysisExecutionError::InputTooLarge { actual, maximum } => "document length "@ + dec(actual)
            + " bytes exceeds request limit "@ + dec(maximum) + " bytes"@,
    }
}

impl AnalysisExecutionError {
    /// The error's message.
    pub fn to_string(&self) -> (r: String)
        ensures
            r@ == execution_error_text(*self),
    {
        match self {
            AnalysisExecutionError::InputTooLarge { actual, maximum } => String::from_str("document length ").concat(
                decimal_string(*actual).as_str(),
            ).concat(" bytes exceeds request limit ").concat(decimal_string(*maximum).as_str()).concat(
                " bytes",
            ),
        }
    }
}

/// The message of a [`ResolutionError`].
pub open spec fn resolution_error_text(e: ResolutionError) -> Seq<char> {
    match e {
        ResolutionError::CandidateLimitExceeded { actual, maximum } => "resolution candidate count "@ + dec(actual)
            + " exceeds maximum "@ + dec(maximum),
        ResolutionError::ResolvedLimitExceeded { required, maximum } => "resolution requires "@ + dec(required)
            + " outputs, exceeding maximum "@ + dec(maximum),
        ResolutionError::InconsistentDocumentBinding => "resolution candidates do not share one consistent document binding"@,
    }
}

impl ResolutionError {
    /// The error's message.
    pub fn to_string(&self) -> (r: String)
        ensures
            r@ == resolution_error_text(*self),
    {
        match self {
            ResolutionError::CandidateLimitExceeded { actual, maximum } => String::from_str(
                "resolution candidate count ",
            ).concat(decimal_string(*actual).as_str()).concat(" exceeds maximum ").concat(
                decimal_string(*maximum).as_str(),
            ),
            ResolutionError::ResolvedLimitExceeded { required, maximum } => String::from_str(
                "resolution requires ",
            ).concat(decimal_string(*required).as_str()).concat(" outputs, exceeding maximum ").concat(
                decimal_string(*maximum).as_str(),
            ),
            ResolutionError::InconsistentDocumentBinding => String::from_str(
                "resolution candidates do not share one consistent document binding",
            ),
        }
    }
}

/// The name of a [`RecognitionErrorKind`], as its `Debug` format writes it.
pub open spec fn kind_text(k: RecognitionErrorKind) -> Seq<char> {
    match k {
        RecognitionErrorKind::InvalidCandidate => "InvalidCandidate"@,
        RecognitionErrorKind::BackendUnavailable => "BackendUnavailable"@,
        RecognitionErrorKind::Configuration => "Configuration"@,
        RecognitionErrorKind::ResourceLimit => "ResourceLimit"@,
        RecognitionErrorKind::Internal => "Internal"@,
    }
}

fn kind_name(k: RecognitionErrorKind) -> (r: &'static str)
    ensures
        r@ == kind_text(k),
{
    match k {
        RecognitionErrorKind::InvalidCandidate => "InvalidCandidate",
        RecognitionErrorKind::BackendUnavailable => "BackendUnavailable",
        RecognitionErrorKind::Configuration => "Configuration",
        RecognitionErrorKind::ResourceLimit => "ResourceLimit",
        RecognitionErrorKind::Internal => "Internal",
    }
}

/// `true` or `false`.
pub open spec fn bool_text(b: bool) -> Seq<char> {
    if b {
        "true"@
    } else {
        "false"@
    }
}

/// The message of a [`RecognitionError`].
pub open spec fn recognition_error_text(kind: RecognitionErrorKind, code: Seq<char>, retryable: bool) -> Seq<char> {
    "recognizer failure "@ + kind_text(kind) + " ("@ + code + ", retryable="@ + bool_text(retryable) + ")"@
}

impl RecognitionError {
    /// The error's message.
    pub fn to_string(&self) -> (r: String)
        ensures
            r@ == recognition_error_text(self@.kind, self@.code, self@.retryable),
    {
        let flag = if self.retryable() {
            "true"
        } else {
            "false"
        };
        String::from_str("recognizer failure ").concat(kind_name(self.kind())).concat(" (").concat(
            self.code().as_str(),
        ).concat(", retryable=").concat(flag).concat(")")
    }
}

/// The message of a [`ReportDocumentError`].
pub open spec fn report_document_error_text(e: ReportDocumentError) -> Seq<char> {
    match e {
        ReportDocumentError::UnboundReport => "analysis report is not bound to a document"@,
        ReportDocumentError::Document(inner) => "report document mismatch: "@ + binding_error_text(inner),
        ReportDocumentError::Candidate { index, error } => "report candidate "@ + dec(index)
            + " does not fit the document: "@ + finding_document_error_text(error),
    }
}

impl ReportDocumentError {
    /// The error's message.
    pub fn to_string(&self) -> (r: String)
        ensures
            r@ == report_document_error_text(*self),
    {
        match self {
            ReportDocumentError::UnboundReport => String::from_str("analysis report is not bound to a document"),
            ReportDocumentError::Document(inner) => String::from_str("report document mismatch: ").concat(
                inner.to_string().as_str(),
            ),
            ReportDocumentError::Candidate { index, error } => String::from_str("report candidate ").concat(
                decimal_string(*index).as_str(),
            ).concat(" does not fit the document: ").concat(error.to_string().as_str()),
        }
    }
}

/// The message of an [`AnalysisResolutionError`].
pub open spec fn analysis_resolution_error_text(e: AnalysisResolutionError) -> Seq<char> {
    match e {
        AnalysisResolutionError::ReportDocument(inner) => "analysis report is not usable: "@
            + report_document_error_text(inner),
        AnalysisResolutionError::IncompleteCandidateCollection => "analysis candidate collection is incomplete and cannot be authoritatively resolved"@,
        AnalysisResolutionError::Resolution(inner) => "candidate resolution failed: "@ + resolution_error_text(inner),
    }
}

impl AnalysisResolutionError {
    /// The error's message.
    pub fn to_string(&self) -> (r: String)
        ensures
            r@ == analysis_resolution_error_text(*self),
    {
        match self {
            AnalysisResolutionError::ReportDocument(inner) => String::from_str("analysis report is not usable: ").concat(
                inner.to_string().as_str(),
            ),
            AnalysisResolutionError::IncompleteCandidateCollection => String::from_str(
                "analysis candidate collection is incomplete and cannot be authoritatively resolved",
            ),
            AnalysisResolutionError::Resolution(inner) => String::from_str("candidate resolution failed: ").concat(
                inner.to_string().as_str(),
            ),
        }
    }
}

} // verus!
