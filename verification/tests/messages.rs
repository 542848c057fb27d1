use presidio::{
    ConfidenceError, FindingConversionError,
    AnalysisExecutionError, AnalysisRequestError, AnalysisResolutionError, DocumentBinding,
    DocumentBindingError, DocumentId, EntityId, FindingDocumentError, IdentifierError,
    LimitDimension, MetadataId, RecognitionError, RecognitionErrorKind, RecognizerId,
    RecognizerMetadataError, RegistryError, ReportDocumentError, ResolutionError, SpanError,
};

#[test]
fn span_error_messages() {
    assert_eq!(
        SpanError::Reversed { start: 7, end: 3 }.to_string(),
        "span start 7 is greater than end 3"
    );
    assert_eq!(SpanError::Empty { offset: 12 }.to_string(), "span at offset 12 is empty");
    assert_eq!(
        SpanError::OutOfBounds { start: 0, end: 120, text_len: 45 }.to_string(),
        "span 0..120 exceeds text length 45"
    );
    assert_eq!(
        SpanError::NotCharBoundary { offset: 3 }.to_string(),
        "offset 3 is not a UTF-8 character boundary"
    );
}

#[test]
fn identifier_error_messages() {
    assert_eq!(EntityId::new("").unwrap_err().to_string(), "identifier must not be empty");
    let long = "a".repeat(130);
    assert_eq!(
        EntityId::new(&long).unwrap_err().to_string(),
        "identifier length 130 exceeds maximum 128"
    );
    assert_eq!(
        EntityId::new("-abc").unwrap_err().to_string(),
        "identifier must start with an ASCII letter or digit, found '-'"
    );
    assert_eq!(
        EntityId::new("ab/c").unwrap_err(),
        IdentifierError::InvalidCharacter { index: 2, character: '/' }
    );
    assert_eq!(
        EntityId::new("ab/c").unwrap_err().to_string(),
        "identifier contains unsupported character '/' at byte 2"
    );
}

#[test]
fn document_error_messages() {
    let binding = DocumentBinding::for_text(DocumentId::new("doc-a").unwrap(), "hello");
    assert_eq!(
        binding.validate_text("hello!").unwrap_err().to_string(),
        "document byte length mismatch: expected 5, found 6"
    );
    assert_eq!(
        binding.validate_text("HELLO").unwrap_err().to_string(),
        "document content fingerprint mismatch"
    );
    let mismatch = DocumentBindingError::IdMismatch {
        expected: DocumentId::new("doc-a").unwrap(),
        actual: DocumentId::new("doc-b").unwrap(),
    };
    assert_eq!(mismatch.to_string(), "document ID mismatch: expected doc-a, found doc-b");
    assert_eq!(
        FindingDocumentError::UnboundFinding.to_string(),
        "finding is not bound to a document"
    );
    assert_eq!(
        FindingDocumentError::Document(mismatch.clone()).to_string(),
        "finding document mismatch: document ID mismatch: expected doc-a, found doc-b"
    );
    assert_eq!(
        FindingDocumentError::Span(SpanError::Empty { offset: 0 }).to_string(),
        "finding span is invalid for document: span at offset 0 is empty"
    );
    assert_eq!(
        ReportDocumentError::Candidate {
            index: 4,
            error: FindingDocumentError::UnboundFinding,
        }
        .to_string(),
        "report candidate 4 does not fit the document: finding is not bound to a document"
    );
    assert_eq!(
        AnalysisResolutionError::ReportDocument(ReportDocumentError::UnboundReport).to_string(),
        "analysis report is not usable: analysis report is not bound to a document"
    );
}

#[test]
fn registration_and_request_error_messages() {
    assert_eq!(
        RecognizerMetadataError::NoSupportedEntities.to_string(),
        "recognizer metadata must declare a supported entity"
    );
    assert_eq!(
        RecognizerMetadataError::DuplicateEntity { entity: EntityId::new("EMAIL").unwrap() }.to_string(),
        "duplicate supported entity EMAIL"
    );
    assert_eq!(
        RecognizerMetadataError::DuplicateLocale { locale: MetadataId::new("en-US").unwrap() }.to_string(),
        "duplicate supported locale en-US"
    );
    assert_eq!(
        RecognizerMetadataError::DuplicateCapability { capability: MetadataId::new("gpu").unwrap() }
            .to_string(),
        "duplicate required capability gpu"
    );
    assert_eq!(
        RegistryError::DuplicateRecognizerId { id: RecognizerId::new("custom.email").unwrap() }.to_string(),
        "recognizer identifier custom.email is already registered"
    );
    assert_eq!(
        AnalysisRequestError::ZeroLimit { dimension: LimitDimension::Candidates }.to_string(),
        "analysis limit candidates must be greater than zero"
    );
    assert_eq!(LimitDimension::InputBytes.to_string(), "input_bytes");
    assert_eq!(LimitDimension::Issues.to_string(), "issues");
    assert_eq!(
        AnalysisRequestError::DuplicateRecognizer { recognizer: RecognizerId::new("r1").unwrap() }
            .to_string(),
        "duplicate recognizer r1"
    );
    assert_eq!(
        AnalysisExecutionError::InputTooLarge { actual: 2048, maximum: 1024 }.to_string(),
        "document length 2048 bytes exceeds request limit 1024 bytes"
    );
}

#[test]
fn resolution_and_recognition_error_messages() {
    assert_eq!(
        ResolutionError::CandidateLimitExceeded { actual: 11, maximum: 10 }.to_string(),
        "resolution candidate count 11 exceeds maximum 10"
    );
    assert_eq!(
        ResolutionError::ResolvedLimitExceeded { required: 3, maximum: 2 }.to_string(),
        "resolution requires 3 outputs, exceeding maximum 2"
    );
    assert_eq!(
        ResolutionError::InconsistentDocumentBinding.to_string(),
        "resolution candidates do not share one consistent document binding"
    );
    assert_eq!(
        AnalysisResolutionError::IncompleteCandidateCollection.to_string(),
        "analysis candidate collection is incomplete and cannot be authoritatively resolved"
    );
    assert_eq!(
        AnalysisResolutionError::Resolution(ResolutionError::InconsistentDocumentBinding).to_string(),
        "candidate resolution failed: resolution candidates do not share one consistent document binding"
    );
    let error = RecognitionError::new(
        RecognitionErrorKind::BackendUnavailable,
        MetadataId::new("backend.offline").unwrap(),
        true,
    );
    assert_eq!(
        error.to_string(),
        "recognizer failure BackendUnavailable (backend.offline, retryable=true)"
    );
}

#[test]
fn error_conversions_wrap_the_source_error() {
    let span = SpanError::Empty { offset: 1 };
    let from_span: FindingDocumentError = span.clone().into();
    assert_eq!(from_span, FindingDocumentError::Span(span.clone()));
    let from_binding: FindingDocumentError = DocumentBindingError::FingerprintMismatch.into();
    assert_eq!(from_binding, FindingDocumentError::Document(DocumentBindingError::FingerprintMismatch));
    let conversion: FindingConversionError = span.clone().into();
    assert_eq!(conversion, FindingConversionError::Span(span));
    let conversion: FindingConversionError = ConfidenceError::NotFinite.into();
    assert_eq!(conversion, FindingConversionError::Confidence(ConfidenceError::NotFinite));
    let resolution: AnalysisResolutionError = ResolutionError::InconsistentDocumentBinding.into();
    assert_eq!(
        resolution,
        AnalysisResolutionError::Resolution(ResolutionError::InconsistentDocumentBinding)
    );
    let report: AnalysisResolutionError = ReportDocumentError::UnboundReport.into();
    assert_eq!(report, AnalysisResolutionError::ReportDocument(ReportDocumentError::UnboundReport));
}
