use presidio::{
    AnalysisRequest, Pattern, PatternRecognizer, PatternRecognizerAdapter, Recognizer,
    CandidateEmissionError, CandidateEmitter, ConfidenceError, DocumentId, EmissionStatus, EntityId,
    EntityType, Evidence, MetadataId, RecognitionMechanism, RecognizerId, RecognizerMetadata,
    SpanError, TextDocument,
};

fn email_metadata() -> RecognizerMetadata {
    RecognizerMetadata::new(
        RecognizerId::new("custom.email").expect("valid recognizer ID"),
        MetadataId::new("1.0.0").expect("valid version"),
        vec![EntityId::from_entity_type(EntityType::Email)],
        RecognitionMechanism::Pattern,
    )
    .expect("valid metadata")
}

fn email() -> EntityId {
    EntityId::from_entity_type(EntityType::Email)
}

#[test]
fn accepted_candidates_carry_recognizer_and_document_binding() {
    let document = TextDocument::new(DocumentId::new("doc-1").unwrap(), "mail jane@acme.com");
    let metadata = email_metadata();
    let mut emitter = CandidateEmitter::new(&document, &metadata, 4);
    let evidence = vec![Evidence::Pattern {
        pattern_id: MetadataId::new("email").unwrap(),
    }];
    assert_eq!(
        emitter.emit(email(), 5, 18, 0.8f32.to_bits(), evidence.clone()),
        Ok(EmissionStatus::Accepted)
    );
    assert_eq!(emitter.remaining(), 3);
    assert!(!emitter.limit_reached());

    let findings = emitter.into_findings();
    assert_eq!(findings.len(), 1);
    let finding = &findings[0];
    assert_eq!(finding.recognizer().unwrap().as_str(), "custom.email");
    assert!(finding.document_binding().unwrap().same_as(document.binding()));
    assert_eq!(finding.entity().as_str(), "EMAIL_ADDRESS");
    assert_eq!(finding.span().start(), 5);
    assert_eq!(finding.span().end(), 18);
    assert_eq!(finding.evidence(), evidence.as_slice());
    assert_eq!(document.slice(finding.span()), Ok("jane@acme.com"));
}

#[test]
fn emitter_rejects_undeclared_entities() {
    let document = TextDocument::new(DocumentId::new("doc-2").unwrap(), "call 555-0100");
    let metadata = email_metadata();
    let mut emitter = CandidateEmitter::new(&document, &metadata, 4);
    let phone = EntityId::from_entity_type(EntityType::PhoneNumber);
    assert_eq!(
        emitter.emit(phone.clone(), 5, 13, 0.5f32.to_bits(), vec![]),
        Err(CandidateEmissionError::UndeclaredEntity { entity: phone })
    );
    assert_eq!(emitter.remaining(), 4);
    assert!(emitter.into_findings().is_empty());
}

#[test]
fn emitter_rejects_invalid_spans() {
    let document = TextDocument::new(DocumentId::new("doc-3").unwrap(), "ab\u{e9}cd");
    let metadata = email_metadata();
    let mut emitter = CandidateEmitter::new(&document, &metadata, 4);
    assert_eq!(
        emitter.emit(email(), 3, 1, 0.5f32.to_bits(), vec![]),
        Err(CandidateEmissionError::Span(SpanError::Reversed { start: 3, end: 1 }))
    );
    assert_eq!(
        emitter.emit(email(), 2, 2, 0.5f32.to_bits(), vec![]),
        Err(CandidateEmissionError::Span(SpanError::Empty { offset: 2 }))
    );
    assert_eq!(
        emitter.emit(email(), 0, 9, 0.5f32.to_bits(), vec![]),
        Err(CandidateEmissionError::Span(SpanError::OutOfBounds {
            start: 0,
            end: 9,
            text_len: 6
        }))
    );
    assert_eq!(
        emitter.emit(email(), 0, 3, 0.5f32.to_bits(), vec![]),
        Err(CandidateEmissionError::Span(SpanError::NotCharBoundary { offset: 3 }))
    );
    assert!(emitter.into_findings().is_empty());
}

#[test]
fn emitter_rejects_invalid_confidence() {
    let document = TextDocument::new(DocumentId::new("doc-4").unwrap(), "abcdef");
    let metadata = email_metadata();
    let mut emitter = CandidateEmitter::new(&document, &metadata, 4);
    assert_eq!(
        emitter.emit(email(), 0, 2, 1.5f32.to_bits(), vec![]),
        Err(CandidateEmissionError::Confidence(ConfidenceError::OutOfRange {
            value: 1.5f32.to_bits()
        }))
    );
    assert_eq!(
        emitter.emit(email(), 0, 2, f32::NAN.to_bits(), vec![]),
        Err(CandidateEmissionError::Confidence(ConfidenceError::NotFinite))
    );
    assert!(emitter.into_findings().is_empty());
}

#[test]
fn emitter_stops_at_its_candidate_limit() {
    let document = TextDocument::new(DocumentId::new("doc-5").unwrap(), "abcdef");
    let metadata = email_metadata();
    let mut emitter = CandidateEmitter::new(&document, &metadata, 2);
    assert_eq!(emitter.emit(email(), 0, 1, 0.5f32.to_bits(), vec![]), Ok(EmissionStatus::Accepted));
    assert_eq!(emitter.emit(email(), 1, 2, 0.5f32.to_bits(), vec![]), Ok(EmissionStatus::Accepted));
    assert_eq!(emitter.remaining(), 0);
    assert!(!emitter.limit_reached());
    assert_eq!(
        emitter.emit(email(), 2, 3, 0.5f32.to_bits(), vec![]),
        Ok(EmissionStatus::LimitReached)
    );
    assert!(emitter.limit_reached());
    assert_eq!(emitter.into_findings().len(), 2);
}

#[test]
fn pattern_adapter_emits_each_match_with_pattern_evidence() {
    let document = TextDocument::new(DocumentId::new("doc-6").unwrap(), "a@b.io and c@d.io");
    let metadata = email_metadata();
    let recognizer = PatternRecognizer {
        entity_type: EntityType::Email,
        patterns: vec![Pattern::new(
            "simple-email",
            r"[a-z]+@[a-z]+\.[a-z]+",
            0.6f32.to_bits(),
            0.95f32.to_bits(),
        )],
        context: &[],
        validator: None,
    };
    let adapter = PatternRecognizerAdapter::new(&metadata, &recognizer);
    assert_eq!(adapter.metadata().id().as_str(), "custom.email");
    let mut emitter = CandidateEmitter::new(&document, &metadata, 10);
    assert_eq!(adapter.recognize(&document, &AnalysisRequest::new(), &mut emitter), Ok(()));
    let findings = emitter.into_findings();
    assert_eq!(findings.len(), 2);
    assert_eq!((findings[0].span().start(), findings[0].span().end()), (0, 6));
    assert_eq!((findings[1].span().start(), findings[1].span().end()), (11, 17));
    assert_eq!(
        findings[1].evidence(),
        &[Evidence::Pattern { pattern_id: MetadataId::new("simple-email").unwrap() }]
    );
    assert_eq!(f32::from_bits(findings[0].confidence().to_bits()), 0.6);
}

#[test]
fn pattern_adapter_stops_at_the_emitter_limit() {
    let document = TextDocument::new(DocumentId::new("doc-7").unwrap(), "x@y.io p@q.io r@s.io");
    let metadata = email_metadata();
    let recognizer = PatternRecognizer {
        entity_type: EntityType::Email,
        patterns: vec![Pattern::new("mail", r"[a-z]@[a-z]\.io", 0.5f32.to_bits(), 0.85f32.to_bits())],
        context: &[],
        validator: None,
    };
    let adapter = PatternRecognizerAdapter::new(&metadata, &recognizer);
    let mut emitter = CandidateEmitter::new(&document, &metadata, 2);
    assert_eq!(adapter.recognize(&document, &AnalysisRequest::new(), &mut emitter), Ok(()));
    assert!(emitter.limit_reached());
    assert_eq!(emitter.into_findings().len(), 2);
}
