use presidio::{
    AnalyzerEngine, Confidence, ConfidenceError, EntityId, EntityType, Evidence, Finding,
    IdentifierError, RecognizerId, RecognizerResult, Span, SpanError,
};

#[test]
fn span_rejects_empty_and_reversed_ranges() {
    assert_eq!(Span::new(3, 3), Err(SpanError::Empty { offset: 3 }));
    assert_eq!(
        Span::new(4, 2),
        Err(SpanError::Reversed { start: 4, end: 2 })
    );
}

#[test]
fn span_validates_utf8_boundaries() {
    let text = "aéz";
    let valid = Span::new(1, 3).expect("valid span");
    assert_eq!(valid.slice(text), Ok("é"));

    let split_codepoint = Span::new(1, 2).expect("ordered span");
    assert_eq!(
        split_codepoint.validate_for(text),
        Err(SpanError::NotCharBoundary { offset: 2 })
    );
}

#[test]
fn confidence_rejects_non_finite_and_out_of_range_values() {
    assert_eq!(
        Confidence::from_bits(f32::NAN.to_bits()),
        Err(ConfidenceError::NotFinite)
    );
    assert_eq!(
        Confidence::from_bits(1.1f32.to_bits()),
        Err(ConfidenceError::OutOfRange {
            value: 1.1f32.to_bits()
        })
    );
    assert_eq!(
        f32::from_bits(
            Confidence::from_bits(0.75f32.to_bits())
                .expect("valid")
                .to_bits()
        ),
        0.75
    );
}

#[test]
fn stable_identifiers_accept_namespaces_and_reject_whitespace() {
    assert_eq!(
        EntityId::new("acme.customer-id:v1")
            .expect("valid identifier")
            .as_str(),
        "acme.customer-id:v1"
    );
    assert!(RecognizerId::new("bad recognizer").is_err());
}

#[test]
fn legacy_result_converts_without_changing_legacy_api() {
    let legacy = RecognizerResult::new(EntityType::Email, 0, 4, 0.8f32.to_bits());
    let finding = Finding::try_from(&legacy).expect("valid conversion");

    assert_eq!(finding.entity().as_str(), "EMAIL_ADDRESS");
    assert_eq!(finding.span(), Span::new(0, 4).expect("valid span"));
    assert_eq!(f32::from_bits(finding.confidence().to_bits()), 0.8);
    assert_eq!(
        finding.recognizer().expect("recognizer").as_str(),
        "legacy.pattern"
    );
    assert_eq!(finding.evidence(), &[Evidence::LegacyResult]);
}

#[test]
fn legacy_analyzer_results_convert_to_validated_findings() {
    let analyzer = AnalyzerEngine::new();
    let text = "contact jane@example.com";
    let result = analyzer
        .analyze(text, None)
        .into_iter()
        .find(|result| result.entity_type.as_tag() == "EMAIL_ADDRESS")
        .expect("email result");

    let finding = Finding::try_from(&result).expect("validated finding");

    assert_eq!(finding.entity().as_str(), "EMAIL_ADDRESS");
    assert_eq!(finding.span().slice(text), Ok("jane@example.com"));
    assert_eq!(
        finding.recognizer().expect("recognizer").as_str(),
        "legacy.pattern"
    );
    assert_eq!(finding.evidence(), &[Evidence::LegacyResult]);
}

#[test]
fn public_value_types_enforce_invariants() {
    assert_eq!(Span::new(2, 2), Err(SpanError::Empty { offset: 2 }));
    assert_eq!(
        Confidence::from_bits(f32::INFINITY.to_bits()),
        Err(ConfidenceError::NotFinite)
    );
    assert_eq!(EntityId::new(""), Err(IdentifierError::Empty));
    assert!(RecognizerId::new("acme.email:v1").is_ok());
}

#[test]
fn entity_ids_convert_from_legacy_entity_types() {
    let id: EntityId = EntityType::IbanCode.into();
    assert_eq!(id.as_str(), "IBAN_CODE");
    assert_eq!(EntityId::from(EntityType::Email).as_str(), "EMAIL_ADDRESS");
}

#[test]
fn legacy_result_conversion_reports_invalid_input() {
    let reversed = RecognizerResult::new(EntityType::Email, 5, 2, 0.5f32.to_bits());
    assert_eq!(
        Finding::from_legacy(&reversed),
        Err(presidio::FindingConversionError::Span(SpanError::Reversed { start: 5, end: 2 }))
    );
    let empty = RecognizerResult::new(EntityType::Email, 3, 3, 0.5f32.to_bits());
    assert_eq!(
        Finding::try_from(&empty),
        Err(presidio::FindingConversionError::Span(SpanError::Empty { offset: 3 }))
    );
    let too_high = RecognizerResult::new(EntityType::Email, 0, 3, 1.5f32.to_bits());
    assert_eq!(
        Finding::try_from(&too_high),
        Err(presidio::FindingConversionError::Confidence(ConfidenceError::OutOfRange {
            value: 1.5f32.to_bits()
        }))
    );
}

#[test]
fn negative_zero_confidence_keeps_its_sign_and_equals_zero() {
    let negative_zero = (-0.0f32).to_bits();
    let confidence = Confidence::from_bits(negative_zero).expect("-0.0 is a confidence");
    assert_eq!(confidence.to_bits(), negative_zero);
    assert_eq!(confidence, Confidence::zero());
    let finding = Finding::new(
        EntityId::new("EMAIL").unwrap(),
        Span::new(0, 3).unwrap(),
        confidence,
    );
    assert_eq!(finding.confidence().to_bits(), negative_zero);
    assert_eq!(
        Confidence::from_bits((-0.5f32).to_bits()),
        Err(ConfidenceError::OutOfRange { value: (-0.5f32).to_bits() })
    );
}
