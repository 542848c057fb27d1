use presidio::{
    AnalysisRequest, AnalysisRequestError, EntityId, EntityType, LimitDimension, MetadataId,
    RecognitionMechanism, RecognizerId, RecognizerMetadata, RecognizerMetadataError,
};

fn metadata(
    id: &str,
    version: &str,
    entity_type: EntityType,
    mechanism: RecognitionMechanism,
) -> RecognizerMetadata {
    RecognizerMetadata::new(
        RecognizerId::new(id).expect("valid recognizer ID"),
        MetadataId::new(version).expect("valid version"),
        vec![EntityId::from_entity_type(entity_type)],
        mechanism,
    )
    .expect("valid metadata")
}

#[test]
fn metadata_rejects_empty_and_duplicate_dimensions() {
    let id = RecognizerId::new("custom.metadata").expect("valid ID");
    let version = MetadataId::new("1.0.0").expect("valid version");
    assert_eq!(
        RecognizerMetadata::new(
            id.clone(),
            version.clone(),
            vec![],
            RecognitionMechanism::Pattern,
        ),
        Err(RecognizerMetadataError::NoSupportedEntities)
    );

    let entity = EntityId::from_entity_type(EntityType::Email);
    assert!(matches!(
        RecognizerMetadata::new(
            id,
            version,
            vec![entity.clone(), entity],
            RecognitionMechanism::Pattern,
        ),
        Err(RecognizerMetadataError::DuplicateEntity { .. })
    ));

    let locale = MetadataId::new("en-US").expect("valid locale");
    let metadata = metadata(
        "custom.locales",
        "1.0.0",
        EntityType::Email,
        RecognitionMechanism::Pattern,
    );
    assert!(matches!(
        metadata.with_supported_locales(vec![locale.clone(), locale]),
        Err(RecognizerMetadataError::DuplicateLocale { .. })
    ));
}

#[test]
fn metadata_builders_replace_and_attach_fields() {
    let m = metadata(
        "custom.email",
        "7.4.2",
        EntityType::Email,
        RecognitionMechanism::PatternWithValidation,
    )
    .with_supported_locales(vec![MetadataId::new("en-US").unwrap()])
    .expect("unique locale")
    .with_required_capabilities(vec![MetadataId::new("model.local").unwrap()])
    .expect("unique capability")
    .with_default_enabled(true)
    .with_attribution(MetadataId::new("source.a").unwrap())
    .with_evaluation_receipt(MetadataId::new("eval.custom-email.v1").unwrap());

    assert_eq!(m.id().as_str(), "custom.email");
    assert_eq!(m.version().as_str(), "7.4.2");
    assert_eq!(m.supported_entities()[0].as_str(), "EMAIL_ADDRESS");
    assert_eq!(m.supported_locales()[0].as_str(), "en-US");
    assert_eq!(m.required_capabilities()[0].as_str(), "model.local");
    assert_eq!(m.mechanism(), RecognitionMechanism::PatternWithValidation);
    assert!(m.default_enabled());
    assert_eq!(m.attribution().unwrap().as_str(), "source.a");
    assert_eq!(m.evaluation_receipt().unwrap().as_str(), "eval.custom-email.v1");
}

#[test]
fn duplicate_capability_names_the_repeated_identifier() {
    let cap = MetadataId::new("gpu").unwrap();
    let other = MetadataId::new("cpu").unwrap();
    let m = metadata("custom.caps", "1", EntityType::Email, RecognitionMechanism::Custom);
    assert_eq!(
        m.with_required_capabilities(vec![other.clone(), cap.clone(), other.clone()]),
        Err(RecognizerMetadataError::DuplicateCapability { capability: other })
    );
}

#[test]
fn default_request_has_documented_limits() {
    let request = AnalysisRequest::new();
    assert!(request.entities().is_empty());
    assert!(request.recognizers().is_empty());
    assert!(request.locale().is_none());
    assert_eq!(f32::from_bits(request.minimum_confidence().to_bits()), 0.3);
    assert_eq!(request.max_input_bytes(), 1_048_576);
    assert_eq!(request.max_candidates(), 10_000);
    assert_eq!(request.max_issues(), 100);
}

#[test]
fn request_rejects_zero_limits_and_duplicates() {
    assert_eq!(
        AnalysisRequest::new().with_max_input_bytes(0),
        Err(AnalysisRequestError::ZeroLimit {
            dimension: LimitDimension::InputBytes
        })
    );
    assert_eq!(
        AnalysisRequest::new().with_max_candidates(0),
        Err(AnalysisRequestError::ZeroLimit {
            dimension: LimitDimension::Candidates
        })
    );
    assert_eq!(
        AnalysisRequest::new().with_max_issues(0),
        Err(AnalysisRequestError::ZeroLimit {
            dimension: LimitDimension::Issues
        })
    );
    let e = EntityId::new("A").unwrap();
    assert_eq!(
        AnalysisRequest::new().with_entities(vec![e.clone(), e.clone()]),
        Err(AnalysisRequestError::DuplicateEntity { entity: e })
    );
    let r = RecognizerId::new("r").unwrap();
    assert_eq!(
        AnalysisRequest::new().with_recognizers(vec![r.clone(), r.clone()]),
        Err(AnalysisRequestError::DuplicateRecognizer { recognizer: r })
    );
    let c = MetadataId::new("c").unwrap();
    assert_eq!(
        AnalysisRequest::new().with_available_capabilities(vec![c.clone(), c.clone()]),
        Err(AnalysisRequestError::DuplicateCapability { capability: c })
    );
}

#[test]
fn locale_and_capability_requirements_control_selection() {
    let m = metadata(
        "custom.capability",
        "1",
        EntityType::Email,
        RecognitionMechanism::Custom,
    )
    .with_supported_locales(vec![MetadataId::new("en-US").unwrap()])
    .unwrap()
    .with_required_capabilities(vec![MetadataId::new("model.local").unwrap()])
    .unwrap();

    let explicit = AnalysisRequest::new()
        .with_recognizers(vec![RecognizerId::new("custom.capability").unwrap()])
        .unwrap();
    assert!(!explicit.selects(&m));

    let capable = AnalysisRequest::new()
        .with_recognizers(vec![RecognizerId::new("custom.capability").unwrap()])
        .unwrap()
        .with_available_capabilities(vec![MetadataId::new("model.local").unwrap()])
        .unwrap();
    assert!(capable.selects(&m));

    let french = AnalysisRequest::new()
        .with_recognizers(vec![RecognizerId::new("custom.capability").unwrap()])
        .unwrap()
        .with_available_capabilities(vec![MetadataId::new("model.local").unwrap()])
        .unwrap()
        .with_locale(MetadataId::new("fr-FR").unwrap());
    assert!(!french.selects(&m));

    // Not default-enabled: an empty recognizer list does not select it.
    assert!(!AnalysisRequest::new().selects(&m));
    let enabled = m.clone().with_default_enabled(true);
    let with_caps = AnalysisRequest::new()
        .with_available_capabilities(vec![MetadataId::new("model.local").unwrap()])
        .unwrap();
    assert!(with_caps.selects(&enabled));

    // An entity allowlist must share an entity with the metadata.
    let other_entity = AnalysisRequest::new()
        .with_available_capabilities(vec![MetadataId::new("model.local").unwrap()])
        .unwrap()
        .with_entities(vec![EntityId::new("PHONE_NUMBER").unwrap()])
        .unwrap();
    assert!(!other_entity.selects(&enabled));
    let same_entity = AnalysisRequest::new()
        .with_available_capabilities(vec![MetadataId::new("model.local").unwrap()])
        .unwrap()
        .with_entities(vec![EntityId::new("EMAIL_ADDRESS").unwrap()])
        .unwrap();
    assert!(same_entity.selects(&enabled));
}
