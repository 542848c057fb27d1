use presidio::{
    EntityType, Pattern, PatternRecognizer, RecognizerId, RecognizerRegistry, RegistrationMetadata,
    RegistryError, ENGINE_VERSION,
};

fn metadata(id: &str, version: &str) -> RegistrationMetadata {
    RegistrationMetadata::new(RecognizerId::new(id).expect("valid test recognizer ID"))
        .with_version(version)
}

/// The score a pattern gets after a context hit: raised by 0.35, kept in 0.4..=1.0.
fn context_score(base: f32) -> f32 {
    (base + 0.35).clamp(0.4, 1.0)
}

fn recognizer(
    entity_type: EntityType,
    name: &'static str,
    regex: &str,
    score: f32,
) -> PatternRecognizer {
    PatternRecognizer {
        entity_type,
        patterns: vec![Pattern::new(name, regex, score.to_bits(), context_score(score).to_bits())],
        context: &[],
        validator: None,
    }
}

#[test]
fn duplicate_explicit_recognizer_ids_are_rejected() {
    let mut registry = RecognizerRegistry::empty();
    registry
        .add_with_metadata(
            recognizer(EntityType::Email, "first", r"FIRST", 0.8),
            metadata("duplicate.id", "1"),
        )
        .unwrap();

    let error = registry
        .add_with_metadata(
            recognizer(EntityType::Url, "second", r"SECOND", 0.8),
            metadata("duplicate.id", "2"),
        )
        .unwrap_err();

    assert_eq!(
        error,
        RegistryError::DuplicateRecognizerId {
            id: RecognizerId::new("duplicate.id").unwrap(),
        }
    );
    assert_eq!(registry.len(), 1);
}

#[test]
fn legacy_additions_get_generated_identifiers_and_chain() {
    let mut registry = RecognizerRegistry::empty();
    registry
        .add(recognizer(EntityType::ApiKey, "key", r"KEY-[0-9]+", 0.7))
        .add(recognizer(EntityType::Email, "mail", r"[a-z]+@[a-z]+", 0.6));
    assert_eq!(registry.len(), 2);
    let metadata = registry.metadata();
    assert_eq!(metadata[0].id().as_str(), "custom.API_KEY.0");
    assert_eq!(metadata[1].id().as_str(), "custom.EMAIL_ADDRESS.1");
    assert_eq!(metadata[0].version(), Some(ENGINE_VERSION));
}

#[test]
fn explicit_metadata_is_kept_beside_its_recognizer() {
    let mut registry = RecognizerRegistry::empty();
    registry
        .add_with_metadata(
            recognizer(EntityType::Email, "customer-email", r"[a-z]+@[a-z]+\.[a-z]+", 0.8),
            metadata("customer.email", "2026.07"),
        )
        .unwrap()
        .add(recognizer(EntityType::Url, "url", r"https://[a-z.]+", 0.5));
    let entries = registry.entries();
    assert_eq!(entries.len(), 2);
    assert_eq!(entries[0].0.entity_type, EntityType::Email);
    assert_eq!(entries[0].1.id().as_str(), "customer.email");
    assert_eq!(entries[0].1.version(), Some("2026.07"));
    assert_eq!(entries[1].1.id().as_str(), "custom.URL.1");
    assert_eq!(metadata("blank.version", "   ").version(), None);
}
