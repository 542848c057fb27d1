use presidio::{
    anonymize, AnalyzerEngine, AnonymizerEngine, EntityType, Operator, Pattern, PatternRecognizer,
    RecognizerRegistry,
};

fn score(bits: u32) -> f32 {
    f32::from_bits(bits)
}

/// The score a pattern gets after a context hit: raised by 0.35, kept in 0.4..=1.0.
fn context_score(base: f32) -> f32 {
    (base + 0.35).clamp(0.4, 1.0)
}

#[test]
fn detects_and_replaces_email_and_card() {
    let analyzer = AnalyzerEngine::new();
    let text = "Reach jane.doe@acme.com or card 4111 1111 1111 1111 today.";
    let results = analyzer.analyze(text, None);

    assert!(results.iter().any(|r| r.entity_type == EntityType::Email));
    assert!(results
        .iter()
        .any(|r| r.entity_type == EntityType::CreditCard && score(r.score) >= 0.99));

    let clean = anonymize(text, &results, &Operator::Replace(None));
    assert!(!clean.contains("jane.doe@acme.com"));
    assert!(!clean.contains("4111"));
    assert!(clean.contains("<EMAIL_ADDRESS>"));
    assert!(clean.contains("<CREDIT_CARD>"));
}

#[test]
fn integration_luhn_rejects_invalid_card() {
    let analyzer = AnalyzerEngine::new();
    let text = "bad card 4111 1111 1111 1112 here";
    let results = analyzer.analyze(text, None);
    assert!(!results
        .iter()
        .any(|r| r.entity_type == EntityType::CreditCard));
}

#[test]
fn context_word_boosts_ssn_score() {
    let analyzer = AnalyzerEngine::new();
    let results = analyzer.analyze("SSN: 123-45-6789", None);
    let ssn = results
        .iter()
        .find(|r| r.entity_type == EntityType::Ssn)
        .expect("ssn detected");
    assert!(
        score(ssn.score) >= 0.4,
        "context should lift score, got {}",
        score(ssn.score)
    );
}

#[test]
fn iban_checksum_validates() {
    let analyzer = AnalyzerEngine::new();
    let text = "IBAN GB82WEST12345698765432 please";
    let results = analyzer.analyze(text, None);
    assert!(results
        .iter()
        .any(|r| r.entity_type == EntityType::IbanCode && score(r.score) >= 0.99));
}

#[test]
fn mask_keeps_last_four() {
    let analyzer = AnalyzerEngine::new();
    let text = "card 4111 1111 1111 1111";
    let results = analyzer.analyze(text, None);
    let masked = anonymize(
        text,
        &results,
        &Operator::Mask {
            mask_char: '*',
            keep_last: 4,
        },
    );
    assert!(masked.contains("1111"));
    assert!(masked.contains('*'));
}

#[test]
fn entity_filter_scopes_detection() {
    let analyzer = AnalyzerEngine::new();
    let text = "jane@acme.com and 4111 1111 1111 1111";
    let only_email = analyzer.analyze(text, Some(&[EntityType::Email]));
    assert!(only_email
        .iter()
        .all(|r| r.entity_type == EntityType::Email));
    assert!(!only_email.is_empty());
}

#[test]
fn hash_operator_is_deterministic() {
    let analyzer = AnalyzerEngine::new();
    let text = "contact jane@acme.com";
    let results = analyzer.analyze(text, None);
    let op = Operator::Hash { salt: "s".into() };
    let a = anonymize(text, &results, &op);
    let b = anonymize(text, &results, &op);
    assert_eq!(a, b);
    assert!(!a.contains("jane@acme.com"));
}

#[test]
fn custom_recognizer_via_registry() {
    // An empty registry with a single custom recognizer detects only that entity.
    let mut registry = RecognizerRegistry::empty();
    registry.add(PatternRecognizer {
        entity_type: EntityType::ApiKey,
        patterns: vec![Pattern::new(
            "acme-key",
            r"\bACME-[A-Z0-9]{8}\b",
            0.9f32.to_bits(),
            context_score(0.9).to_bits(),
        )],
        context: &["key", "token"],
        validator: None,
    });
    let analyzer = AnalyzerEngine::with_registry(registry);
    let results = analyzer.analyze("token ACME-12ABCD34 here", None);
    assert_eq!(results.len(), 1);
    assert_eq!(results[0].entity_type, EntityType::ApiKey);
    assert!(score(results[0].score) >= 0.9);
}

#[test]
fn anonymizer_engine_applies_per_entity_operators() {
    let analyzer = AnalyzerEngine::new();
    let text = "jane@acme.com paid with card 4111 1111 1111 1111";
    let results = analyzer.analyze(text, None);

    let engine = AnonymizerEngine::new(Operator::Redact)
        .with_operator(EntityType::Email, Operator::Replace(Some("[email]".into())))
        .with_operator(
            EntityType::CreditCard,
            Operator::Mask {
                mask_char: '#',
                keep_last: 4,
            },
        );
    let out = engine.anonymize(text, &results);

    assert!(out.contains("[email]")); // email -> replace override
    assert!(out.contains("1111")); // card -> mask keeps last 4
    assert!(out.contains('#'));
    assert!(!out.contains("jane@acme.com"));
}

#[test]
fn predefined_registry_is_populated() {
    let registry = RecognizerRegistry::with_predefined();
    assert!(!registry.is_empty());
    assert_eq!(registry.len(), registry.recognizers().len());
}

#[test]
fn readme_example_replaces_email_and_card() {
    let analyzer = AnalyzerEngine::new();
    let text = "Email jane@acme.com about card 4111 1111 1111 1111.";
    let findings = analyzer.analyze(text, None);
    let clean = AnonymizerEngine::new(Operator::Replace(None)).anonymize(text, &findings);
    assert_eq!(clean, "Email <EMAIL_ADDRESS> about card <CREDIT_CARD>.");
}

#[test]
fn legacy_analysis_keeps_highest_of_overlapping_results_in_order() {
    let mut registry = RecognizerRegistry::empty();
    registry.add(PatternRecognizer {
        entity_type: EntityType::ApiKey,
        patterns: vec![Pattern::new("long", r"ABC123", 0.8f32.to_bits(), context_score(0.8).to_bits())],
        context: &[],
        validator: None,
    });
    registry.add(PatternRecognizer {
        entity_type: EntityType::Url,
        patterns: vec![Pattern::new("short", r"ABC", 0.9f32.to_bits(), context_score(0.9).to_bits())],
        context: &[],
        validator: None,
    });
    let results = AnalyzerEngine::with_registry(registry).analyze("ABC123 ABC", None);
    assert_eq!(results.len(), 2);
    assert_eq!((results[0].entity_type, results[0].start, results[0].end), (EntityType::Url, 0, 3));
    assert_eq!((results[1].entity_type, results[1].start, results[1].end), (EntityType::Url, 7, 10));
    for pair in results.windows(2) {
        assert!(pair[0].end <= pair[1].start);
    }
}

#[test]
fn registry_mut_registers_in_place() {
    let mut engine = AnalyzerEngine::new();
    let before = engine.registry().len();
    engine.registry_mut().add(PatternRecognizer {
        entity_type: EntityType::ApiKey,
        patterns: vec![Pattern::new(
            "acme-key",
            r"\bACME-[A-Z0-9]{8}\b",
            0.9f32.to_bits(),
            context_score(0.9).to_bits(),
        )],
        context: &[],
        validator: None,
    });
    assert_eq!(engine.registry().len(), before + 1);
    let found = engine.analyze("key ACME-12ABCD34", Some(&[EntityType::ApiKey]));
    assert_eq!(found.len(), 1);
    assert_eq!((found[0].start, found[0].end), (4, 17));
}

#[test]
fn entity_filter_scopes_report_candidates_and_legacy_results() {
    let analyzer = AnalyzerEngine::new();
    let text = "Mail jane@acme.com, call 555-867-5309, card 4111 1111 1111 1111.";
    let report = analyzer.analyze_report(text, Some(&[EntityType::Email]));
    assert!(!report.candidates().is_empty());
    for finding in report.candidates() {
        assert_eq!(finding.entity().as_str(), "EMAIL_ADDRESS");
    }
    for result in report.legacy_compatible_results() {
        assert_eq!(result.entity_type, EntityType::Email);
    }
}

#[test]
fn nan_pattern_scores_become_invalid_confidence_issues() {
    let nan = f32::NAN.to_bits();
    let pattern = Pattern::try_new("nan-score", r"SECRET", nan, nan).expect("compiles");
    let mut registry = RecognizerRegistry::empty();
    registry.add(PatternRecognizer {
        entity_type: EntityType::ApiKey,
        patterns: vec![pattern],
        context: &[],
        validator: None,
    });
    let analyzer = AnalyzerEngine::with_registry(registry).with_threshold(0);
    let report = analyzer.analyze_report("a SECRET here", None);
    assert!(report.candidates().is_empty());
    assert_eq!(
        report.issues(),
        &[presidio::AnalysisIssue::InvalidConfidence {
            recognizer_index: 0,
            pattern_index: 0,
            value: nan,
        }]
    );
    assert!(analyzer.analyze("a SECRET here", None).is_empty());
}

#[test]
fn report_keeps_within_limits_and_matches_legacy_analysis() {
    let analyzer = AnalyzerEngine::new();
    let text = "Mail jane@acme.com and joe@corp.org, card 4111 1111 1111 1111.";
    let limited = analyzer.analyze_report_with_options(
        text,
        None,
        presidio::AnalysisOptions::default().with_max_candidates(1),
    );
    assert!(limited.candidates().len() <= 1);
    assert!(limited.status().candidate_limit_reached());
    let full = analyzer.analyze_report_with_options(text, None, presidio::AnalysisOptions::default());
    assert!(!full.status().candidate_limit_reached());
    assert_eq!(full.legacy_compatible_results(), analyzer.analyze(text, None).as_slice());
}

#[test]
fn report_candidates_are_sorted_and_inside_the_text() {
    let analyzer = AnalyzerEngine::new();
    let text = "Mail jane@acme.com and joe@corp.org, card 4111 1111 1111 1111, ünïcode café.";
    let report = analyzer.analyze_report_with_options(text, None, presidio::AnalysisOptions::default());
    assert!(report.candidates().len() >= 3);
    for pair in report.candidates().windows(2) {
        let (a, b) = (pair[0].span(), pair[1].span());
        assert!((a.start(), a.end()) <= (b.start(), b.end()));
    }
    for candidate in report.candidates() {
        let span = candidate.span();
        assert!(span.start() < span.end() && span.end() <= text.len());
        assert!(text.is_char_boundary(span.start()) && text.is_char_boundary(span.end()));
    }
    assert!(!report.status().candidate_limit_reached());
    assert!(!report.status().issue_limit_reached());
}
