use presidio::{
    AnalysisOptions, AnalysisResolutionError, AnalyzerEngine, DocumentId, ReportDocumentError,
    ResolutionOptions, ResolutionPolicy, ResolvedFinding, TextDocument, ENGINE_VERSION,
};

#[test]
fn request_report_resolves_for_the_exact_document() {
    let document = TextDocument::new(
        DocumentId::new("doc-1").unwrap(),
        "Email jane@example.com and call 202-555-0142.",
    );
    let analysis = AnalyzerEngine::new().analyze_document(&document, None);
    let resolved = analysis
        .resolve_for_document(
            &document,
            &ResolutionOptions::new(ResolutionPolicy::ConservativeRedaction),
        )
        .expect("resolution succeeds");

    assert_eq!(resolved.engine_version(), ENGINE_VERSION);
    assert_eq!(resolved.document_binding(), document.binding());
    assert_eq!(
        resolved.resolution().document_binding(),
        Some(document.binding())
    );
    assert_eq!(resolved.resolution().candidates(), analysis.candidates());
}

#[test]
fn mismatched_document_is_rejected_before_resolution() {
    let original = TextDocument::new(DocumentId::new("doc-1").unwrap(), "Email a@b.com");
    let other = TextDocument::new(DocumentId::new("doc-2").unwrap(), "Email a@b.com");
    let analysis = AnalyzerEngine::new().analyze_document(&original, None);

    assert!(matches!(
        analysis
            .resolve_for_document(&other, &ResolutionOptions::new(ResolutionPolicy::ReportAll)),
        Err(AnalysisResolutionError::ReportDocument(_))
    ));
}

#[test]
fn unbound_legacy_report_cannot_masquerade_as_authoritative() {
    let document = TextDocument::new(DocumentId::new("doc-1").unwrap(), "Email a@b.com");
    let analysis = AnalyzerEngine::new().analyze_report(document.original(), None);

    assert_eq!(
        analysis.resolve_for_document(
            &document,
            &ResolutionOptions::new(ResolutionPolicy::ReportAll)
        ),
        Err(AnalysisResolutionError::ReportDocument(
            ReportDocumentError::UnboundReport
        ))
    );
}

#[test]
fn truncated_candidate_collection_is_rejected() {
    let document =
        TextDocument::new(DocumentId::new("doc-1").unwrap(), "a@b.com c@d.com e@f.com");
    let options = AnalysisOptions::default().with_max_candidates(1);
    let analysis = AnalyzerEngine::new().analyze_document_with_options(&document, None, options);
    assert!(analysis.status().candidate_limit_reached());

    assert_eq!(
        analysis.resolve_for_document(
            &document,
            &ResolutionOptions::new(ResolutionPolicy::ReportAll)
        ),
        Err(AnalysisResolutionError::IncompleteCandidateCollection)
    );
}

#[test]
fn repeated_resolution_preserves_raw_candidates_and_legacy_projection() {
    let document = TextDocument::new(
        DocumentId::new("doc-1").unwrap(),
        "Email jane@example.com and call 202-555-0142.",
    );
    let analyzer = AnalyzerEngine::new();
    let analysis = analyzer.analyze_document(&document, None);
    let candidates = analysis.candidates().to_vec();
    let legacy = analysis.legacy_compatible_results().to_vec();
    let options = ResolutionOptions::new(ResolutionPolicy::BestCandidate);

    let first = analysis
        .resolve_for_document(&document, &options)
        .expect("first resolution succeeds");
    let second = analysis
        .resolve_for_document(&document, &options)
        .expect("second resolution succeeds");

    assert_eq!(first, second);
    assert_eq!(analysis.candidates(), candidates);
    assert_eq!(analysis.legacy_compatible_results(), legacy);
}

#[test]
fn downstream_consumer_can_analyze_validate_and_resolve() {
    let document = TextDocument::new(
        DocumentId::new("downstream-example").expect("valid document ID"),
        "Email jane@example.com or call 202-555-0142.",
    );
    let analysis = AnalyzerEngine::new().analyze_document(&document, None);
    analysis
        .validate_for_document(&document)
        .expect("matching source document");

    let integrated = analysis
        .resolve_for_document(
            &document,
            &ResolutionOptions::new(ResolutionPolicy::ConservativeRedaction),
        )
        .expect("document-bound resolution");

    assert_eq!(integrated.document_binding(), document.binding());
    assert_eq!(integrated.engine_version(), ENGINE_VERSION);
    assert!(integrated.resolution().status().output_complete());
    assert_eq!(integrated.resolution().candidates(), analysis.candidates());
    assert!(integrated
        .resolution()
        .resolved()
        .iter()
        .all(|finding| matches!(finding, ResolvedFinding::Union { .. })));
}

#[test]
fn downstream_consumer_retains_raw_evidence_across_policies() {
    let document = TextDocument::new(
        DocumentId::new("downstream-example").expect("valid document ID"),
        "Email jane@example.com or call 202-555-0142.",
    );
    let analysis = AnalyzerEngine::new().analyze_document(&document, None);
    let original_candidates = analysis.candidates().to_vec();

    for policy in [
        ResolutionPolicy::ReportAll,
        ResolutionPolicy::BestCandidate,
        ResolutionPolicy::ConservativeRedaction,
    ] {
        let integrated = analysis
            .resolve_for_document(&document, &ResolutionOptions::new(policy))
            .expect("resolution succeeds");
        assert_eq!(integrated.resolution().candidates(), original_candidates);
    }

    assert_eq!(analysis.candidates(), original_candidates);
}
