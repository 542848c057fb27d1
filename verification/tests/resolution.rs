use presidio::{
    resolve_candidates, Confidence, DocumentBinding, DocumentId, EntityId, Evidence, Finding,
    MetadataId, RecognizerId, ResolutionDecision, ResolutionError, ResolutionOptions,
    ResolutionPolicy, ResolutionReport, ResolvedEntity, ResolvedFinding, Span,
};

fn entity(value: &str) -> EntityId {
    EntityId::new(value).expect("valid entity")
}

fn recognizer(value: &str) -> RecognizerId {
    RecognizerId::new(value).expect("valid recognizer")
}

fn confidence(value: f32) -> Confidence {
    Confidence::from_bits(value.to_bits()).expect("valid confidence")
}

fn finding(name: &str, start: usize, end: usize, score: f32, source: &str) -> Finding {
    Finding::new(
        entity(name),
        Span::new(start, end).expect("valid span"),
        confidence(score),
    )
    .with_recognizer(recognizer(source))
    .with_evidence(vec![Evidence::Pattern {
        pattern_id: MetadataId::new(&format!("pattern.{source}")).expect("valid pattern ID"),
    }])
}

fn bound_finding(
    name: &str,
    start: usize,
    end: usize,
    score: f32,
    source: &str,
    document: &DocumentBinding,
) -> Finding {
    finding(name, start, end, score, source).with_document_binding(document.clone())
}

fn resolve(
    candidates: &[Finding],
    policy: ResolutionPolicy,
) -> Result<ResolutionReport, ResolutionError> {
    resolve_candidates(candidates, &ResolutionOptions::new(policy))
}

fn candidate_ordinals(report: &ResolutionReport) -> Vec<usize> {
    report
        .resolved()
        .iter()
        .map(|resolved| match resolved {
            ResolvedFinding::Candidate { candidate } => *candidate,
            _ => panic!("expected candidate output"),
        })
        .collect()
}

fn union_spans(report: &ResolutionReport) -> Vec<Span> {
    report
        .resolved()
        .iter()
        .map(|resolved| match resolved {
            ResolvedFinding::Union { span, .. } => *span,
            _ => panic!("expected union output"),
        })
        .collect()
}

fn permutations<T: Clone>(values: &[T]) -> Vec<Vec<T>> {
    fn visit<T: Clone>(remaining: Vec<T>, prefix: Vec<T>, output: &mut Vec<Vec<T>>) {
        if remaining.is_empty() {
            output.push(prefix);
            return;
        }
        for index in 0..remaining.len() {
            let mut next_remaining = remaining.clone();
            let value = next_remaining.remove(index);
            let mut next_prefix = prefix.clone();
            next_prefix.push(value);
            visit(next_remaining, next_prefix, output);
        }
    }

    let mut output = Vec::new();
    visit(values.to_vec(), Vec::new(), &mut output);
    output
}

fn assert_permutation_invariant(candidates: &[Finding], options: &ResolutionOptions) {
    let expected = resolve_candidates(candidates, options).expect("baseline resolution");
    for permutation in permutations(candidates) {
        assert_eq!(
            resolve_candidates(&permutation, options).expect("permutation resolution"),
            expected
        );
    }
}

#[test]
fn report_all_preserves_disjoint_candidates_and_duplicates() {
    let first = finding("A", 0, 4, 0.8, "r1");
    let second = finding("B", 6, 9, 0.7, "r2");
    let report = resolve(
        &[second.clone(), first.clone(), first.clone()],
        ResolutionPolicy::ReportAll,
    )
    .expect("resolution succeeds");

    assert_eq!(report.policy_id(), "report_all");
    assert_eq!(report.policy_version(), 1);
    assert_eq!(report.candidates().len(), 3);
    assert_eq!(candidate_ordinals(&report), vec![0, 1, 2]);
    assert_eq!(
        report.decisions(),
        &[ResolutionDecision::ReportedAll { retained: 3 }]
    );
}

#[test]
fn report_all_filters_by_minimum_confidence() {
    let options = ResolutionOptions::new(ResolutionPolicy::ReportAll)
        .with_minimum_confidence(confidence(0.75));
    let report = resolve_candidates(
        &[finding("A", 0, 4, 0.8, "r1"), finding("B", 6, 9, 0.7, "r2")],
        &options,
    )
    .expect("resolution succeeds");

    assert_eq!(report.candidates().len(), 1);
    assert_eq!(report.candidates()[0].entity().as_str(), "A");
}

#[test]
fn best_candidate_collapses_exact_duplicates() {
    let candidate = finding("A", 0, 4, 0.8, "r1");
    let report = resolve(
        &[candidate.clone(), candidate],
        ResolutionPolicy::BestCandidate,
    )
    .expect("resolution succeeds");

    assert_eq!(candidate_ordinals(&report), vec![0]);
    assert!(report.decisions().iter().any(|decision| matches!(
        decision,
        ResolutionDecision::CollapsedDuplicate {
            candidate: 1,
            retained: 0
        }
    )));
}

#[test]
fn best_candidate_uses_lexical_entity_tie_break_without_priority() {
    let report = resolve(
        &[finding("B", 0, 4, 0.8, "r1"), finding("A", 0, 4, 0.8, "r1")],
        ResolutionPolicy::BestCandidate,
    )
    .expect("resolution succeeds");

    let selected = candidate_ordinals(&report)[0];
    assert_eq!(report.candidates()[selected].entity().as_str(), "A");
}

#[test]
fn best_candidate_honors_entity_priority() {
    let options = ResolutionOptions::new(ResolutionPolicy::BestCandidate)
        .with_entity_priority(vec![entity("B"), entity("A")]);
    let report = resolve_candidates(
        &[finding("A", 0, 4, 0.8, "r1"), finding("B", 0, 4, 0.8, "r1")],
        &options,
    )
    .expect("resolution succeeds");

    let selected = candidate_ordinals(&report)[0];
    assert_eq!(report.candidates()[selected].entity().as_str(), "B");
}

#[test]
fn best_candidate_honors_recognizer_priority() {
    let options = ResolutionOptions::new(ResolutionPolicy::BestCandidate)
        .with_recognizer_priority(vec![recognizer("r2"), recognizer("r1")]);
    let report = resolve_candidates(
        &[finding("A", 0, 4, 0.8, "r1"), finding("A", 0, 4, 0.8, "r2")],
        &options,
    )
    .expect("resolution succeeds");

    let selected = candidate_ordinals(&report)[0];
    assert_eq!(
        report.candidates()[selected]
            .recognizer()
            .expect("recognizer")
            .as_str(),
        "r2"
    );
}

#[test]
fn best_candidate_prefers_confidence_over_containing_span() {
    let report = resolve(
        &[
            finding("OUTER", 0, 10, 0.6, "r1"),
            finding("INNER", 2, 6, 0.9, "r2"),
        ],
        ResolutionPolicy::BestCandidate,
    )
    .expect("resolution succeeds");

    let selected = candidate_ordinals(&report)[0];
    assert_eq!(report.candidates()[selected].entity().as_str(), "INNER");
}

#[test]
fn best_candidate_prefers_longer_span_after_equal_confidence() {
    let report = resolve(
        &[
            finding("OUTER", 0, 10, 0.9, "r1"),
            finding("INNER", 2, 6, 0.9, "r2"),
        ],
        ResolutionPolicy::BestCandidate,
    )
    .expect("resolution succeeds");

    let selected = candidate_ordinals(&report)[0];
    assert_eq!(report.candidates()[selected].entity().as_str(), "OUTER");
}

#[test]
fn best_candidate_handles_partial_intersection() {
    let report = resolve(
        &[
            finding("A", 0, 6, 0.7, "r1"),
            finding("B", 4, 10, 0.8, "r2"),
        ],
        ResolutionPolicy::BestCandidate,
    )
    .expect("resolution succeeds");

    let selected = candidate_ordinals(&report)[0];
    assert_eq!(report.candidates()[selected].entity().as_str(), "B");
}

#[test]
fn best_candidate_keeps_non_overlapping_ends_of_lower_priority_bridge() {
    let report = resolve(
        &[
            finding("A", 0, 5, 0.8, "r1"),
            finding("BRIDGE", 4, 9, 0.7, "r2"),
            finding("C", 8, 12, 0.8, "r3"),
        ],
        ResolutionPolicy::BestCandidate,
    )
    .expect("resolution succeeds");

    let entities: Vec<&str> = candidate_ordinals(&report)
        .into_iter()
        .map(|candidate| report.candidates()[candidate].entity().as_str())
        .collect();
    assert_eq!(entities, vec!["A", "C"]);
}

#[test]
fn best_candidate_high_priority_bridge_rejects_both_ends() {
    let report = resolve(
        &[
            finding("A", 0, 5, 0.8, "r1"),
            finding("BRIDGE", 4, 9, 0.95, "r2"),
            finding("C", 8, 12, 0.8, "r3"),
        ],
        ResolutionPolicy::BestCandidate,
    )
    .expect("resolution succeeds");

    let selected = candidate_ordinals(&report)[0];
    assert_eq!(report.candidates()[selected].entity().as_str(), "BRIDGE");
}

#[test]
fn adjacent_candidates_remain_separate_for_selection_and_union() {
    let candidates = [finding("A", 0, 4, 0.8, "r1"), finding("B", 4, 8, 0.9, "r2")];
    let best = resolve(&candidates, ResolutionPolicy::BestCandidate).expect("best succeeds");
    let conservative = resolve(&candidates, ResolutionPolicy::ConservativeRedaction)
        .expect("conservative succeeds");

    assert_eq!(best.resolved().len(), 2);
    assert_eq!(
        union_spans(&conservative),
        vec![Span::new(0, 4).unwrap(), Span::new(4, 8).unwrap()]
    );
}

#[test]
fn conservative_unions_containment_as_mixed() {
    let report = resolve(
        &[
            finding("OUTER", 0, 10, 0.6, "r1"),
            finding("INNER", 2, 6, 0.9, "r2"),
        ],
        ResolutionPolicy::ConservativeRedaction,
    )
    .expect("resolution succeeds");

    assert_eq!(union_spans(&report), vec![Span::new(0, 10).unwrap()]);
    assert!(matches!(
        &report.resolved()[0],
        ResolvedFinding::Union {
            entity: ResolvedEntity::Mixed,
            candidates,
            ..
        } if candidates == &vec![0, 1]
    ));
}

#[test]
fn conservative_preserves_single_entity_identity() {
    let report = resolve(
        &[
            finding("A", 0, 6, 0.7, "r1"),
            finding("A", 4, 10, 0.8, "r2"),
        ],
        ResolutionPolicy::ConservativeRedaction,
    )
    .expect("resolution succeeds");

    assert!(matches!(
        &report.resolved()[0],
        ResolvedFinding::Union {
            entity: ResolvedEntity::Single(value),
            ..
        } if value.as_str() == "A"
    ));
}

#[test]
fn conservative_unions_chained_overlap_component() {
    let report = resolve(
        &[
            finding("A", 0, 5, 0.8, "r1"),
            finding("B", 4, 9, 0.7, "r2"),
            finding("C", 8, 12, 0.8, "r3"),
        ],
        ResolutionPolicy::ConservativeRedaction,
    )
    .expect("resolution succeeds");

    assert_eq!(union_spans(&report), vec![Span::new(0, 12).unwrap()]);
}

#[test]
fn open_entity_identifiers_resolve_normally() {
    let report = resolve(
        &[
            finding("customer.secret", 0, 5, 0.9, "custom.one"),
            finding("tenant.reference", 3, 8, 0.8, "custom.two"),
        ],
        ResolutionPolicy::ConservativeRedaction,
    )
    .expect("resolution succeeds");

    assert!(matches!(
        &report.resolved()[0],
        ResolvedFinding::Union {
            entity: ResolvedEntity::Mixed,
            ..
        }
    ));
}

#[test]
fn matching_document_binding_is_preserved() {
    let document = DocumentBinding::for_text(DocumentId::new("doc-1").unwrap(), "abcdefghij");
    let report = resolve(
        &[
            bound_finding("A", 0, 6, 0.7, "r1", &document),
            bound_finding("B", 4, 10, 0.8, "r2", &document),
        ],
        ResolutionPolicy::ConservativeRedaction,
    )
    .expect("resolution succeeds");

    assert_eq!(report.document_binding(), Some(&document));
    assert_eq!(
        report.resolved()[0].document_binding(report.candidates()),
        Some(&document)
    );
}

#[test]
fn different_document_bindings_are_rejected() {
    let first = DocumentBinding::for_text(DocumentId::new("doc-1").unwrap(), "abcdefghij");
    let second = DocumentBinding::for_text(DocumentId::new("doc-2").unwrap(), "abcdefghij");
    assert_eq!(
        resolve(
            &[
                bound_finding("A", 0, 6, 0.7, "r1", &first),
                bound_finding("B", 4, 10, 0.8, "r2", &second),
            ],
            ResolutionPolicy::BestCandidate,
        ),
        Err(ResolutionError::InconsistentDocumentBinding)
    );
}

#[test]
fn mixed_bound_and_unbound_candidates_are_rejected() {
    let document = DocumentBinding::for_text(DocumentId::new("doc-1").unwrap(), "abcdefghij");
    assert_eq!(
        resolve(
            &[
                bound_finding("A", 0, 6, 0.7, "r1", &document),
                finding("B", 4, 10, 0.8, "r2"),
            ],
            ResolutionPolicy::BestCandidate,
        ),
        Err(ResolutionError::InconsistentDocumentBinding)
    );
}

#[test]
fn empty_candidate_set_returns_complete_empty_output() {
    for policy in [
        ResolutionPolicy::ReportAll,
        ResolutionPolicy::BestCandidate,
        ResolutionPolicy::ConservativeRedaction,
    ] {
        let report = resolve(&[], policy).expect("empty resolution succeeds");
        assert!(report.candidates().is_empty());
        assert!(report.resolved().is_empty());
        assert!(report.status().output_complete());
    }
}

#[test]
fn candidate_limit_is_a_hard_error() {
    let options = ResolutionOptions::new(ResolutionPolicy::ReportAll).with_max_candidates(1);
    assert_eq!(
        resolve_candidates(
            &[finding("A", 0, 2, 0.8, "r1"), finding("B", 3, 5, 0.8, "r2"),],
            &options,
        ),
        Err(ResolutionError::CandidateLimitExceeded {
            actual: 2,
            maximum: 1
        })
    );
}

#[test]
fn resolved_limit_is_a_hard_error() {
    let options = ResolutionOptions::new(ResolutionPolicy::ReportAll).with_max_resolved(1);
    assert_eq!(
        resolve_candidates(
            &[finding("A", 0, 2, 0.8, "r1"), finding("B", 3, 5, 0.8, "r2"),],
            &options,
        ),
        Err(ResolutionError::ResolvedLimitExceeded {
            required: 2,
            maximum: 1
        })
    );
}

#[test]
fn decision_limit_truncates_evidence_not_output() {
    let options = ResolutionOptions::new(ResolutionPolicy::BestCandidate).with_max_decisions(0);
    let report = resolve_candidates(
        &[finding("A", 0, 2, 0.8, "r1"), finding("B", 3, 5, 0.8, "r2")],
        &options,
    )
    .expect("resolution succeeds");

    assert_eq!(report.resolved().len(), 2);
    assert!(report.decisions().is_empty());
    assert!(report.status().decision_limit_reached());
    assert!(report.status().output_complete());
    assert!(!report.status().decision_evidence_complete());
}

#[test]
fn input_candidates_are_not_mutated() {
    let candidates = vec![
        finding("B", 4, 10, 0.8, "r2"),
        finding("A", 0, 6, 0.7, "r1"),
    ];
    let before = candidates.clone();
    let _ = resolve(&candidates, ResolutionPolicy::ConservativeRedaction)
        .expect("resolution succeeds");
    assert_eq!(candidates, before);
}

#[test]
fn policies_are_invariant_across_input_permutations() {
    let candidates = vec![
        finding("A", 0, 5, 0.8, "r1"),
        finding("BRIDGE", 4, 9, 0.7, "r2"),
        finding("C", 8, 12, 0.8, "r3"),
    ];

    for policy in [
        ResolutionPolicy::ReportAll,
        ResolutionPolicy::BestCandidate,
        ResolutionPolicy::ConservativeRedaction,
    ] {
        assert_permutation_invariant(&candidates, &ResolutionOptions::new(policy));
    }
}

#[test]
fn unicode_aligned_byte_spans_resolve_without_coordinate_changes() {
    let report = resolve(
        &[finding("A", 1, 3, 0.8, "r1"), finding("B", 3, 4, 0.8, "r2")],
        ResolutionPolicy::ReportAll,
    )
    .expect("resolution succeeds");
    assert_eq!(report.candidates()[0].span(), Span::new(1, 3).unwrap());
    assert_eq!(report.candidates()[1].span(), Span::new(3, 4).unwrap());
}

#[test]
fn conservative_unions_cover_each_candidate_once_without_overlap() {
    let candidates = vec![
        finding("C", 8, 12, 0.8, "r3"),
        finding("D", 20, 25, 0.6, "r4"),
        finding("A", 0, 5, 0.8, "r1"),
        finding("BRIDGE", 4, 9, 0.7, "r2"),
    ];
    let report = resolve(&candidates, ResolutionPolicy::ConservativeRedaction).expect("resolves");
    let covered: Vec<usize> = report
        .resolved()
        .iter()
        .flat_map(|resolved| resolved.candidates().to_vec())
        .collect();
    assert_eq!(covered, vec![0, 1, 2, 3]);
    let spans = union_spans(&report);
    assert_eq!(spans, vec![Span::new(0, 12).unwrap(), Span::new(20, 25).unwrap()]);
    for (resolved, span) in report.resolved().iter().zip(spans.iter()) {
        for &ordinal in resolved.candidates() {
            let member = report.candidates()[ordinal].span();
            assert!(span.start() <= member.start() && member.end() <= span.end());
        }
    }
    assert!(spans[0].end() <= spans[1].start());
}

#[test]
fn best_candidate_accounts_for_every_rejected_candidate() {
    let candidates = vec![
        finding("BRIDGE", 4, 9, 0.7, "r2"),
        finding("A", 0, 5, 0.8, "r1"),
        finding("C", 8, 12, 0.8, "r3"),
        finding("A", 0, 5, 0.8, "r1"),
    ];
    let report = resolve(&candidates, ResolutionPolicy::BestCandidate).expect("resolves");
    let retained = candidate_ordinals(&report);
    let snapshot = report.candidates();
    for (k, candidate) in snapshot.iter().enumerate() {
        let accounted = retained.iter().any(|&p| {
            let kept = &snapshot[p];
            p == k
                || kept == candidate
                || (kept.span().start() < candidate.span().end()
                    && candidate.span().start() < kept.span().end())
        });
        assert!(accounted, "candidate {k} is neither retained nor in conflict with a retained one");
    }
    for pair in retained.windows(2) {
        let (a, b) = (snapshot[pair[0]].span(), snapshot[pair[1]].span());
        assert!(a.end() <= b.start() || b.end() <= a.start());
    }
}

#[test]
fn tied_findings_fail_alike_in_every_order() {
    let candidates = vec![
        finding("A", 0, 5, 0.8, "r1").with_locale("en"),
        finding("A", 0, 5, 0.8, "r1").with_locale("de"),
        finding("B", 3, 9, 0.7, "r2"),
        finding("C", 20, 25, 0.6, "r3"),
    ];
    for (policy, required) in [
        (ResolutionPolicy::ReportAll, 4),
        (ResolutionPolicy::BestCandidate, 2),
        (ResolutionPolicy::ConservativeRedaction, 2),
    ] {
        let options = ResolutionOptions::new(policy).with_max_resolved(1);
        let expected = ResolutionError::ResolvedLimitExceeded { required, maximum: 1 };
        for permutation in permutations(&candidates) {
            assert_eq!(resolve_candidates(&permutation, &options).unwrap_err(), expected);
        }
    }
}

#[test]
fn tied_findings_kept_in_order_resolve_alike() {
    let en = finding("A", 0, 5, 0.8, "r1").with_locale("en");
    let de = finding("A", 0, 5, 0.8, "r1").with_locale("de");
    let other = finding("B", 3, 9, 0.7, "r2");
    for policy in [
        ResolutionPolicy::ReportAll,
        ResolutionPolicy::BestCandidate,
        ResolutionPolicy::ConservativeRedaction,
    ] {
        let options = ResolutionOptions::new(policy);
        let first = resolve_candidates(&[en.clone(), de.clone(), other.clone()], &options)
            .expect("resolution succeeds");
        assert_eq!(first.candidates()[0].locale(), Some("en"));
        assert_eq!(
            resolve_candidates(&[other.clone(), en.clone(), de.clone()], &options)
                .expect("resolution succeeds"),
            first
        );
        assert_eq!(
            resolve_candidates(&[en.clone(), other.clone(), de.clone()], &options)
                .expect("resolution succeeds"),
            first
        );
        let swapped = resolve_candidates(&[de.clone(), en.clone(), other.clone()], &options)
            .expect("resolution succeeds");
        assert_eq!(swapped.candidates()[0].locale(), Some("de"));
    }
}
