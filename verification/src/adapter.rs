//! Running a pattern recognizer through the backend-neutral recognizer interface.
use vstd::prelude::*;
use vstd::string::*;

use crate::analyzer::{candidate_for_match, match_candidates, pattern_candidates, RawCandidate};
use crate::document::TextDocument;
use crate::entity::entity_tag;
use crate::finding::{evidence_views, Evidence, EvidenceView};
use crate::metadata::{MetadataView, RecognizerMetadata};
use crate::recognition::{
    emit_outcome, failure_code, CandidateEmitter, EmitOutcome, EmissionStatus, EmitterView,
    RecognitionError, RecognitionErrorKind, RecognitionErrorView, Recognizer,
};
use crate::recognizer::{
    find_matches, pattern_matches, regex_compiles, well_placed_matches, PatternRecognizer,
};
use crate::request::AnalysisRequest;
use crate::types::{lemma_valid_identifier, valid_identifier, EntityId, MetadataId};

verus! {

/// State of a recognizer run: the emitter, and the run's result once it has stopped.
pub struct RunView {
    pub emitter: EmitterView,
    pub stopped: Option<Option<RecognitionErrorView>>,
}

/// Evidence the adapter attaches to a candidate of a named pattern.
pub open spec fn adapter_evidence(pattern: Seq<char>, accepted: bool) -> Seq<EvidenceView> {
    seq![EvidenceView::Pattern { pattern_id: pattern }] + if accepted {
        seq![EvidenceView::LegacyValidatorAccepted]
    } else {
        Seq::empty()
    }
}

/// The failure reported for a pattern whose name is not a valid identifier.
pub open spec fn configuration_error() -> RecognitionErrorView {
    RecognitionErrorView {
        kind: RecognitionErrorKind::Configuration,
        code: seq![
            'p', 'a', 't', 't', 'e', 'r', 'n', '.', 'i', 'n', 'v', 'a', 'l', 'i', 'd', '-', 'm',
            'e', 't', 'a', 'd', 'a', 't', 'a',
        ],
        retryable: false,
    }
}

/// One candidate of a running recognizer: emit it, and stop at the limit or at a
/// rejected candidate.
pub open spec fn run_step(
    st: RunView,
    text: &str,
    entity: Seq<char>,
    pattern: Seq<char>,
    c: RawCandidate,
) -> RunView {
    if st.stopped is Some {
        st
    } else {
        let (e, o) = emit_outcome(
            st.emitter,
            text,
            entity,
            c.start,
            c.end,
            c.score,
            adapter_evidence(pattern, c.validator_accepted),
        );
        match o {
            EmitOutcome::Accepted => RunView { emitter: e, stopped: None },
            EmitOutcome::LimitReached => RunView { emitter: e, stopped: Some(None) },
            _ => RunView {
                emitter: e,
                stopped: Some(
                    Some(
                        RecognitionErrorView {
                            kind: RecognitionErrorKind::InvalidCandidate,
                            code: failure_code(o),
                            retryable: false,
                        },
                    ),
                ),
            },
        }
    }
}

/// Run through candidates in order.
pub open spec fn run_candidates(
    st: RunView,
    text: &str,
    entity: Seq<char>,
    pattern: Seq<char>,
    cs: Seq<RawCandidate>,
) -> RunView
    decreases cs.len(),
{
    if cs.len() == 0 {
        st
    } else {
        run_step(run_candidates(st, text, entity, pattern, cs.drop_last()), text, entity, pattern, cs.last())
    }
}

/// Run the first `k` patterns of a recognizer over the document text `source`, checking
/// spans against `text`.
pub open spec fn run_patterns(
    st: RunView,
    text: &str,
    source: Seq<char>,
    rec: PatternRecognizer,
    k: int,
) -> RunView
    decreases k,
{
    if k <= 0 {
        st
    } else {
        let before = run_patterns(st, text, source, rec, k - 1);
        let name = rec.patterns@[k - 1].spec_name();
        if before.stopped is Some {
            before
        } else if !valid_identifier(name) {
            RunView { emitter: before.emitter, stopped: Some(Some(configuration_error())) }
        } else {
            run_candidates(
                before,
                text,
                entity_tag(rec.entity_type),
                name,
                pattern_candidates(source, rec, 0, k - 1),
            )
        }
    }
}

/// Running one more candidate is one more step.
proof fn lemma_run_push(
    st: RunView,
    text: &str,
    entity: Seq<char>,
    pattern: Seq<char>,
    cs: Seq<RawCandidate>,
    c: RawCandidate,
)
    ensures
        run_candidates(st, text, entity, pattern, cs.push(c)) == run_step(
            run_candidates(st, text, entity, pattern, cs),
            text,
            entity,
            pattern,
            c,
        ),
{
    assert(cs.push(c).drop_last() =~= cs);
}

/// A stopped run stays as it is over later matches of the same pattern.
proof fn lemma_candidates_stay_stopped(
    st: RunView,
    text: &str,
    entity: Seq<char>,
    pattern: Seq<char>,
    source: Seq<char>,
    rec: PatternRecognizer,
    pi: int,
    ms: Seq<(usize, usize)>,
    k: int,
    n: int,
)
    requires
        0 <= k <= n <= ms.len(),
        run_candidates(st, text, entity, pattern, match_candidates(source, rec, 0, pi, ms, k)).stopped
            is Some,
    ensures
        run_candidates(st, text, entity, pattern, match_candidates(source, rec, 0, pi, ms, n))
            == run_candidates(st, text, entity, pattern, match_candidates(source, rec, 0, pi, ms, k)),
    decreases n - k,
{
    if k < n {
        let cs = match_candidates(source, rec, 0, pi, ms, k);
        match crate::analyzer::match_candidate(source, rec, 0, pi, ms[k]) {
            Some(c) => {
                assert(cs.push(c).drop_last() =~= cs);
            },
            None => {},
        }
        lemma_candidates_stay_stopped(st, text, entity, pattern, source, rec, pi, ms, k + 1, n);
    }
}

/// A stopped run stays as it is over later patterns.
proof fn lemma_patterns_stay_stopped(
    st: RunView,
    text: &str,
    source: Seq<char>,
    rec: PatternRecognizer,
    k: int,
    n: int,
)
    requires
        0 <= k <= n,
        run_patterns(st, text, source, rec, k).stopped is Some,
    ensures
        run_patterns(st, text, source, rec, n) == run_patterns(st, text, source, rec, k),
    decreases n - k,
{
    if k < n {
        lemma_patterns_stay_stopped(st, text, source, rec, k + 1, n);
    }
}

/// The result a stopped (or finished) run gives.
pub open spec fn run_result(stopped: Option<Option<RecognitionErrorView>>) -> Option<
    RecognitionErrorView,
> {
    match stopped {
        Some(Some(e)) => Some(e),
        _ => None,
    }
}

/// The view of a recognizer's result.
pub open spec fn result_view(r: Result<(), RecognitionError>) -> Option<RecognitionErrorView> {
    match r {
        Ok(()) => None,
        Err(e) => Some(e@),
    }
}

/// Borrowed adapter that executes a registered pattern recognizer through the
/// backend-neutral trait.
pub struct PatternRecognizerAdapter<'a> {
    metadata: &'a RecognizerMetadata,
    recognizer: &'a PatternRecognizer,
}

impl<'a> PatternRecognizerAdapter<'a> {
    /// The metadata this adapter reports, in contracts.
    pub closed spec fn spec_metadata(&self) -> &'a RecognizerMetadata {
        self.metadata
    }

    /// The recognizer this adapter runs, in contracts.
    pub closed spec fn spec_recognizer(&self) -> &'a PatternRecognizer {
        self.recognizer
    }

    /// Pair a pattern recognizer with its authoritative metadata.
    pub fn new(metadata: &'a RecognizerMetadata, recognizer: &'a PatternRecognizer) -> (r:
        PatternRecognizerAdapter<'a>)
        ensures
            r.spec_metadata() == metadata,
            r.spec_recognizer() == recognizer,
    {
        PatternRecognizerAdapter { metadata, recognizer }
    }
}

impl<'a> Recognizer for PatternRecognizerAdapter<'a> {
    open spec fn metadata_view(&self) -> MetadataView {
        self.spec_metadata()@
    }

    fn metadata(&self) -> (r: &RecognizerMetadata)
        ensures
            r == self.spec_metadata(),
    {
        self.metadata
    }

    /// Emit the candidates of every pattern in turn, with the pattern's name and the
    /// validator's acceptance as evidence; stop at the emitter's limit, at a rejected
    /// candidate, or at a pattern whose name is not a valid identifier.
    #[verifier::rlimit(50)]
    fn recognize(
        &self,
        document: &TextDocument<'_>,
        request: &AnalysisRequest,
        emitter: &mut CandidateEmitter<'_, '_>,
    ) -> (r: Result<(), RecognitionError>)
        ensures
            final(emitter).spec_text() == old(emitter).spec_text(),
            ({
                let fin = run_patterns(
                    RunView { emitter: old(emitter)@, stopped: None },
                    old(emitter).spec_text(),
                    document.spec_original()@,
                    *self.spec_recognizer(),
                    self.spec_recognizer().patterns@.len() as int,
                );
                &&& final(emitter)@ == fin.emitter
                &&& result_view(r) == run_result(fin.stopped)
            }),
    {
        let rec = self.recognizer;
        let text = document.original();
        let ghost init = RunView { emitter: emitter@, stopped: None };
        let ghost check = emitter.spec_text();
        let mut pi: usize = 0;
        while pi < rec.patterns.len()
            invariant
                pi <= rec.patterns@.len(),
                init == (RunView { emitter: old(emitter)@, stopped: None }),
                check == old(emitter).spec_text(),
                rec == self.spec_recognizer(),
                text == document.spec_original(),
                check == emitter.spec_text(),
                init.stopped is None,
                emitter@ == run_patterns(init, check, text@, *rec, pi as int).emitter,
                run_patterns(init, check, text@, *rec, pi as int).stopped is None,
            decreases rec.patterns@.len() - pi,
        {
            let pattern = &rec.patterns[pi];
            let ghost before = run_patterns(init, check, text@, *rec, pi as int);
            let pattern_id = match MetadataId::new(pattern.name()) {
                Ok(id) => id,
                Err(_) => {
                    proof {
                        reveal_strlit("pattern.invalid-metadata");
                        assert("pattern.invalid-metadata"@ =~= configuration_error().code);
                        lemma_valid_identifier("pattern.invalid-metadata"@);
                    }
                    let code = MetadataId::new("pattern.invalid-metadata").unwrap();
                    proof {
                        lemma_patterns_stay_stopped(
                            init,
                            check,
                            text@,
                            *rec,
                            pi + 1,
                            rec.patterns@.len() as int,
                        );
                    }
                    return Err(RecognitionError::new(RecognitionErrorKind::Configuration, code, false));
                },
            };
            let ms = find_matches(pattern.regex(), text);
            let ghost name = pattern.spec_name();
            proof {
                assert(valid_identifier(name));
            }
            let ghost entity = entity_tag(rec.entity_type);
            let mut k: usize = 0;
            while k < ms.len()
                invariant
                    pi < rec.patterns@.len(),
                    init == (RunView { emitter: old(emitter)@, stopped: None }),
                    check == old(emitter).spec_text(),
                    *pattern == rec.patterns@[pi as int],
                    rec == self.spec_recognizer(),
                    text == document.spec_original(),
                    check == emitter.spec_text(),
                    name == pattern.spec_name(),
                    pattern_id@ == name,
                    valid_identifier(name),
                    entity == entity_tag(rec.entity_type),
                    before == run_patterns(init, check, text@, *rec, pi as int),
                    before.stopped is None,
                    ms@ == pattern_matches(pattern.spec_regex(), text@),
                    regex_compiles(pattern.spec_regex()) ==> well_placed_matches(ms@, text@),
                    k <= ms@.len(),
                    ({
                        let now = run_candidates(
                            before,
                            check,
                            entity,
                            name,
                            match_candidates(text@, *rec, 0, pi as int, ms@, k as int),
                        );
                        &&& emitter@ == now.emitter
                        &&& now.stopped is None
                    }),
                decreases ms@.len() - k,
            {
                let (s, e) = ms[k];
                proof {
                    if !regex_compiles(pattern.spec_regex()) {
                        assert(ms@.len() == 0);
                    }
                    assert(ms@[k as int] == (s, e));
                }
                let ghost cs = match_candidates(text@, *rec, 0, pi as int, ms@, k as int);
                match candidate_for_match(text, rec, 0, pi, s, e) {
                    None => {},
                    Some(c) => {
                        let mut evidence: Vec<Evidence> = Vec::new();
                        evidence.push(Evidence::Pattern { pattern_id: pattern_id.clone() });
                        if c.validator_accepted {
                            evidence.push(Evidence::LegacyValidatorAccepted);
                        }
                        proof {
                            assert(evidence_views(evidence@) =~= adapter_evidence(
                                name,
                                c.validator_accepted,
                            ));
                            assert(match_candidates(text@, *rec, 0, pi as int, ms@, k + 1)
                                == cs.push(c));
                            lemma_run_push(before, check, entity, name, cs, c);
                        }
                        let ghost pre = emitter@;
                        let status = emitter.emit(
                            EntityId::from_entity_type(rec.entity_type),
                            c.start,
                            c.end,
                            c.score,
                            evidence,
                        );
                        match status {
                            Err(error) => {
                                proof {
                                    let now = run_candidates(before, check, entity, name, cs);
                                    assert(now.emitter == pre);
                                    assert(now.stopped is None);
                                    let next = run_step(now, check, entity, name, c);
                                    assert(next.emitter == emitter@);
                                    assert(next.stopped == Some(Some(RecognitionErrorView {
                                        kind: RecognitionErrorKind::InvalidCandidate,
                                        code: crate::recognition::candidate_error_code(error),
                                        retryable: false,
                                    })));
                                    assert(run_candidates(before, check, entity, name, match_candidates(text@, *rec, 0, pi as int, ms@, k + 1)) == next);
                                    lemma_candidates_stay_stopped(
                                        before,
                                        check,
                                        entity,
                                        name,
                                        text@,
                                        *rec,
                                        pi as int,
                                        ms@,
                                        k + 1,
                                        ms@.len() as int,
                                    );
                                    assert(match_candidates(text@, *rec, 0, pi as int, ms@, ms@.len() as int)
                                        == pattern_candidates(text@, *rec, 0, pi as int));
                                    assert(valid_identifier(name));
                                    assert(rec.patterns@[pi as int].spec_name() == name);
                                    assert(run_patterns(init, check, text@, *rec, pi + 1) == run_candidates(
                                        before,
                                        check,
                                        entity,
                                        name,
                                        pattern_candidates(text@, *rec, 0, pi as int),
                                    ));
                                    lemma_patterns_stay_stopped(
                                        init,
                                        check,
                                        text@,
                                        *rec,
                                        pi + 1,
                                        rec.patterns@.len() as int,
                                    );
                                }
                                return Err(RecognitionError::from_candidate(&error));
                            },
                            Ok(EmissionStatus::LimitReached) => {
                                proof {
                                    lemma_candidates_stay_stopped(
                                        before,
                                        check,
                                        entity,
                                        name,
                                        text@,
                                        *rec,
                                        pi as int,
                                        ms@,
                                        k + 1,
                                        ms@.len() as int,
                                    );
                                    assert(match_candidates(text@, *rec, 0, pi as int, ms@, ms@.len() as int)
                                        == pattern_candidates(text@, *rec, 0, pi as int));
                                    assert(valid_identifier(name));
                                    assert(rec.patterns@[pi as int].spec_name() == name);
                                    assert(run_patterns(init, check, text@, *rec, pi + 1) == run_candidates(
                                        before,
                                        check,
                                        entity,
                                        name,
                                        pattern_candidates(text@, *rec, 0, pi as int),
                                    ));
                                    lemma_patterns_stay_stopped(
                                        init,
                                        check,
                                        text@,
                                        *rec,
                                        pi + 1,
                                        rec.patterns@.len() as int,
                                    );
                                }
                                return Ok(());
                            },
                            Ok(EmissionStatus::Accepted) => {},
                        }
                    },
                }
                k = k + 1;
            }
            proof {
                assert(match_candidates(text@, *rec, 0, pi as int, ms@, ms@.len() as int)
                    == pattern_candidates(text@, *rec, 0, pi as int));
            }
            pi = pi + 1;
        }
        Ok(())
    }
}

} // verus!
