//! Bounded, candidate-preserving analysis reports.
use vstd::prelude::*;

use crate::document::{
    binding_text_check, BindingView, DocumentBinding, DocumentBindingError, FindingDocumentError,
    TextDocument,
};
use crate::finding::{opt_binding_view, Finding, FindingView};
use crate::metadata::{MetadataView, RecognizerMetadata};
use crate::resolution::finding_views;
use crate::result::RecognizerResult;
use crate::types::{span_check, RecognizerId};

verus! {

/// Default maximum number of accepted raw candidates processed by a report.
pub const DEFAULT_REPORT_CANDIDATE_LIMIT: usize = 10_000;

/// Default maximum number of detailed report-construction issues retained.
pub const DEFAULT_REPORT_ISSUE_LIMIT: usize = 100;

/// Resource limits for report-oriented analysis.
#[derive(Debug, Clone, Copy, PartialEq, Eq, Structural)]
pub struct AnalysisOptions {
    max_candidates: usize,
    max_issues: usize,
}

impl AnalysisOptions {
    /// Limit on accepted candidates, in contracts.
    pub closed spec fn spec_max_candidates(self) -> usize {
        self.max_candidates
    }

    /// Limit on retained issues, in contracts.
    pub closed spec fn spec_max_issues(self) -> usize {
        self.max_issues
    }

    /// Set the maximum accepted candidates processed before deterministic truncation.
    pub fn with_max_candidates(self, maximum: usize) -> (r: AnalysisOptions)
        ensures
            r.spec_max_candidates() == maximum,
            r.spec_max_issues() == self.spec_max_issues(),
    {
        AnalysisOptions { max_candidates: maximum, max_issues: self.max_issues }
    }

    /// Set the maximum detailed issues retained before deterministic truncation.
    pub fn with_max_issues(self, maximum: usize) -> (r: AnalysisOptions)
        ensures
            r.spec_max_issues() == maximum,
            r.spec_max_candidates() == self.spec_max_candidates(),
    {
        AnalysisOptions { max_candidates: self.max_candidates, max_issues: maximum }
    }

    /// Maximum accepted candidates processed by the report path.
    pub fn max_candidates(self) -> (r: usize)
        ensures
            r == self.spec_max_candidates(),
    {
        self.max_candidates
    }

    /// Maximum detailed issues retained by the report path.
    pub fn max_issues(self) -> (r: usize)
        ensures
            r == self.spec_max_issues(),
    {
        self.max_issues
    }
}

impl AnalysisOptions {
    /// The default limits, in contracts.
    pub closed spec fn default_spec() -> AnalysisOptions {
        AnalysisOptions {
            max_candidates: DEFAULT_REPORT_CANDIDATE_LIMIT,
            max_issues: DEFAULT_REPORT_ISSUE_LIMIT,
        }
    }

    /// The default limits are 10 000 candidates and 100 issues.
    pub proof fn lemma_default_spec()
        ensures
            AnalysisOptions::default_spec().spec_max_candidates() == DEFAULT_REPORT_CANDIDATE_LIMIT,
            AnalysisOptions::default_spec().spec_max_issues() == DEFAULT_REPORT_ISSUE_LIMIT,
    {
    }
}

impl Default for AnalysisOptions {
    fn default() -> (r: AnalysisOptions)
        ensures
            r == AnalysisOptions::default_spec(),
            r.spec_max_candidates() == DEFAULT_REPORT_CANDIDATE_LIMIT,
            r.spec_max_issues() == DEFAULT_REPORT_ISSUE_LIMIT,
    {
        AnalysisOptions {
            max_candidates: DEFAULT_REPORT_CANDIDATE_LIMIT,
            max_issues: DEFAULT_REPORT_ISSUE_LIMIT,
        }
    }
}

/// A typed, non-plaintext problem met while constructing validated findings.
#[derive(Debug, Clone, Copy, PartialEq, Eq, Structural)]
#[non_exhaustive]
pub enum AnalysisIssue {
    /// A raw candidate did not produce a source-valid span.
    InvalidSpan { recognizer_index: usize, pattern_index: usize, start: usize, end: usize },
    /// A raw candidate carried a non-finite or out-of-range confidence; `value` is the
    /// bit pattern of its float score.
    InvalidConfidence { recognizer_index: usize, pattern_index: usize, value: u32 },
    /// A pattern name could not be represented as bounded evidence metadata.
    InvalidPatternMetadata { recognizer_index: usize, pattern_index: usize },
}

/// Whether report processing reached configured resource limits.
#[derive(Debug, Clone, Copy, PartialEq, Eq, Structural)]
pub struct AnalysisStatus {
    candidate_limit_reached: bool,
    issue_limit_reached: bool,
}

impl AnalysisStatus {
    /// Whether candidate collection stopped at its limit, in contracts.
    pub closed spec fn spec_candidate_limit_reached(self) -> bool {
        self.candidate_limit_reached
    }

    /// Whether issue details were suppressed at their limit, in contracts.
    pub closed spec fn spec_issue_limit_reached(self) -> bool {
        self.issue_limit_reached
    }

    pub(crate) fn new(candidate_limit_reached: bool, issue_limit_reached: bool) -> (r: AnalysisStatus)
        ensures
            r.spec_candidate_limit_reached() == candidate_limit_reached,
            r.spec_issue_limit_reached() == issue_limit_reached,
    {
        AnalysisStatus { candidate_limit_reached, issue_limit_reached }
    }

    /// Whether candidate collection stopped at the configured limit.
    pub fn candidate_limit_reached(self) -> (r: bool)
        ensures
            r == self.spec_candidate_limit_reached(),
    {
        self.candidate_limit_reached
    }

    /// Whether additional issue details were suppressed at the configured limit.
    pub fn issue_limit_reached(self) -> (r: bool)
        ensures
            r == self.spec_issue_limit_reached(),
    {
        self.issue_limit_reached
    }

    /// Whether either report collection reached a configured limit.
    pub fn was_truncated(self) -> (r: bool)
        ensures
            r == (self.spec_candidate_limit_reached() || self.spec_issue_limit_reached()),
    {
        self.candidate_limit_reached || self.issue_limit_reached
    }
}

/// Abstract content of an [`AnalysisReport`].
pub struct AnalysisReportView {
    pub engine_version: Seq<char>,
    pub document: Option<BindingView>,
    pub candidates: Seq<FindingView>,
    pub recognizers: Seq<MetadataView>,
    pub legacy_compatible_results: Seq<RecognizerResult>,
    pub issues: Seq<AnalysisIssue>,
    pub status: AnalysisStatus,
}

/// Views of a run of recognizer metadata.
pub open spec fn metadata_views(s: Seq<RecognizerMetadata>) -> Seq<MetadataView> {
    s.map_values(|m: RecognizerMetadata| m@)
}

/// Candidate-preserving analysis output.
///
/// `candidates` holds validated findings before thresholding or overlap resolution;
/// `legacy_compatible_results` applies the legacy analyzer policy to the same bounded
/// raw candidate stream; `document` is the exact source binding of document-aware
/// analysis, absent for string-only analysis.
#[derive(Debug, PartialEq)]
pub struct AnalysisReport {
    engine_version: &'static str,
    document: Option<DocumentBinding>,
    candidates: Vec<Finding>,
    recognizers: Vec<RecognizerMetadata>,
    legacy_compatible_results: Vec<RecognizerResult>,
    issues: Vec<AnalysisIssue>,
    status: AnalysisStatus,
}

impl View for AnalysisReport {
    type V = AnalysisReportView;

    closed spec fn view(&self) -> AnalysisReportView {
        AnalysisReportView {
            engine_version: self.engine_version@,
            document: opt_binding_view(self.document),
            candidates: finding_views(self.candidates@),
            recognizers: metadata_views(self.recognizers@),
            legacy_compatible_results: self.legacy_compatible_results@,
            issues: self.issues@,
            status: self.status,
        }
    }
}

/// A candidate that is bound to the document `binding` and whose span is valid for `text`.
pub open spec fn candidate_fits(c: FindingView, binding: BindingView, text: &str) -> bool {
    &&& c.document == Some(binding)
    &&& span_check(text, c.span.spec_start(), c.span.spec_end()) is Ok
}

impl AnalysisReport {
    pub(crate) fn new(
        engine_version: &'static str,
        document: Option<DocumentBinding>,
        candidates: Vec<Finding>,
        recognizers: Vec<RecognizerMetadata>,
        legacy_compatible_results: Vec<RecognizerResult>,
        issues: Vec<AnalysisIssue>,
        status: AnalysisStatus,
    ) -> (r: AnalysisReport)
        ensures
            r@ == (AnalysisReportView {
                engine_version: engine_version@,
                document: opt_binding_view(document),
                candidates: finding_views(candidates@),
                recognizers: metadata_views(recognizers@),
                legacy_compatible_results: legacy_compatible_results@,
                issues: issues@,
                status,
            }),
    {
        AnalysisReport {
            engine_version,
            document,
            candidates,
            recognizers,
            legacy_compatible_results,
            issues,
            status,
        }
    }

    /// Version of the library engine that constructed this report.
    pub fn engine_version(&self) -> (r: &'static str)
        ensures
            r@ == self@.engine_version,
    {
        self.engine_version
    }

    /// Exact source binding of document-aware analysis; none for string-only analysis.
    pub fn document_binding(&self) -> (r: Option<&DocumentBinding>)
        ensures
            r matches Some(b) ==> self@.document == Some(b@),
            r is None ==> self@.document is None,
    {
        self.document.as_ref()
    }

    /// Validated findings before thresholding or overlap resolution.
    pub fn candidates(&self) -> (r: &[Finding])
        ensures
            finding_views(r@) == self@.candidates,
    {
        self.candidates.as_slice()
    }

    /// Metadata snapshots for authoritative recognizers represented in this report.
    pub fn recognizers(&self) -> (r: &[RecognizerMetadata])
        ensures
            metadata_views(r@) == self@.recognizers,
    {
        self.recognizers.as_slice()
    }

    /// Find authoritative metadata by stable recognizer identifier: the first entry
    /// with that identifier.
    pub fn recognizer_metadata(&self, id: &RecognizerId) -> (r: Option<&RecognizerMetadata>)
        ensures
            r matches Some(m) ==> exists|k: int|
                0 <= k < self@.recognizers.len() && self@.recognizers[k] == m@ && m@.id == id@
                    && forall|j: int| 0 <= j < k ==> (#[trigger] self@.recognizers[j]).id != id@,
            r is None ==> forall|k: int|
                0 <= k < self@.recognizers.len() ==> (#[trigger] self@.recognizers[k]).id != id@,
    {
        let mut i: usize = 0;
        while i < self.recognizers.len()
            invariant
                i <= self.recognizers@.len(),
                forall|j: int| 0 <= j < i ==> (#[trigger] self.recognizers@[j])@.id != id@,
            decreases self.recognizers@.len() - i,
        {
            if self.recognizers[i].id().same_as(id) {
                proof {
                    assert(self@.recognizers[i as int] == self.recognizers@[i as int]@);
                    assert forall|j: int| 0 <= j < i implies (#[trigger] self@.recognizers[j]).id
                        != id@ by {
                        assert(self@.recognizers[j] == self.recognizers@[j]@);
                    }
                }
                return Some(&self.recognizers[i]);
            }
            i = i + 1;
        }
        proof {
            assert forall|k: int| 0 <= k < self@.recognizers.len() implies (
            #[trigger] self@.recognizers[k]).id != id@ by {
                assert(self@.recognizers[k] == self.recognizers@[k]@);
            }
        }
        None
    }

    /// Legacy analyzer semantics projected from the same bounded raw candidates.
    pub fn legacy_compatible_results(&self) -> (r: &[RecognizerResult])
        ensures
            r@ == self@.legacy_compatible_results,
    {
        self.legacy_compatible_results.as_slice()
    }

    /// Typed non-fatal report-construction issues.
    pub fn issues(&self) -> (r: &[AnalysisIssue])
        ensures
            r@ == self@.issues,
    {
        self.issues.as_slice()
    }

    /// Whether at least one detailed issue was retained.
    pub fn has_issues(&self) -> (r: bool)
        ensures
            r == (self@.issues.len() > 0),
    {
        self.issues.len() > 0
    }

    /// Resource-limit status for this analysis.
    pub fn status(&self) -> (r: AnalysisStatus)
        ensures
            r == self@.status,
    {
        self.status
    }

    /// Validate this report against an exact source document: the report must be
    /// bound to it, and every candidate must be bound to it with a span valid for it.
    pub fn validate_for_document(&self, document: &TextDocument<'_>) -> (r: Result<
        (),
        ReportDocumentError,
    >)
        ensures
            self@.document is None ==> r == Err::<(), ReportDocumentError>(
                ReportDocumentError::UnboundReport,
            ),
            self@.document matches Some(b) ==> (b.id != document.binding_view().id ==> (r matches Err(
                ReportDocumentError::Document(DocumentBindingError::IdMismatch { .. }),
            ))),
            self@.document matches Some(b) ==> (b.id == document.binding_view().id ==> (
            binding_text_check(b, document.spec_original()) matches Err(e) ==> r == Err::<
                (),
                ReportDocumentError,
            >(ReportDocumentError::Document(e)))),
            self@.document matches Some(b) ==> (b == document.binding_view() ==> (r is Ok <==> forall|
                i: int,
            |
                0 <= i < self@.candidates.len() ==> candidate_fits(
                    #[trigger] self@.candidates[i],
                    b,
                    document.spec_original(),
                ))),
            (self@.document == Some(document.binding_view()) && r is Err) ==> (r matches Err(
                ReportDocumentError::Candidate { .. },
            )),
            r matches Err(ReportDocumentError::Candidate { index, .. }) ==> (self@.document
                == Some(document.binding_view()) && index < self@.candidates.len()
                && !candidate_fits(
                self@.candidates[index as int],
                document.binding_view(),
                document.spec_original(),
            ) && forall|j: int|
                0 <= j < index ==> candidate_fits(
                    #[trigger] self@.candidates[j],
                    document.binding_view(),
                    document.spec_original(),
                )),
    {
        let binding = match &self.document {
            Some(b) => b,
            None => return Err(ReportDocumentError::UnboundReport),
        };
        let _ = document.binding();
        if let Err(e) = binding.validate_document(document) {
            return Err(ReportDocumentError::Document(e));
        }
        proof {
            assert(binding@ == document.binding_view());
        }
        let ghost cands = finding_views(self.candidates@);
        let mut i: usize = 0;
        while i < self.candidates.len()
            invariant
                i <= self.candidates@.len(),
                cands == finding_views(self.candidates@),
                cands == self@.candidates,
                self@.document == Some(document.binding_view()),
                document.binding_view() == crate::document::binding_of(
                    document.binding_view().id,
                    document.spec_original(),
                ),
                forall|j: int|
                    0 <= j < i ==> candidate_fits(
                        #[trigger] cands[j],
                        document.binding_view(),
                        document.spec_original(),
                    ),
            decreases self.candidates@.len() - i,
        {
            let _ = document.binding();
            match self.candidates[i].slice_document(document) {
                Ok(_) => {
                    proof {
                        assert(cands[i as int] == self.candidates@[i as int]@);
                    }
                },
                Err(error) => {
                    proof {
                        assert(cands[i as int] == self.candidates@[i as int]@);
                    }
                    return Err(ReportDocumentError::Candidate { index: i, error });
                },
            }
            i = i + 1;
        }
        Ok(())
    }
}

/// Failure to use an analysis report with an exact source document.
#[derive(Debug, Clone, PartialEq, Eq)]
pub enum ReportDocumentError {
    /// The report came from string-only analysis and holds no document binding.
    UnboundReport,
    /// The supplied document does not match the report's binding.
    Document(DocumentBindingError),
    /// A candidate is not bound to the document or its span is invalid for it.
    Candidate { index: usize, error: FindingDocumentError },
}

} // verus!
