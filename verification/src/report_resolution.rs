//! Integration between document-aware analysis and pure resolution.
use vstd::prelude::*;

use crate::document::{BindingView, DocumentBinding, DocumentBindingError, TextDocument};
use crate::report::{candidate_fits, AnalysisReport, AnalysisReportView, AnalysisStatus, ReportDocumentError};
use crate::resolution::{
    resolution_error, resolution_report_ok, resolve_candidates, ReportView, ResolutionError,
    ResolutionOptions, ResolutionReport,
};

verus! {

/// Abstract content of a [`ResolvedAnalysisReport`].
pub struct ResolvedAnalysisView {
    pub engine_version: Seq<char>,
    pub document: BindingView,
    pub analysis_status: AnalysisStatus,
    pub analysis_issue_count: usize,
    pub resolution: ReportView,
}

/// Document-validated analysis context paired with one resolution report.
#[derive(Debug, PartialEq)]
pub struct ResolvedAnalysisReport {
    engine_version: &'static str,
    document: DocumentBinding,
    analysis_status: AnalysisStatus,
    analysis_issue_count: usize,
    resolution: ResolutionReport,
}

impl View for ResolvedAnalysisReport {
    type V = ResolvedAnalysisView;

    closed spec fn view(&self) -> ResolvedAnalysisView {
        ResolvedAnalysisView {
            engine_version: self.engine_version@,
            document: self.document@,
            analysis_status: self.analysis_status,
            analysis_issue_count: self.analysis_issue_count,
            resolution: self.resolution@,
        }
    }
}

impl ResolvedAnalysisReport {
    /// Analyzer engine version that produced the source candidate collection.
    pub fn engine_version(&self) -> (r: &'static str)
        ensures
            r@ == self@.engine_version,
    {
        self.engine_version
    }

    /// Exact source binding validated before resolution.
    pub fn document_binding(&self) -> (r: &DocumentBinding)
        ensures
            r@ == self@.document,
    {
        &self.document
    }

    /// Resource status from the source analysis.
    pub fn analysis_status(&self) -> (r: AnalysisStatus)
        ensures
            r == self@.analysis_status,
    {
        self.analysis_status
    }

    /// Number of retained non-fatal analysis issues.
    pub fn analysis_issue_count(&self) -> (r: usize)
        ensures
            r == self@.analysis_issue_count,
    {
        self.analysis_issue_count
    }

    /// Pure versioned resolution output.
    pub fn resolution(&self) -> (r: &ResolutionReport)
        ensures
            r@ == self@.resolution,
    {
        &self.resolution
    }

    /// Consume the integration wrapper and return the pure resolution report.
    pub fn into_resolution(self) -> (r: ResolutionReport)
        ensures
            r@ == self@.resolution,
    {
        self.resolution
    }
}

/// Failure to resolve an analysis report as an authoritative document-bound result.
#[derive(Debug, Clone, PartialEq, Eq)]
#[non_exhaustive]
pub enum AnalysisResolutionError {
    /// The report is unbound, mismatched, or holds a candidate that does not fit the source.
    ReportDocument(ReportDocumentError),
    /// Candidate collection stopped at its configured limit.
    IncompleteCandidateCollection,
    /// Pure resolution failed its configured contract.
    Resolution(ResolutionError),
}

impl From<ReportDocumentError> for AnalysisResolutionError {
    fn from(value: ReportDocumentError) -> (r: AnalysisResolutionError) {
        AnalysisResolutionError::ReportDocument(value)
    }
}

impl vstd::std_specs::convert::FromSpecImpl<ReportDocumentError> for AnalysisResolutionError {
    open spec fn obeys_from_spec() -> bool {
        true
    }

    open spec fn from_spec(v: ReportDocumentError) -> AnalysisResolutionError {
        AnalysisResolutionError::ReportDocument(v)
    }
}

impl From<ResolutionError> for AnalysisResolutionError {
    fn from(value: ResolutionError) -> (r: AnalysisResolutionError) {
        AnalysisResolutionError::Resolution(value)
    }
}

impl vstd::std_specs::convert::FromSpecImpl<ResolutionError> for AnalysisResolutionError {
    open spec fn obeys_from_spec() -> bool {
        true
    }

    open spec fn from_spec(v: ResolutionError) -> AnalysisResolutionError {
        AnalysisResolutionError::Resolution(v)
    }
}

/// A report bound to exactly `document` whose candidates all fit it.
pub open spec fn report_fits(rep: AnalysisReportView, document: TextDocument<'_>) -> bool {
    &&& rep.document == Some(document.binding_view())
    &&& forall|i: int|
        0 <= i < rep.candidates.len() ==> candidate_fits(
            #[trigger] rep.candidates[i],
            document.binding_view(),
            document.spec_original(),
        )
}

impl AnalysisReport {
    /// Validate this report against an exact document and resolve its raw candidates.
    ///
    /// Resolution is refused when candidate collection reached its configured limit.
    /// Issue truncation stays visible through the analysis status but does not alter
    /// the complete candidate collection.
    pub fn resolve_for_document(
        &self,
        document: &TextDocument<'_>,
        options: &ResolutionOptions,
    ) -> (r: Result<ResolvedAnalysisReport, AnalysisResolutionError>)
        ensures
            self@.document is None ==> r == Err::<ResolvedAnalysisReport, AnalysisResolutionError>(
                AnalysisResolutionError::ReportDocument(ReportDocumentError::UnboundReport),
            ),
            (self@.document matches Some(b) && b != document.binding_view()) ==> (r matches Err(
                AnalysisResolutionError::ReportDocument(ReportDocumentError::Document(_)),
            )),
            (self@.document == Some(document.binding_view()) && !report_fits(self@, *document))
                ==> (r matches Err(
                AnalysisResolutionError::ReportDocument(ReportDocumentError::Candidate { .. }),
            )),
            (report_fits(self@, *document) && self@.status.spec_candidate_limit_reached()) ==> r
                == Err::<ResolvedAnalysisReport, AnalysisResolutionError>(
                AnalysisResolutionError::IncompleteCandidateCollection,
            ),
            (report_fits(self@, *document) && !self@.status.spec_candidate_limit_reached()) ==> (
            resolution_error(self@.candidates, options@) matches Some(e) ==> r == Err::<
                ResolvedAnalysisReport,
                AnalysisResolutionError,
            >(AnalysisResolutionError::Resolution(e))),
            (report_fits(self@, *document) && !self@.status.spec_candidate_limit_reached()
                && resolution_error(self@.candidates, options@) is None) ==> (r matches Ok(x)
                && x@.engine_version == self@.engine_version && x@.document
                == document.binding_view() && x@.analysis_status == self@.status
                && x@.analysis_issue_count == self@.issues.len() && resolution_report_ok(
                self@.candidates,
                options@,
                x@.resolution,
            )),
    {
        let binding = document.binding();
        if let Err(e) = self.validate_for_document(document) {
            proof {
                match self@.document {
                    Some(b) => {
                        if b.id == document.binding_view().id && b != document.binding_view() {
                            assert(crate::document::binding_text_check(b, document.spec_original())
                                is Err);
                        }
                    },
                    None => {},
                }
            }
            return Err(AnalysisResolutionError::ReportDocument(e));
        }
        proof {
            match self@.document {
                Some(b) => {
                    if b.id == document.binding_view().id {
                        assert(crate::document::binding_text_check(b, document.spec_original()) is Ok);
                        assert(b == document.binding_view());
                    }
                },
                None => {},
            }
        }
        if self.status().candidate_limit_reached() {
            return Err(AnalysisResolutionError::IncompleteCandidateCollection);
        }
        let resolution = match resolve_candidates(self.candidates(), options) {
            Ok(rep) => rep,
            Err(e) => return Err(AnalysisResolutionError::Resolution(e)),
        };
        Ok(
            ResolvedAnalysisReport {
                engine_version: self.engine_version(),
                document: binding.clone(),
                analysis_status: self.status(),
                analysis_issue_count: self.issues().len(),
                resolution,
            },
        )
    }
}

} // verus!
