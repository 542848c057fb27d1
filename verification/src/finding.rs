//! Evidence-bearing findings and the legacy detection result.
use vstd::prelude::*;
use vstd::string::*;

use crate::document::{
    BindingView, DocumentBinding, FindingDocumentError, TextDocument, binding_text_check,
};
use crate::entity::{entity_tag, EntityType};
use crate::text::{blank, is_blank};
use crate::types::{
    span_check, Confidence, ConfidenceError, EntityId, MetadataId, RecognizerId, Span, SpanError,
};

verus! {

/// Version of this analysis engine, recorded in reports and converted findings.
pub const ENGINE_VERSION: &'static str = "0.1.0";

/// Abstract content of an [`Evidence`] item.
pub enum EvidenceView {
    LegacyResult,
    LegacyValidatorAccepted,
    Pattern { pattern_id: Seq<char> },
    Validator { validator_id: Seq<char>, accepted: bool },
    Context { context_id: Seq<char>, distance_bytes: usize, positive: bool },
}

/// Evidence explaining why a recognizer emitted a finding.
#[derive(Debug, PartialEq, Eq)]
#[non_exhaustive]
pub enum Evidence {
    /// Finding converted from the legacy result contract.
    LegacyResult,
    /// A legacy checksum validator accepted the match.
    LegacyValidatorAccepted,
    /// A named pattern matched. Matched plaintext is intentionally omitted.
    Pattern { pattern_id: MetadataId },
    /// A checksum or structural validator produced a decision.
    Validator { validator_id: MetadataId, accepted: bool },
    /// Nearby context influenced the score.
    Context { context_id: MetadataId, distance_bytes: usize, positive: bool },
}

impl View for Evidence {
    type V = EvidenceView;

    open spec fn view(&self) -> EvidenceView {
        match self {
            Evidence::LegacyResult => EvidenceView::LegacyResult,
            Evidence::LegacyValidatorAccepted => EvidenceView::LegacyValidatorAccepted,
            Evidence::Pattern { pattern_id } => EvidenceView::Pattern { pattern_id: pattern_id@ },
            Evidence::Validator { validator_id, accepted } => EvidenceView::Validator {
                validator_id: validator_id@,
                accepted: *accepted,
            },
            Evidence::Context { context_id, distance_bytes, positive } => EvidenceView::Context {
                context_id: context_id@,
                distance_bytes: *distance_bytes,
                positive: *positive,
            },
        }
    }
}

impl Evidence {
    /// Whether two evidence items are the same.
    pub fn same_as(&self, other: &Evidence) -> (r: bool)
        ensures
            r == (self@ == other@),
    {
        match (self, other) {
            (Evidence::LegacyResult, Evidence::LegacyResult) => true,
            (Evidence::LegacyValidatorAccepted, Evidence::LegacyValidatorAccepted) => true,
            (Evidence::Pattern { pattern_id: a }, Evidence::Pattern { pattern_id: b }) => a.same_as(
                b,
            ),
            (
                Evidence::Validator { validator_id: a, accepted: x },
                Evidence::Validator { validator_id: b, accepted: y },
            ) => a.same_as(b) && *x == *y,
            (
                Evidence::Context { context_id: a, distance_bytes: d, positive: p },
                Evidence::Context { context_id: b, distance_bytes: e, positive: q },
            ) => a.same_as(b) && *d == *e && *p == *q,
            _ => false,
        }
    }
}

impl Clone for Evidence {
    fn clone(&self) -> (r: Self)
        ensures
            r@ == self@,
    {
        match self {
            Evidence::LegacyResult => Evidence::LegacyResult,
            Evidence::LegacyValidatorAccepted => Evidence::LegacyValidatorAccepted,
            Evidence::Pattern { pattern_id } => Evidence::Pattern { pattern_id: pattern_id.clone() },
            Evidence::Validator { validator_id, accepted } => Evidence::Validator {
                validator_id: validator_id.clone(),
                accepted: *accepted,
            },
            Evidence::Context { context_id, distance_bytes, positive } => Evidence::Context {
                context_id: context_id.clone(),
                distance_bytes: *distance_bytes,
                positive: *positive,
            },
        }
    }
}

/// Views of a sequence of evidence items.
pub open spec fn evidence_views(items: Seq<Evidence>) -> Seq<EvidenceView> {
    items.map_values(|e: Evidence| e@)
}

/// Copy a run of evidence items, keeping their views.
pub fn clone_evidence(items: &[Evidence]) -> (r: Vec<Evidence>)
    ensures
        evidence_views(r@) == evidence_views(items@),
{
    let mut out: Vec<Evidence> = Vec::new();
    let mut i: usize = 0;
    while i < items.len()
        invariant
            i <= items@.len(),
            out@.len() == i,
            forall|j: int| 0 <= j < i ==> (#[trigger] out@[j])@ == items@[j]@,
        decreases items@.len() - i,
    {
        out.push(items[i].clone());
        i = i + 1;
    }
    proof {
        assert(evidence_views(out@) =~= evidence_views(items@));
    }
    out
}

/// Whether two runs of evidence items are the same.
pub fn same_evidence(a: &[Evidence], b: &[Evidence]) -> (r: bool)
    ensures
        r == (evidence_views(a@) == evidence_views(b@)),
{
    if a.len() != b.len() {
        proof {
            if evidence_views(a@) == evidence_views(b@) {
                assert(evidence_views(a@).len() == evidence_views(b@).len());
            }
        }
        return false;
    }
    let mut i: usize = 0;
    while i < a.len()
        invariant
            a@.len() == b@.len(),
            i <= a@.len(),
            forall|j: int| 0 <= j < i ==> a@[j]@ == b@[j]@,
        decreases a@.len() - i,
    {
        if !a[i].same_as(&b[i]) {
            proof {
                if evidence_views(a@) == evidence_views(b@) {
                    assert(evidence_views(a@)[i as int] == evidence_views(b@)[i as int]);
                }
            }
            return false;
        }
        i = i + 1;
    }
    proof {
        assert(evidence_views(a@) =~= evidence_views(b@));
    }
    true
}

/// View of an optional identifier or string.
pub open spec fn opt_id_view(o: Option<RecognizerId>) -> Option<Seq<char>> {
    match o {
        Some(v) => Some(v@),
        None => None,
    }
}

pub open spec fn opt_string_view(o: Option<String>) -> Option<Seq<char>> {
    match o {
        Some(v) => Some(v@),
        None => None,
    }
}

pub open spec fn opt_binding_view(o: Option<DocumentBinding>) -> Option<BindingView> {
    match o {
        Some(v) => Some(v@),
        None => None,
    }
}

/// Abstract content of a [`Finding`].
pub struct FindingView {
    pub entity: Seq<char>,
    pub span: Span,
    pub confidence: Confidence,
    pub recognizer: Option<Seq<char>>,
    pub recognizer_version: Option<Seq<char>>,
    pub evidence: Seq<EvidenceView>,
    pub locale: Option<Seq<char>>,
    pub document: Option<BindingView>,
}

/// The optional metadata text a builder keeps: none when it is blank.
pub open spec fn kept_text(s: Seq<char>) -> Option<Seq<char>> {
    if is_blank(s) {
        None
    } else {
        Some(s)
    }
}

/// Evidence-bearing detection result.
#[derive(Debug, PartialEq)]
pub struct Finding {
    entity: EntityId,
    span: Span,
    confidence: Confidence,
    recognizer: Option<RecognizerId>,
    recognizer_version: Option<String>,
    evidence: Vec<Evidence>,
    locale: Option<String>,
    document: Option<DocumentBinding>,
}

impl View for Finding {
    type V = FindingView;

    closed spec fn view(&self) -> FindingView {
        FindingView {
            entity: self.entity@,
            span: self.span,
            confidence: self.confidence.number(),
            recognizer: opt_id_view(self.recognizer),
            recognizer_version: opt_string_view(self.recognizer_version),
            evidence: evidence_views(self.evidence@),
            locale: opt_string_view(self.locale),
            document: opt_binding_view(self.document),
        }
    }
}

fn keep_text(s: &str) -> (r: Option<String>)
    ensures
        opt_string_view(r) == kept_text(s@),
{
    if blank(s) {
        None
    } else {
        Some(s.to_owned())
    }
}

fn clone_opt_string(o: &Option<String>) -> (r: Option<String>)
    ensures
        opt_string_view(r) == opt_string_view(*o),
{
    match o {
        Some(s) => Some(s.clone()),
        None => None,
    }
}

fn same_opt_string(a: &Option<String>, b: &Option<String>) -> (r: bool)
    ensures
        r == (opt_string_view(*a) == opt_string_view(*b)),
{
    match (a, b) {
        (Some(x), Some(y)) => *x == *y,
        (None, None) => true,
        _ => false,
    }
}

impl Finding {
    /// The confidence as it was given, sign of zero included, in contracts.
    pub closed spec fn spec_confidence(&self) -> Confidence {
        self.confidence
    }

    /// Construct a finding from validated components.
    pub fn new(entity: EntityId, span: Span, confidence: Confidence) -> (r: Finding)
        ensures
            r.spec_confidence() == confidence,
            r@ == (FindingView {
                entity: entity@,
                span,
                confidence: confidence.number(),
                recognizer: None,
                recognizer_version: None,
                evidence: Seq::empty(),
                locale: None,
                document: None,
            }),
    {
        let r = Finding {
            entity,
            span,
            confidence,
            recognizer: None,
            recognizer_version: None,
            evidence: Vec::new(),
            locale: None,
            document: None,
        };
        proof {
            assert(evidence_views(r.evidence@) =~= Seq::empty());
        }
        r
    }

    /// Attach the identity of the recognizer that produced this finding.
    pub fn with_recognizer(self, recognizer: RecognizerId) -> (r: Finding)
        ensures
            r@ == (FindingView { recognizer: Some(recognizer@), ..self@ }),
    {
        Finding { recognizer: Some(recognizer), ..self }
    }

    /// Attach a recognizer version; a blank version is dropped.
    pub fn with_recognizer_version(self, version: &str) -> (r: Finding)
        ensures
            r@ == (FindingView { recognizer_version: kept_text(version@), ..self@ }),
    {
        Finding { recognizer_version: keep_text(version), ..self }
    }

    /// Attach non-plaintext evidence after any already attached.
    pub fn with_evidence(self, evidence: Vec<Evidence>) -> (r: Finding)
        ensures
            r@ == (FindingView {
                evidence: self@.evidence + evidence_views(evidence@),
                ..self@
            }),
    {
        let mut all = self.evidence;
        let ghost before = all@;
        let mut more = evidence;
        let ghost added = more@;
        all.append(&mut more);
        proof {
            assert(evidence_views(all@) =~= evidence_views(before) + evidence_views(added));
        }
        Finding { evidence: all, ..self }
    }

    /// Attach locale metadata; a blank locale is dropped.
    pub fn with_locale(self, locale: &str) -> (r: Finding)
        ensures
            r@ == (FindingView { locale: kept_text(locale@), ..self@ }),
    {
        Finding { locale: keep_text(locale), ..self }
    }

    /// Bind this finding to the exact source it was found in.
    pub fn with_document_binding(self, binding: DocumentBinding) -> (r: Finding)
        ensures
            r@ == (FindingView { document: Some(binding@), ..self@ }),
    {
        Finding { document: Some(binding), ..self }
    }

    /// Detected entity identifier.
    pub fn entity(&self) -> (r: &EntityId)
        ensures
            r@ == self@.entity,
    {
        &self.entity
    }

    /// Original-text byte span.
    pub fn span(&self) -> (r: Span)
        ensures
            r == self@.span,
    {
        self.span
    }

    /// Validated confidence.
    pub fn confidence(&self) -> (r: Confidence)
        ensures
            r == self.spec_confidence(),
            r.number() == self@.confidence,
    {
        self.confidence
    }

    /// Recognizer identifier, when the producing recognizer declared one.
    pub fn recognizer(&self) -> (r: Option<&RecognizerId>)
        ensures
            match r {
                Some(id) => self@.recognizer == Some(id@),
                None => self@.recognizer is None,
            },
    {
        match &self.recognizer {
            Some(id) => Some(id),
            None => None,
        }
    }

    /// Optional recognizer version.
    pub fn recognizer_version(&self) -> (r: Option<&str>)
        ensures
            match r {
                Some(v) => self@.recognizer_version == Some(v@),
                None => self@.recognizer_version is None,
            },
    {
        match &self.recognizer_version {
            Some(v) => Some(v.as_str()),
            None => None,
        }
    }

    /// Non-plaintext evidence.
    pub fn evidence(&self) -> (r: &[Evidence])
        ensures
            evidence_views(r@) == self@.evidence,
    {
        self.evidence.as_slice()
    }

    /// Optional locale metadata.
    pub fn locale(&self) -> (r: Option<&str>)
        ensures
            match r {
                Some(v) => self@.locale == Some(v@),
                None => self@.locale is None,
            },
    {
        match &self.locale {
            Some(v) => Some(v.as_str()),
            None => None,
        }
    }

    /// Exact source binding, for findings produced by document-aware analysis.
    pub fn document_binding(&self) -> (r: Option<&DocumentBinding>)
        ensures
            match r {
                Some(b) => self@.document == Some(b@),
                None => self@.document is None,
            },
    {
        match &self.document {
            Some(b) => Some(b),
            None => None,
        }
    }

    /// Whether two findings are the same in every field.
    pub fn same_as(&self, other: &Finding) -> (r: bool)
        ensures
            r == (self@ == other@),
    {
        let same_recognizer = match (&self.recognizer, &other.recognizer) {
            (Some(a), Some(b)) => a.same_as(b),
            (None, None) => true,
            _ => false,
        };
        let same_document = match (&self.document, &other.document) {
            (Some(a), Some(b)) => a.same_as(b),
            (None, None) => true,
            _ => false,
        };
        let r = self.entity.same_as(&other.entity) && self.span == other.span
            && self.confidence == other.confidence && same_recognizer && same_opt_string(
            &self.recognizer_version,
            &other.recognizer_version,
        ) && same_evidence(self.evidence.as_slice(), other.evidence.as_slice())
            && same_opt_string(&self.locale, &other.locale) && same_document;
        proof {
            self.confidence.lemma_number(other.confidence);
            if self@ == other@ {
                assert(r);
            }
        }
        r
    }

    /// Validate the bound document and slice this finding's source text.
    pub fn slice_document<'a>(&self, document: &TextDocument<'a>) -> (r: Result<
        &'a str,
        FindingDocumentError,
    >)
        ensures
            self@.document is None ==> r == Err::<&str, FindingDocumentError>(
                FindingDocumentError::UnboundFinding,
            ),
            self@.document matches Some(b) ==> (b.id != document.binding_view().id ==> (r matches Err(
                FindingDocumentError::Document(
                    crate::document::DocumentBindingError::IdMismatch { .. },
                ),
            ))),
            self@.document matches Some(b) ==> (b.id == document.binding_view().id
                ==> (binding_text_check(b, document.spec_original()) matches Err(e) ==> r == Err::<
                &str,
                FindingDocumentError,
            >(FindingDocumentError::Document(e)))),
            self@.document matches Some(b) ==> (b.id == document.binding_view().id
                && binding_text_check(b, document.spec_original()) is Ok ==> (span_check(
                document.spec_original(),
                self@.span.spec_start(),
                self@.span.spec_end(),
            ) matches Err(e) ==> r == Err::<&str, FindingDocumentError>(
                FindingDocumentError::Span(e),
            ))),
            r matches Ok(piece) ==> piece.spec_bytes() == document.spec_original().spec_bytes().subrange(
                self@.span.spec_start() as int,
                self@.span.spec_end() as int,
            ),
            (self@.document matches Some(b) && b == document.binding_view() && span_check(
                document.spec_original(),
                self@.span.spec_start(),
                self@.span.spec_end(),
            ) is Ok) ==> r is Ok,
    {
        let binding = match &self.document {
            Some(b) => b,
            None => return Err(FindingDocumentError::UnboundFinding),
        };
        let _ = document.binding();
        if let Err(e) = binding.validate_document(document) {
            return Err(FindingDocumentError::Document(e));
        }
        match document.slice(self.span) {
            Ok(piece) => Ok(piece),
            Err(e) => Err(FindingDocumentError::Span(e)),
        }
    }
}

impl Clone for Finding {
    fn clone(&self) -> (r: Self)
        ensures
            r@ == self@,
    {
        Finding {
            entity: self.entity.clone(),
            span: self.span,
            confidence: self.confidence,
            recognizer: match &self.recognizer {
                Some(id) => Some(id.clone()),
                None => None,
            },
            recognizer_version: clone_opt_string(&self.recognizer_version),
            evidence: clone_evidence(self.evidence.as_slice()),
            locale: clone_opt_string(&self.locale),
            document: match &self.document {
                Some(b) => Some(b.clone()),
                None => None,
            },
        }
    }
}

} // verus!
