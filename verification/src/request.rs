//! Validated request selection and resource limits for document-aware analysis.
use vstd::prelude::*;

use crate::ids::{
    all_distinct, find_repeat, first_repeat, id_views, lemma_first_repeat, contains_id,
};
use crate::metadata::{MetadataView, RecognizerMetadata};
use crate::report::{DEFAULT_REPORT_CANDIDATE_LIMIT, DEFAULT_REPORT_ISSUE_LIMIT};
use crate::score::lemma_unit_interval_bits;
use crate::types::{confidence_check, Confidence, EntityId, MetadataId, RecognizerId};

verus! {

/// Default maximum input size accepted by the request-oriented API: 1 MiB.
pub const DEFAULT_ANALYSIS_INPUT_LIMIT: usize = 1_048_576;

/// Bit pattern of the float `0.3`, the default minimum confidence of a request.
pub const DEFAULT_MINIMUM_CONFIDENCE_BITS: u32 = 0x3e99_999a;

/// Abstract content of an [`AnalysisRequest`].
pub struct RequestView {
    pub entities: Seq<Seq<char>>,
    pub recognizers: Seq<Seq<char>>,
    pub locale: Option<Seq<char>>,
    pub available_capabilities: Seq<Seq<char>>,
    pub minimum_confidence: Confidence,
    pub max_input_bytes: usize,
    pub max_candidates: usize,
    pub max_issues: usize,
}

/// A request whose lists repeat nothing and whose limits are positive.
pub open spec fn request_consistent(q: RequestView) -> bool {
    &&& all_distinct(q.entities)
    &&& all_distinct(q.recognizers)
    &&& all_distinct(q.available_capabilities)
    &&& q.max_input_bytes > 0
    &&& q.max_candidates > 0
    &&& q.max_issues > 0
}

/// Backend-neutral request for document-aware recognition.
#[derive(Debug, PartialEq)]
pub struct AnalysisRequest {
    entities: Vec<EntityId>,
    recognizers: Vec<RecognizerId>,
    locale: Option<MetadataId>,
    available_capabilities: Vec<MetadataId>,
    minimum_confidence: Confidence,
    max_input_bytes: usize,
    max_candidates: usize,
    max_issues: usize,
}

impl View for AnalysisRequest {
    type V = RequestView;

    closed spec fn view(&self) -> RequestView {
        RequestView {
            entities: id_views(self.entities@),
            recognizers: id_views(self.recognizers@),
            locale: crate::ids::opt_id_view(self.locale),
            available_capabilities: id_views(self.available_capabilities@),
            minimum_confidence: self.minimum_confidence,
            max_input_bytes: self.max_input_bytes,
            max_candidates: self.max_candidates,
            max_issues: self.max_issues,
        }
    }
}

/// Whether `q` selects the recognizer described by `m`: it is listed (or, with no list,
/// enabled by default), emits a requested entity, supports the requested locale, and
/// needs no capability the request lacks.
pub open spec fn request_selects(q: RequestView, m: MetadataView) -> bool {
    &&& if q.recognizers.len() == 0 {
        m.default_enabled
    } else {
        q.recognizers.contains(m.id)
    }
    &&& (q.entities.len() == 0 || exists|k: int|
        0 <= k < m.supported_entities.len() && q.entities.contains(
            #[trigger] m.supported_entities[k],
        ))
    &&& (q.locale matches Some(l) ==> (m.supported_locales.len() == 0
        || m.supported_locales.contains(l)))
    &&& forall|k: int|
        0 <= k < m.required_capabilities.len() ==> q.available_capabilities.contains(
            #[trigger] m.required_capabilities[k],
        )
}

impl AnalysisRequest {
    #[verifier::type_invariant]
    closed spec fn consistent(self) -> bool {
        request_consistent(self@)
    }

    /// Construct the default bounded request: every list empty, no locale, minimum
    /// confidence `0.3`, 1 MiB of input, 10 000 candidates and 100 issues.
    pub fn new() -> (r: AnalysisRequest)
        ensures
            r@.entities.len() == 0,
            r@.recognizers.len() == 0,
            r@.locale is None,
            r@.available_capabilities.len() == 0,
            r@.minimum_confidence.spec_bits() == DEFAULT_MINIMUM_CONFIDENCE_BITS,
            r@.max_input_bytes == DEFAULT_ANALYSIS_INPUT_LIMIT,
            r@.max_candidates == DEFAULT_REPORT_CANDIDATE_LIMIT,
            r@.max_issues == DEFAULT_REPORT_ISSUE_LIMIT,
    {
        proof {
            lemma_unit_interval_bits(DEFAULT_MINIMUM_CONFIDENCE_BITS);
        }
        let minimum = Confidence::from_bits(DEFAULT_MINIMUM_CONFIDENCE_BITS).unwrap();
        let entities: Vec<EntityId> = Vec::new();
        let recognizers: Vec<RecognizerId> = Vec::new();
        let available_capabilities: Vec<MetadataId> = Vec::new();
        proof {
            assert(id_views(entities@) =~= Seq::<Seq<char>>::empty());
            assert(id_views(recognizers@) =~= Seq::<Seq<char>>::empty());
            assert(id_views(available_capabilities@) =~= Seq::<Seq<char>>::empty());
        }
        AnalysisRequest {
            entities,
            recognizers,
            locale: None,
            available_capabilities,
            minimum_confidence: minimum,
            max_input_bytes: DEFAULT_ANALYSIS_INPUT_LIMIT,
            max_candidates: DEFAULT_REPORT_CANDIDATE_LIMIT,
            max_issues: DEFAULT_REPORT_ISSUE_LIMIT,
        }
    }

    /// Restrict recognition to these open entity identifiers.
    pub fn with_entities(self, entities: Vec<EntityId>) -> (r: Result<
        AnalysisRequest,
        AnalysisRequestError,
    >)
        ensures
            first_repeat(id_views(entities@)) matches Some(j) ==> (r matches Err(e) && e@ == (
            RequestErrorView::DuplicateEntity { entity: id_views(entities@)[j] })),
            first_repeat(id_views(entities@)) is None ==> (r matches Ok(q) && q@ == (RequestView {
                entities: id_views(entities@),
                ..self@
            })),
    {
        ensure_unique_entities(&entities)?;
        proof {
            use_type_invariant(&self);
            lemma_first_repeat(id_views(entities@));
        }
        let mut q = self;
        q.entities = entities;
        Ok(q)
    }

    /// Explicitly select recognizers by stable identifier.
    ///
    /// When this list is empty, only metadata marked default-enabled is selected.
    pub fn with_recognizers(self, recognizers: Vec<RecognizerId>) -> (r: Result<
        AnalysisRequest,
        AnalysisRequestError,
    >)
        ensures
            first_repeat(id_views(recognizers@)) matches Some(j) ==> (r matches Err(e) && e@ == (
            RequestErrorView::DuplicateRecognizer { recognizer: id_views(recognizers@)[j] })),
            first_repeat(id_views(recognizers@)) is None ==> (r matches Ok(q) && q@ == (
            RequestView { recognizers: id_views(recognizers@), ..self@ })),
    {
        ensure_unique_recognizers(&recognizers)?;
        proof {
            use_type_invariant(&self);
            lemma_first_repeat(id_views(recognizers@));
        }
        let mut q = self;
        q.recognizers = recognizers;
        Ok(q)
    }

    /// Set the requested locale or country identifier.
    pub fn with_locale(self, locale: MetadataId) -> (r: AnalysisRequest)
        ensures
            r@ == (RequestView { locale: Some(locale@), ..self@ }),
    {
        proof {
            use_type_invariant(&self);
        }
        let mut q = self;
        q.locale = Some(locale);
        q
    }

    /// Declare capabilities available to recognizers for this request.
    pub fn with_available_capabilities(self, capabilities: Vec<MetadataId>) -> (r: Result<
        AnalysisRequest,
        AnalysisRequestError,
    >)
        ensures
            first_repeat(id_views(capabilities@)) matches Some(j) ==> (r matches Err(e) && e@ == (
            RequestErrorView::DuplicateCapability { capability: id_views(capabilities@)[j] })),
            first_repeat(id_views(capabilities@)) is None ==> (r matches Ok(q) && q@ == (
            RequestView { available_capabilities: id_views(capabilities@), ..self@ })),
    {
        ensure_unique_capabilities(&capabilities)?;
        proof {
            use_type_invariant(&self);
            lemma_first_repeat(id_views(capabilities@));
        }
        let mut q = self;
        q.available_capabilities = capabilities;
        Ok(q)
    }

    /// Set the minimum confidence used by the legacy-compatible projection.
    pub fn with_minimum_confidence(self, minimum: Confidence) -> (r: AnalysisRequest)
        ensures
            r@ == (RequestView { minimum_confidence: minimum, ..self@ }),
    {
        proof {
            use_type_invariant(&self);
        }
        let mut q = self;
        q.minimum_confidence = minimum;
        q
    }

    /// Set the maximum accepted UTF-8 input length in bytes.
    pub fn with_max_input_bytes(self, maximum: usize) -> (r: Result<
        AnalysisRequest,
        AnalysisRequestError,
    >)
        ensures
            maximum == 0 ==> r == Err::<AnalysisRequest, AnalysisRequestError>(
                AnalysisRequestError::ZeroLimit { dimension: LimitDimension::InputBytes },
            ),
            maximum > 0 ==> (r matches Ok(q) && q@ == (RequestView {
                max_input_bytes: maximum,
                ..self@
            })),
    {
        ensure_nonzero(maximum, LimitDimension::InputBytes)?;
        proof {
            use_type_invariant(&self);
        }
        let mut q = self;
        q.max_input_bytes = maximum;
        Ok(q)
    }

    /// Set the maximum candidate count across all selected recognizers.
    pub fn with_max_candidates(self, maximum: usize) -> (r: Result<
        AnalysisRequest,
        AnalysisRequestError,
    >)
        ensures
            maximum == 0 ==> r == Err::<AnalysisRequest, AnalysisRequestError>(
                AnalysisRequestError::ZeroLimit { dimension: LimitDimension::Candidates },
            ),
            maximum > 0 ==> (r matches Ok(q) && q@ == (RequestView {
                max_candidates: maximum,
                ..self@
            })),
    {
        ensure_nonzero(maximum, LimitDimension::Candidates)?;
        proof {
            use_type_invariant(&self);
        }
        let mut q = self;
        q.max_candidates = maximum;
        Ok(q)
    }

    /// Set the maximum detailed issues retained in the report.
    pub fn with_max_issues(self, maximum: usize) -> (r: Result<
        AnalysisRequest,
        AnalysisRequestError,
    >)
        ensures
            maximum == 0 ==> r == Err::<AnalysisRequest, AnalysisRequestError>(
                AnalysisRequestError::ZeroLimit { dimension: LimitDimension::Issues },
            ),
            maximum > 0 ==> (r matches Ok(q) && q@ == (RequestView {
                max_issues: maximum,
                ..self@
            })),
    {
        ensure_nonzero(maximum, LimitDimension::Issues)?;
        proof {
            use_type_invariant(&self);
        }
        let mut q = self;
        q.max_issues = maximum;
        Ok(q)
    }

    /// Requested entity allowlist. Empty means all declared entities.
    pub fn entities(&self) -> (r: &[EntityId])
        ensures
            id_views(r@) == self@.entities,
            request_consistent(self@),
    {
        proof {
            use_type_invariant(self);
        }
        self.entities.as_slice()
    }

    /// Explicit recognizer allowlist. Empty means default-enabled recognizers.
    pub fn recognizers(&self) -> (r: &[RecognizerId])
        ensures
            id_views(r@) == self@.recognizers,
    {
        self.recognizers.as_slice()
    }

    /// Requested locale or country identifier.
    pub fn locale(&self) -> (r: Option<&MetadataId>)
        ensures
            r matches Some(l) ==> self@.locale == Some(l@),
            r is None ==> self@.locale is None,
    {
        self.locale.as_ref()
    }

    /// Capabilities available for this request.
    pub fn available_capabilities(&self) -> (r: &[MetadataId])
        ensures
            id_views(r@) == self@.available_capabilities,
    {
        self.available_capabilities.as_slice()
    }

    /// Minimum confidence for the compatibility projection.
    pub fn minimum_confidence(&self) -> (r: Confidence)
        ensures
            r == self@.minimum_confidence,
    {
        self.minimum_confidence
    }

    /// Maximum accepted input length in bytes.
    pub fn max_input_bytes(&self) -> (r: usize)
        ensures
            r == self@.max_input_bytes,
            r > 0,
    {
        proof {
            use_type_invariant(self);
        }
        self.max_input_bytes
    }

    /// Maximum candidate count across selected recognizers.
    pub fn max_candidates(&self) -> (r: usize)
        ensures
            r == self@.max_candidates,
            r > 0,
    {
        proof {
            use_type_invariant(self);
        }
        self.max_candidates
    }

    /// Maximum retained issue details.
    pub fn max_issues(&self) -> (r: usize)
        ensures
            r == self@.max_issues,
            r > 0,
    {
        proof {
            use_type_invariant(self);
        }
        self.max_issues
    }

    /// Whether authoritative recognizer metadata is selected and executable.
    pub fn selects(&self, metadata: &RecognizerMetadata) -> (r: bool)
        ensures
            r == request_selects(self@, metadata@),
    {
        if self.recognizers.len() == 0 {
            if !metadata.default_enabled() {
                return false;
            }
        } else if !contains_id(self.recognizers.as_slice(), metadata.id()) {
            return false;
        }
        let supported = metadata.supported_entities();
        if self.entities.len() > 0 && !shares_entity(self.entities.as_slice(), supported) {
            return false;
        }
        if let Some(locale) = &self.locale {
            let locales = metadata.supported_locales();
            if locales.len() > 0 && !contains_id(locales, locale) {
                return false;
            }
        }
        let required = metadata.required_capabilities();
        let mut k: usize = 0;
        while k < required.len()
            invariant
                k <= required@.len(),
                id_views(required@) == metadata@.required_capabilities,
                forall|j: int|
                    0 <= j < k ==> self@.available_capabilities.contains(
                        #[trigger] metadata@.required_capabilities[j],
                    ),
            decreases required@.len() - k,
        {
            proof {
                assert(metadata@.required_capabilities[k as int] == required@[k as int]@);
            }
            if !contains_id(self.available_capabilities.as_slice(), &required[k]) {
                return false;
            }
            k = k + 1;
        }
        true
    }
}

impl Default for AnalysisRequest {
    fn default() -> (r: AnalysisRequest)
        ensures
            r@.entities.len() == 0,
            r@.recognizers.len() == 0,
            r@.locale is None,
            r@.available_capabilities.len() == 0,
            r@.minimum_confidence.spec_bits() == DEFAULT_MINIMUM_CONFIDENCE_BITS,
            r@.max_input_bytes == DEFAULT_ANALYSIS_INPUT_LIMIT,
            r@.max_candidates == DEFAULT_REPORT_CANDIDATE_LIMIT,
            r@.max_issues == DEFAULT_REPORT_ISSUE_LIMIT,
    {
        AnalysisRequest::new()
    }
}

/// Abstract content of an [`AnalysisRequestError`].
pub enum RequestErrorView {
    DuplicateEntity { entity: Seq<char> },
    DuplicateRecognizer { recognizer: Seq<char> },
    DuplicateCapability { capability: Seq<char> },
    ZeroLimit { dimension: LimitDimension },
}

/// Failure to construct a deterministic analysis request.
#[derive(Debug, Clone, PartialEq, Eq)]
pub enum AnalysisRequestError {
    /// An entity appears more than once.
    DuplicateEntity { entity: EntityId },
    /// A recognizer appears more than once.
    DuplicateRecognizer { recognizer: RecognizerId },
    /// A capability appears more than once.
    DuplicateCapability { capability: MetadataId },
    /// A resource limit must be greater than zero.
    ZeroLimit { dimension: LimitDimension },
}

impl View for AnalysisRequestError {
    type V = RequestErrorView;

    open spec fn view(&self) -> RequestErrorView {
        match self {
            AnalysisRequestError::DuplicateEntity { entity } => RequestErrorView::DuplicateEntity {
                entity: entity@,
            },
            AnalysisRequestError::DuplicateRecognizer { recognizer } =>
                RequestErrorView::DuplicateRecognizer { recognizer: recognizer@ },
            AnalysisRequestError::DuplicateCapability { capability } =>
                RequestErrorView::DuplicateCapability { capability: capability@ },
            AnalysisRequestError::ZeroLimit { dimension } => RequestErrorView::ZeroLimit {
                dimension: *dimension,
            },
        }
    }
}

/// Resource dimension associated with an invalid request limit.
#[derive(Debug, Clone, Copy, PartialEq, Eq, Structural)]
pub enum LimitDimension {
    /// Original UTF-8 bytes.
    InputBytes,
    /// Emitted candidates.
    Candidates,
    /// Retained issue details.
    Issues,
}

/// Fatal failure before recognizer execution can produce a report.
#[derive(Debug, Clone, Copy, PartialEq, Eq, Structural)]
pub enum AnalysisExecutionError {
    /// The original document exceeds the request's configured limit.
    InputTooLarge { actual: usize, maximum: usize },
}

/// Whether some identifier of `supported` occurs in `requested`.
fn shares_entity(requested: &[EntityId], supported: &[EntityId]) -> (r: bool)
    ensures
        r == exists|k: int|
            0 <= k < id_views(supported@).len() && id_views(requested@).contains(
                #[trigger] id_views(supported@)[k],
            ),
{
    let mut k: usize = 0;
    while k < supported.len()
        invariant
            k <= supported@.len(),
            forall|j: int|
                0 <= j < k ==> !id_views(requested@).contains(#[trigger] id_views(supported@)[j]),
        decreases supported@.len() - k,
    {
        if contains_id(requested, &supported[k]) {
            proof {
                assert(id_views(supported@)[k as int] == supported@[k as int]@);
            }
            return true;
        }
        proof {
            assert(id_views(supported@)[k as int] == supported@[k as int]@);
        }
        k = k + 1;
    }
    false
}

fn ensure_unique_entities(values: &[EntityId]) -> (r: Result<(), AnalysisRequestError>)
    ensures
        first_repeat(id_views(values@)) matches Some(j) ==> (r matches Err(e) && e@ == (
        RequestErrorView::DuplicateEntity { entity: id_views(values@)[j] })),
        first_repeat(id_views(values@)) is None ==> r is Ok,
{
    proof {
        lemma_first_repeat(id_views(values@));
    }
    match find_repeat(values) {
        Some(j) => Err(AnalysisRequestError::DuplicateEntity { entity: values[j].clone() }),
        None => Ok(()),
    }
}

fn ensure_unique_recognizers(values: &[RecognizerId]) -> (r: Result<(), AnalysisRequestError>)
    ensures
        first_repeat(id_views(values@)) matches Some(j) ==> (r matches Err(e) && e@ == (
        RequestErrorView::DuplicateRecognizer { recognizer: id_views(values@)[j] })),
        first_repeat(id_views(values@)) is None ==> r is Ok,
{
    proof {
        lemma_first_repeat(id_views(values@));
    }
    match find_repeat(values) {
        Some(j) => Err(AnalysisRequestError::DuplicateRecognizer { recognizer: values[j].clone() }),
        None => Ok(()),
    }
}

fn ensure_unique_capabilities(values: &[MetadataId]) -> (r: Result<(), AnalysisRequestError>)
    ensures
        first_repeat(id_views(values@)) matches Some(j) ==> (r matches Err(e) && e@ == (
        RequestErrorView::DuplicateCapability { capability: id_views(values@)[j] })),
        first_repeat(id_views(values@)) is None ==> r is Ok,
{
    proof {
        lemma_first_repeat(id_views(values@));
    }
    match find_repeat(values) {
        Some(j) => Err(AnalysisRequestError::DuplicateCapability { capability: values[j].clone() }),
        None => Ok(()),
    }
}

fn ensure_nonzero(value: usize, dimension: LimitDimension) -> (r: Result<(), AnalysisRequestError>)
    ensures
        value == 0 ==> r == Err::<(), AnalysisRequestError>(
            AnalysisRequestError::ZeroLimit { dimension },
        ),
        value > 0 ==> r is Ok,
{
    if value == 0 {
        Err(AnalysisRequestError::ZeroLimit { dimension })
    } else {
        Ok(())
    }
}

} // verus!
