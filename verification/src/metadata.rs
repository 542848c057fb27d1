//! Backend-neutral recognizer metadata and provenance.
use vstd::prelude::*;

use crate::ids::{
    all_distinct, copy_ids, copy_opt_id, find_repeat, first_repeat, id_views, lemma_first_repeat,
    opt_id_view,
};
use crate::types::{EntityId, MetadataId, RecognizerId};

verus! {

/// High-level mechanism used by a recognizer.
#[derive(Debug, Clone, Copy, PartialEq, Eq, Hash, Structural)]
#[non_exhaustive]
pub enum RecognitionMechanism {
    /// Regular-expression or equivalent pattern matching.
    Pattern,
    /// Pattern matching followed by checksum or structural validation.
    PatternWithValidation,
    /// Structural parsing without a pattern-first contract.
    StructuralParsing,
    /// Dictionary, gazetteer, or exact-term matching.
    Dictionary,
    /// Statistical or machine-learning recognition.
    Semantic,
    /// A consumer-defined mechanism not represented by another variant.
    Custom,
}

/// Abstract content of a [`RecognizerMetadata`].
pub struct MetadataView {
    pub id: Seq<char>,
    pub version: Seq<char>,
    pub supported_entities: Seq<Seq<char>>,
    pub supported_locales: Seq<Seq<char>>,
    pub mechanism: RecognitionMechanism,
    pub required_capabilities: Seq<Seq<char>>,
    pub default_enabled: bool,
    pub attribution: Option<Seq<char>>,
    pub evaluation_receipt: Option<Seq<char>>,
}

/// Stable metadata describing a recognizer independently of its execution backend.
#[derive(Debug, PartialEq, Eq)]
pub struct RecognizerMetadata {
    id: RecognizerId,
    version: MetadataId,
    supported_entities: Vec<EntityId>,
    supported_locales: Vec<MetadataId>,
    mechanism: RecognitionMechanism,
    required_capabilities: Vec<MetadataId>,
    default_enabled: bool,
    attribution: Option<MetadataId>,
    evaluation_receipt: Option<MetadataId>,
}

impl View for RecognizerMetadata {
    type V = MetadataView;

    closed spec fn view(&self) -> MetadataView {
        MetadataView {
            id: self.id@,
            version: self.version@,
            supported_entities: id_views(self.supported_entities@),
            supported_locales: id_views(self.supported_locales@),
            mechanism: self.mechanism,
            required_capabilities: id_views(self.required_capabilities@),
            default_enabled: self.default_enabled,
            attribution: opt_id_view(self.attribution),
            evaluation_receipt: opt_id_view(self.evaluation_receipt),
        }
    }
}

/// Metadata that declares at least one entity and repeats no entity, locale or capability.
pub open spec fn metadata_consistent(m: MetadataView) -> bool {
    &&& m.supported_entities.len() > 0
    &&& all_distinct(m.supported_entities)
    &&& all_distinct(m.supported_locales)
    &&& all_distinct(m.required_capabilities)
}

/// The outcome `RecognizerMetadata::new` gives: `Ok` carries the declared entities.
pub open spec fn metadata_check(entities: Seq<Seq<char>>) -> Result<(), MetadataErrorView> {
    if entities.len() == 0 {
        Err(MetadataErrorView::NoSupportedEntities)
    } else {
        match first_repeat(entities) {
            Some(j) => Err(MetadataErrorView::DuplicateEntity { entity: entities[j] }),
            None => Ok(()),
        }
    }
}

/// The first repeated locale or capability of a list, as the error of that dimension.
pub open spec fn dimension_check(values: Seq<Seq<char>>, dimension: MetadataDimension) -> Result<
    (),
    MetadataErrorView,
> {
    match first_repeat(values) {
        Some(j) => Err(
            match dimension {
                MetadataDimension::Locale => MetadataErrorView::DuplicateLocale {
                    locale: values[j],
                },
                MetadataDimension::Capability => MetadataErrorView::DuplicateCapability {
                    capability: values[j],
                },
            },
        ),
        None => Ok(()),
    }
}

impl RecognizerMetadata {
    #[verifier::type_invariant]
    closed spec fn consistent(self) -> bool {
        metadata_consistent(self@)
    }

    /// Construct the required recognizer metadata.
    pub fn new(
        id: RecognizerId,
        version: MetadataId,
        supported_entities: Vec<EntityId>,
        mechanism: RecognitionMechanism,
    ) -> (r: Result<RecognizerMetadata, RecognizerMetadataError>)
        ensures
            metadata_check(id_views(supported_entities@)) matches Err(e) ==> (r matches Err(x)
                && x@ == e),
            metadata_check(id_views(supported_entities@)) is Ok ==> (r matches Ok(m) && m@ == (
            MetadataView {
                id: id@,
                version: version@,
                supported_entities: id_views(supported_entities@),
                supported_locales: Seq::empty(),
                mechanism,
                required_capabilities: Seq::empty(),
                default_enabled: false,
                attribution: None,
                evaluation_receipt: None,
            })),
    {
        if supported_entities.len() == 0 {
            return Err(RecognizerMetadataError::NoSupportedEntities);
        }
        proof {
            lemma_first_repeat(id_views(supported_entities@));
        }
        ensure_unique_entities(&supported_entities)?;
        proof {
            lemma_first_repeat(id_views(supported_entities@));
        }
        let locales: Vec<MetadataId> = Vec::new();
        let capabilities: Vec<MetadataId> = Vec::new();
        proof {
            assert(id_views(locales@) =~= Seq::<Seq<char>>::empty());
            assert(id_views(capabilities@) =~= Seq::<Seq<char>>::empty());
        }
        Ok(RecognizerMetadata {
            id,
            version,
            supported_entities,
            supported_locales: locales,
            mechanism,
            required_capabilities: capabilities,
            default_enabled: false,
            attribution: None,
            evaluation_receipt: None,
        })
    }

    /// Replace the supported locale or country identifiers.
    pub fn with_supported_locales(self, locales: Vec<MetadataId>) -> (r: Result<
        RecognizerMetadata,
        RecognizerMetadataError,
    >)
        ensures
            dimension_check(id_views(locales@), MetadataDimension::Locale) matches Err(e) ==> (
            r matches Err(x) && x@ == e),
            dimension_check(id_views(locales@), MetadataDimension::Locale) is Ok ==> (r matches Ok(
                m,
            ) && m@ == (MetadataView { supported_locales: id_views(locales@), ..self@ })),
    {
        ensure_unique_metadata(&locales, MetadataDimension::Locale)?;
        proof {
            use_type_invariant(&self);
            lemma_first_repeat(id_views(locales@));
        }
        let mut m = self;
        m.supported_locales = locales;
        Ok(m)
    }

    /// Replace the capability identifiers required to execute this recognizer.
    pub fn with_required_capabilities(self, capabilities: Vec<MetadataId>) -> (r: Result<
        RecognizerMetadata,
        RecognizerMetadataError,
    >)
        ensures
            dimension_check(id_views(capabilities@), MetadataDimension::Capability) matches Err(e)
                ==> (r matches Err(x) && x@ == e),
            dimension_check(id_views(capabilities@), MetadataDimension::Capability) is Ok ==> (
            r matches Ok(m) && m@ == (MetadataView {
                required_capabilities: id_views(capabilities@),
                ..self@
            })),
    {
        ensure_unique_metadata(&capabilities, MetadataDimension::Capability)?;
        proof {
            use_type_invariant(&self);
            lemma_first_repeat(id_views(capabilities@));
        }
        let mut m = self;
        m.required_capabilities = capabilities;
        Ok(m)
    }

    /// Set whether the recognizer is enabled by default.
    pub fn with_default_enabled(self, default_enabled: bool) -> (r: RecognizerMetadata)
        ensures
            r@ == (MetadataView { default_enabled, ..self@ }),
    {
        proof {
            use_type_invariant(&self);
        }
        let mut m = self;
        m.default_enabled = default_enabled;
        m
    }

    /// Attach a stable source or prior-art attribution identifier.
    pub fn with_attribution(self, attribution: MetadataId) -> (r: RecognizerMetadata)
        ensures
            r@ == (MetadataView { attribution: Some(attribution@), ..self@ }),
    {
        proof {
            use_type_invariant(&self);
        }
        let mut m = self;
        m.attribution = Some(attribution);
        m
    }

    /// Attach the evaluation receipt that supports this recognizer version.
    pub fn with_evaluation_receipt(self, receipt: MetadataId) -> (r: RecognizerMetadata)
        ensures
            r@ == (MetadataView { evaluation_receipt: Some(receipt@), ..self@ }),
    {
        proof {
            use_type_invariant(&self);
        }
        let mut m = self;
        m.evaluation_receipt = Some(receipt);
        m
    }

    /// Stable recognizer identifier.
    pub fn id(&self) -> (r: &RecognizerId)
        ensures
            r@ == self@.id,
    {
        &self.id
    }

    /// Recognizer implementation or rule-set version.
    pub fn version(&self) -> (r: &MetadataId)
        ensures
            r@ == self@.version,
    {
        &self.version
    }

    /// Open entity identifiers this recognizer can emit.
    pub fn supported_entities(&self) -> (r: &[EntityId])
        ensures
            id_views(r@) == self@.supported_entities,
            metadata_consistent(self@),
    {
        proof {
            use_type_invariant(self);
        }
        self.supported_entities.as_slice()
    }

    /// Locale or country identifiers supported by this recognizer.
    pub fn supported_locales(&self) -> (r: &[MetadataId])
        ensures
            id_views(r@) == self@.supported_locales,
    {
        self.supported_locales.as_slice()
    }

    /// Detection mechanism.
    pub fn mechanism(&self) -> (r: RecognitionMechanism)
        ensures
            r == self@.mechanism,
    {
        self.mechanism
    }

    /// Capabilities that must be available before execution.
    pub fn required_capabilities(&self) -> (r: &[MetadataId])
        ensures
            id_views(r@) == self@.required_capabilities,
    {
        self.required_capabilities.as_slice()
    }

    /// Whether the recognizer participates without explicit opt-in.
    pub fn default_enabled(&self) -> (r: bool)
        ensures
            r == self@.default_enabled,
    {
        self.default_enabled
    }

    /// Source or prior-art attribution identifier, when declared.
    pub fn attribution(&self) -> (r: Option<&MetadataId>)
        ensures
            r matches Some(a) ==> self@.attribution == Some(a@),
            r is None ==> self@.attribution is None,
    {
        self.attribution.as_ref()
    }

    /// Evaluation receipt identifier, when available.
    pub fn evaluation_receipt(&self) -> (r: Option<&MetadataId>)
        ensures
            r matches Some(a) ==> self@.evaluation_receipt == Some(a@),
            r is None ==> self@.evaluation_receipt is None,
    {
        self.evaluation_receipt.as_ref()
    }
}

impl Clone for RecognizerMetadata {
    fn clone(&self) -> (r: Self)
        ensures
            r@ == self@,
    {
        proof {
            use_type_invariant(self);
        }
        RecognizerMetadata {
            id: self.id.clone(),
            version: self.version.clone(),
            supported_entities: copy_ids(self.supported_entities.as_slice()),
            supported_locales: copy_ids(self.supported_locales.as_slice()),
            mechanism: self.mechanism,
            required_capabilities: copy_ids(self.required_capabilities.as_slice()),
            default_enabled: self.default_enabled,
            attribution: copy_opt_id(&self.attribution),
            evaluation_receipt: copy_opt_id(&self.evaluation_receipt),
        }
    }
}

/// Abstract content of a [`RecognizerMetadataError`].
pub enum MetadataErrorView {
    NoSupportedEntities,
    DuplicateEntity { entity: Seq<char> },
    DuplicateLocale { locale: Seq<char> },
    DuplicateCapability { capability: Seq<char> },
}

/// Failure to construct internally consistent recognizer metadata.
#[derive(Debug, Clone, PartialEq, Eq)]
pub enum RecognizerMetadataError {
    /// A recognizer must declare at least one entity it can emit.
    NoSupportedEntities,
    /// An entity appears more than once.
    DuplicateEntity { entity: EntityId },
    /// A locale identifier appears more than once.
    DuplicateLocale { locale: MetadataId },
    /// A required capability appears more than once.
    DuplicateCapability { capability: MetadataId },
}

impl View for RecognizerMetadataError {
    type V = MetadataErrorView;

    open spec fn view(&self) -> MetadataErrorView {
        match self {
            RecognizerMetadataError::NoSupportedEntities => MetadataErrorView::NoSupportedEntities,
            RecognizerMetadataError::DuplicateEntity { entity } => MetadataErrorView::DuplicateEntity {
                entity: entity@,
            },
            RecognizerMetadataError::DuplicateLocale { locale } => MetadataErrorView::DuplicateLocale {
                locale: locale@,
            },
            RecognizerMetadataError::DuplicateCapability { capability } =>
                MetadataErrorView::DuplicateCapability { capability: capability@ },
        }
    }
}

/// Which metadata list a repeated identifier belongs to.
#[derive(Debug, Clone, Copy, PartialEq, Eq, Structural)]
pub enum MetadataDimension {
    Locale,
    Capability,
}

/// Reject a list of entities in which one occurs twice, naming the first repeat.
fn ensure_unique_entities(entities: &[EntityId]) -> (r: Result<(), RecognizerMetadataError>)
    ensures
        first_repeat(id_views(entities@)) matches Some(j) ==> (r matches Err(e) && e@ == (
        MetadataErrorView::DuplicateEntity { entity: entities@[j]@ })),
        first_repeat(id_views(entities@)) is None ==> r is Ok,
{
    proof {
        lemma_first_repeat(id_views(entities@));
    }
    match find_repeat(entities) {
        Some(j) => Err(RecognizerMetadataError::DuplicateEntity { entity: entities[j].clone() }),
        None => Ok(()),
    }
}

/// Reject a list of locales or capabilities in which one occurs twice.
fn ensure_unique_metadata(values: &[MetadataId], dimension: MetadataDimension) -> (r: Result<
    (),
    RecognizerMetadataError,
>)
    ensures
        dimension_check(id_views(values@), dimension) matches Err(e) ==> (r matches Err(x) && x@
            == e),
        dimension_check(id_views(values@), dimension) is Ok ==> r is Ok,
{
    proof {
        lemma_first_repeat(id_views(values@));
    }
    match find_repeat(values) {
        Some(j) => Err(
            match dimension {
                MetadataDimension::Locale => RecognizerMetadataError::DuplicateLocale {
                    locale: values[j].clone(),
                },
                MetadataDimension::Capability => RecognizerMetadataError::DuplicateCapability {
                    capability: values[j].clone(),
                },
            },
        ),
        None => Ok(()),
    }
}

} // verus!
