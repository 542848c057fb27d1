//! Borrowed source documents and content-bound identity.
use sha2::Digest;
use vstd::prelude::*;
use vstd::string::*;

use crate::types::{char_boundary, DocumentId, Span, SpanError};

verus! {

/// The SHA-256 digest of a byte sequence, as `sha2::Sha256` computes it.
pub uninterp spec fn sha256(bytes: Seq<u8>) -> Seq<u8>;

/// Calls `sha2::Sha256::digest` on `bytes` and copies the 32-byte digest out.
/// Trusted: the returned bytes are the SHA-256 digest of the argument; the
/// digest itself is only named (`sha256`), not computed in the proof.
#[verifier::external_body]
pub(crate) fn sha256_digest(bytes: &[u8]) -> (r: [u8; 32])
    ensures
        r@ == sha256(bytes@),
{
    let digest = sha2::Sha256::digest(bytes);
    let mut out = [0u8; 32];
    out.copy_from_slice(digest.as_slice());
    out
}

/// Lowercase hexadecimal digit for a value below 16.
pub open spec fn hex_char(n: u8) -> char {
    if n < 10 {
        ((n + 48) as u8) as char
    } else {
        ((n + 87) as u8) as char
    }
}

/// Lowercase hexadecimal rendering of `bytes`, two digits per byte, high nibble first.
pub open spec fn hex_lower(bytes: Seq<u8>) -> Seq<char>
    decreases bytes.len(),
{
    if bytes.len() == 0 {
        Seq::empty()
    } else {
        hex_lower(bytes.drop_last()) + seq![
            hex_char(bytes.last() / 16),
            hex_char(bytes.last() % 16),
        ]
    }
}

pub(crate) fn hex_digit(n: u8) -> (r: &'static str)
    requires
        n < 16,
    ensures
        r@ == seq![hex_char(n)],
{
    match n {
        0 => { proof { reveal_strlit("0"); } "0" },
        1 => { proof { reveal_strlit("1"); } "1" },
        2 => { proof { reveal_strlit("2"); } "2" },
        3 => { proof { reveal_strlit("3"); } "3" },
        4 => { proof { reveal_strlit("4"); } "4" },
        5 => { proof { reveal_strlit("5"); } "5" },
        6 => { proof { reveal_strlit("6"); } "6" },
        7 => { proof { reveal_strlit("7"); } "7" },
        8 => { proof { reveal_strlit("8"); } "8" },
        9 => { proof { reveal_strlit("9"); } "9" },
        10 => { proof { reveal_strlit("a"); } "a" },
        11 => { proof { reveal_strlit("b"); } "b" },
        12 => { proof { reveal_strlit("c"); } "c" },
        13 => { proof { reveal_strlit("d"); } "d" },
        14 => { proof { reveal_strlit("e"); } "e" },
        _ => { proof { reveal_strlit("f"); } "f" },
    }
}

/// Render bytes as lowercase hexadecimal.
pub fn to_hex_lower(bytes: &[u8]) -> (r: String)
    ensures
        r@ == hex_lower(bytes@),
{
    let mut out = String::new();
    let mut i: usize = 0;
    while i < bytes.len()
        invariant
            i <= bytes@.len(),
            out@ == hex_lower(bytes@.take(i as int)),
        decreases bytes@.len() - i,
    {
        let b = bytes[i];
        out.append(hex_digit(b / 16));
        out.append(hex_digit(b % 16));
        proof {
            assert(bytes@.take(i + 1).drop_last() =~= bytes@.take(i as int));
        }
        i = i + 1;
    }
    proof {
        assert(bytes@.take(bytes@.len() as int) =~= bytes@);
    }
    out
}

/// SHA-256 fingerprint of the original UTF-8 document bytes.
#[derive(Debug, Clone, Copy, PartialEq, Eq, Hash)]
pub struct DocumentFingerprint {
    bytes: [u8; 32],
}

impl View for DocumentFingerprint {
    type V = Seq<u8>;

    closed spec fn view(&self) -> Seq<u8> {
        self.bytes@
    }
}

impl DocumentFingerprint {
    /// Compute a fingerprint from the exact original UTF-8 bytes.
    pub fn from_text(text: &str) -> (r: DocumentFingerprint)
        ensures
            r@ == sha256(text.spec_bytes()),
    {
        DocumentFingerprint { bytes: sha256_digest(text.as_bytes()) }
    }

    /// Borrow the raw digest bytes.
    pub fn as_bytes(&self) -> (r: &[u8; 32])
        ensures
            r@ == self@,
    {
        &self.bytes
    }

    /// Render the fingerprint as lowercase hexadecimal.
    pub fn to_hex(self) -> (r: String)
        ensures
            r@ == hex_lower(self@),
    {
        to_hex_lower(self.bytes.as_slice())
    }

    /// Whether two fingerprints hold the same digest.
    pub fn same_as(&self, other: &DocumentFingerprint) -> (r: bool)
        ensures
            r == (self@ == other@),
    {
        let mut i: usize = 0;
        while i < 32
            invariant
                i <= 32,
                self@.len() == 32,
                other@.len() == 32,
                forall|j: int| 0 <= j < i ==> self@[j] == other@[j],
            decreases 32 - i,
        {
            if self.bytes[i] != other.bytes[i] {
                return false;
            }
            i = i + 1;
        }
        proof {
            assert(self@ =~= other@);
        }
        true
    }

    /// Whether this fingerprint describes the supplied exact UTF-8 text.
    pub fn matches_text(self, text: &str) -> (r: bool)
        ensures
            r == (self@ == sha256(text.spec_bytes())),
    {
        let other = Self::from_text(text);
        self.same_as(&other)
    }
}

/// Abstract content of a [`DocumentBinding`].
pub struct BindingView {
    pub id: Seq<char>,
    pub byte_len: usize,
    pub fingerprint: Seq<u8>,
}

/// Identity and content fingerprint for one exact source document.
#[derive(Debug, PartialEq, Eq, Hash)]
pub struct DocumentBinding {
    id: DocumentId,
    byte_len: usize,
    fingerprint: DocumentFingerprint,
}

impl View for DocumentBinding {
    type V = BindingView;

    closed spec fn view(&self) -> BindingView {
        BindingView { id: self.id@, byte_len: self.byte_len, fingerprint: self.fingerprint@ }
    }
}

/// The binding `DocumentBinding::for_text` builds for `id` and `text`.
pub open spec fn binding_of(id: Seq<char>, text: &str) -> BindingView {
    BindingView { id, byte_len: text.len(), fingerprint: sha256(text.spec_bytes()) }
}

/// The outcome of checking a binding's content against `text`.
pub open spec fn binding_text_check(b: BindingView, text: &str) -> Result<(), DocumentBindingError> {
    if b.byte_len != text.len() {
        Err(DocumentBindingError::LengthMismatch { expected: b.byte_len, actual: text.len() })
    } else if b.fingerprint != sha256(text.spec_bytes()) {
        Err(DocumentBindingError::FingerprintMismatch)
    } else {
        Ok(())
    }
}

impl DocumentBinding {
    /// Bind a caller-controlled document ID to exact UTF-8 content.
    pub fn for_text(id: DocumentId, text: &str) -> (r: DocumentBinding)
        ensures
            r@ == binding_of(id@, text),
    {
        DocumentBinding {
            id,
            byte_len: text.len(),
            fingerprint: DocumentFingerprint::from_text(text),
        }
    }

    /// Caller-controlled stable document identifier.
    pub fn id(&self) -> (r: &DocumentId)
        ensures
            r@ == self@.id,
    {
        &self.id
    }

    /// Length of the original UTF-8 text in bytes.
    pub fn byte_len(&self) -> (r: usize)
        ensures
            r == self@.byte_len,
    {
        self.byte_len
    }

    /// Fingerprint of the original UTF-8 bytes.
    pub fn fingerprint(&self) -> (r: DocumentFingerprint)
        ensures
            r@ == self@.fingerprint,
    {
        self.fingerprint
    }

    /// Whether two bindings describe the same document identity and content.
    pub fn same_as(&self, other: &DocumentBinding) -> (r: bool)
        ensures
            r == (self@ == other@),
    {
        let same = self.id.same_as(&other.id) && self.byte_len == other.byte_len
            && self.fingerprint.same_as(&other.fingerprint);
        proof {
            if self@.id == other@.id && self@.byte_len == other@.byte_len && self@.fingerprint
                == other@.fingerprint {
                assert(self@ == other@);
            }
        }
        same
    }

    /// Validate exact text content without checking a caller-controlled ID.
    pub fn validate_text(&self, text: &str) -> (r: Result<(), DocumentBindingError>)
        ensures
            r == binding_text_check(self@, text),
    {
        if self.byte_len != text.len() {
            return Err(
                DocumentBindingError::LengthMismatch { expected: self.byte_len, actual: text.len() },
            );
        }
        if !self.fingerprint.matches_text(text) {
            return Err(DocumentBindingError::FingerprintMismatch);
        }
        Ok(())
    }

    /// Validate identity and exact content against a document.
    pub fn validate_document(&self, document: &TextDocument<'_>) -> (r: Result<
        (),
        DocumentBindingError,
    >)
        ensures
            self@.id != document.binding_view().id ==> (r matches Err(
                DocumentBindingError::IdMismatch { expected, actual },
            ) && expected@ == self@.id && actual@ == document.binding_view().id),
            self@.id == document.binding_view().id ==> r == binding_text_check(
                self@,
                document.spec_original(),
            ),
    {
        if !self.id.same_as(document.id()) {
            return Err(
                DocumentBindingError::IdMismatch {
                    expected: self.id.clone(),
                    actual: document.id().clone(),
                },
            );
        }
        self.validate_text(document.original())
    }
}

impl Clone for DocumentBinding {
    fn clone(&self) -> (r: Self)
        ensures
            r@ == self@,
    {
        DocumentBinding { id: self.id.clone(), byte_len: self.byte_len, fingerprint: self.fingerprint }
    }
}

/// Borrowed original UTF-8 source paired with a durable content binding.
pub struct TextDocument<'a> {
    original: &'a str,
    binding: DocumentBinding,
}

impl<'a> TextDocument<'a> {
    #[verifier::type_invariant]
    closed spec fn bound(self) -> bool {
        self.binding@ == binding_of(self.binding@.id, self.original)
    }

    /// The exact source text.
    pub closed spec fn spec_original(self) -> &'a str {
        self.original
    }

    /// The binding of the exact source text.
    pub closed spec fn binding_view(self) -> BindingView {
        self.binding@
    }

    /// Create a document from a validated caller-controlled ID and exact text.
    pub fn new(id: DocumentId, original: &'a str) -> (r: TextDocument<'a>)
        ensures
            r.spec_original() == original,
            r.binding_view() == binding_of(id@, original),
    {
        TextDocument { original, binding: DocumentBinding::for_text(id, original) }
    }

    /// Exact original UTF-8 source.
    pub fn original(&self) -> (r: &'a str)
        ensures
            r == self.spec_original(),
            self.binding_view() == binding_of(self.binding_view().id, r),
    {
        proof {
            use_type_invariant(self);
        }
        self.original
    }

    /// Caller-controlled stable document identifier.
    pub fn id(&self) -> (r: &DocumentId)
        ensures
            r@ == self.binding_view().id,
    {
        self.binding.id()
    }

    /// Identity, length, and fingerprint of the exact source.
    pub fn binding(&self) -> (r: &DocumentBinding)
        ensures
            r@ == self.binding_view(),
            self.binding_view() == binding_of(self.binding_view().id, self.spec_original()),
    {
        proof {
            use_type_invariant(self);
        }
        &self.binding
    }

    /// Original text length in bytes.
    pub fn len(&self) -> (r: usize)
        ensures
            r == self.spec_original().len(),
    {
        self.original.len()
    }

    /// Whether the original source contains no bytes.
    pub fn is_empty(&self) -> (r: bool)
        ensures
            r == (self.spec_original()@.len() == 0),
    {
        self.original.is_empty()
    }

    /// Validate and slice an original-coordinate span.
    pub fn slice(&self, span: Span) -> (r: Result<&'a str, SpanError>)
        ensures
            crate::types::span_check(self.spec_original(), span.spec_start(), span.spec_end()) matches Err(e)
                ==> r == Err::<&str, SpanError>(e),
            crate::types::span_check(self.spec_original(), span.spec_start(), span.spec_end()) is Ok
                ==> (r matches Ok(piece) && piece.spec_bytes() == self.spec_original().spec_bytes().subrange(
                span.spec_start() as int,
                span.spec_end() as int,
            )),
    {
        span.slice(self.original)
    }
}

/// Failure to validate a document binding against a source.
#[derive(Debug, Clone, PartialEq, Eq)]
pub enum DocumentBindingError {
    /// The caller-controlled document IDs differ.
    IdMismatch { expected: DocumentId, actual: DocumentId },
    /// The exact UTF-8 byte lengths differ.
    LengthMismatch { expected: usize, actual: usize },
    /// The SHA-256 content fingerprints differ.
    FingerprintMismatch,
}

/// Failure to apply or inspect a finding against a document.
#[derive(Debug, Clone, PartialEq, Eq)]
pub enum FindingDocumentError {
    /// The finding was produced by an unbound legacy or string-only analysis path.
    UnboundFinding,
    /// The supplied document does not match the finding's bound source.
    Document(DocumentBindingError),
    /// The finding span is invalid for the bound source.
    Span(SpanError),
}

impl From<DocumentBindingError> for FindingDocumentError {
    fn from(value: DocumentBindingError) -> (r: FindingDocumentError) {
        FindingDocumentError::Document(value)
    }
}

impl vstd::std_specs::convert::FromSpecImpl<DocumentBindingError> for FindingDocumentError {
    open spec fn obeys_from_spec() -> bool {
        true
    }

    open spec fn from_spec(v: DocumentBindingError) -> FindingDocumentError {
        FindingDocumentError::Document(v)
    }
}

impl From<SpanError> for FindingDocumentError {
    fn from(value: SpanError) -> (r: FindingDocumentError) {
        FindingDocumentError::Span(value)
    }
}

impl vstd::std_specs::convert::FromSpecImpl<SpanError> for FindingDocumentError {
    open spec fn obeys_from_spec() -> bool {
        true
    }

    open spec fn from_spec(v: SpanError) -> FindingDocumentError {
        FindingDocumentError::Span(v)
    }
}

} // verus!
