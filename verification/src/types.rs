//! Validated value types: spans, confidences, identifiers and evidence.
use vstd::prelude::*;
use vstd::string::*;
use vstd::utf8::*;

use crate::score::{f32_is_finite, f32_key, f32_magnitude, ONE_BITS};
use vstd::std_specs::cmp::PartialEqSpecImpl;

verus! {

broadcast use vstd::utf8::group_utf8_lib;

/// Longest identifier accepted, in bytes.
pub const MAX_IDENTIFIER_LEN: usize = 128;

/// `i` is a UTF-8 character boundary of `text` (the end of the text counts).
pub open spec fn char_boundary(text: &str, i: int) -> bool {
    is_char_boundary(text.spec_bytes(), i)
}

/// A boundary of a valid UTF-8 sequence stays a boundary in the suffix that starts at
/// an earlier boundary.
pub proof fn lemma_boundary_in_suffix(bytes: Seq<u8>, s: int, e: int)
    requires
        valid_utf8(bytes),
        is_char_boundary(bytes, s),
        is_char_boundary(bytes, e),
        s <= e,
    ensures
        valid_utf8(bytes.subrange(s, bytes.len() as int)),
        is_char_boundary(bytes.subrange(s, bytes.len() as int), e - s),
{
    let rest = bytes.subrange(s, bytes.len() as int);
    assert(0 <= s <= bytes.len()) by {
        if s != 0 {
            if !(0 <= s <= bytes.len()) {
                reveal_with_fuel(is_char_boundary, 1);
            }
        }
    }
    assert(0 <= e <= bytes.len()) by {
        if e != 0 {
            reveal_with_fuel(is_char_boundary, 1);
        }
    }
    valid_utf8_split(bytes, s);
    if e - s == 0 {
    } else if e == bytes.len() {
        is_char_boundary_start_end_of_seq(rest);
        assert(rest.len() == e - s);
    } else {
        is_char_boundary_iff_not_is_continuation_byte(bytes, e);
        is_char_boundary_iff_not_is_continuation_byte(rest, e - s);
        assert(rest[e - s] == bytes[e]);
    }
}

/// A validated, non-empty byte range into original UTF-8 input.
#[derive(Debug, Clone, Copy, PartialEq, Eq, Hash, Structural)]
pub struct Span {
    start: usize,
    end: usize,
}

impl Span {
    #[verifier::type_invariant]
    closed spec fn ordered(self) -> bool {
        self.start < self.end
    }

    /// Start byte offset, inclusive.
    /// The span value with these offsets, in contracts.
    pub closed spec fn made(start: usize, end: usize) -> Span {
        Span { start, end }
    }

    /// The span value of two offsets has those offsets.
    pub proof fn lemma_made_offsets(start: usize, end: usize)
        ensures
            Span::made(start, end).spec_start() == start,
            Span::made(start, end).spec_end() == end,
    {
    }

    /// A span is the span value of its offsets.
    pub proof fn lemma_made(self)
        ensures
            self == Span::made(self.spec_start(), self.spec_end()),
    {
    }

    pub closed spec fn spec_start(self) -> usize {
        self.start
    }

    /// End byte offset, exclusive.
    pub closed spec fn spec_end(self) -> usize {
        self.end
    }

    /// The span's ends as a pair.
    pub open spec fn bounds(self) -> (usize, usize) {
        (self.spec_start(), self.spec_end())
    }

    /// Construct a non-empty ordered span.
    pub fn new(start: usize, end: usize) -> (r: Result<Span, SpanError>)
        ensures
            start > end ==> r == Err::<Span, SpanError>(SpanError::Reversed { start, end }),
            start == end ==> r == Err::<Span, SpanError>(SpanError::Empty { offset: start }),
            start < end ==> (r matches Ok(s) && s.spec_start() == start && s.spec_end() == end),
    {
        if start > end {
            return Err(SpanError::Reversed { start, end });
        }
        if start == end {
            return Err(SpanError::Empty { offset: start });
        }
        Ok(Span { start, end })
    }

    /// Construct a span and validate it against the text it indexes.
    pub fn new_for(text: &str, start: usize, end: usize) -> (r: Result<Span, SpanError>)
        ensures
            start > end ==> r == Err::<Span, SpanError>(SpanError::Reversed { start, end }),
            start == end ==> r == Err::<Span, SpanError>(SpanError::Empty { offset: start }),
            start < end ==> (span_check(text, start, end) matches Err(e) ==> r == Err::<
                Span,
                SpanError,
            >(e)),
            start < end ==> (span_check(text, start, end) is Ok <==> r is Ok),
            r matches Ok(s) ==> s.spec_start() == start && s.spec_end() == end,
    {
        let span = Span::new(start, end)?;
        match span.validate_for(text) {
            Ok(()) => Ok(span),
            Err(e) => Err(e),
        }
    }

    /// Start byte offset, inclusive.
    pub fn start(self) -> (r: usize)
        ensures
            r == self.spec_start(),
            r < self.spec_end(),
    {
        proof {
            use_type_invariant(&self);
        }
        self.start
    }

    /// End byte offset, exclusive.
    pub fn end(self) -> (r: usize)
        ensures
            r == self.spec_end(),
            self.spec_start() < r,
    {
        proof {
            use_type_invariant(&self);
        }
        self.end
    }

    /// Span length in bytes.
    pub fn len(self) -> (r: usize)
        ensures
            r == self.spec_end() - self.spec_start(),
            r > 0,
    {
        proof {
            use_type_invariant(&self);
        }
        self.end - self.start
    }

    /// A validated span is never empty.
    pub fn is_empty(self) -> (r: bool)
        ensures
            !r,
    {
        false
    }

    /// Validate that this span can safely index the supplied original text.
    pub fn validate_for(self, text: &str) -> (r: Result<(), SpanError>)
        ensures
            r == span_check(text, self.spec_start(), self.spec_end()),
    {
        let n = text.len();
        if self.end > n {
            return Err(SpanError::OutOfBounds { start: self.start, end: self.end, text_len: n });
        }
        if !text.is_char_boundary(self.start) {
            return Err(SpanError::NotCharBoundary { offset: self.start });
        }
        if !text.is_char_boundary(self.end) {
            return Err(SpanError::NotCharBoundary { offset: self.end });
        }
        Ok(())
    }

    /// Return the matched substring after validating bounds and UTF-8 boundaries.
    pub fn slice<'a>(self, text: &'a str) -> (r: Result<&'a str, SpanError>)
        ensures
            span_check(text, self.spec_start(), self.spec_end()) matches Err(e) ==> r == Err::<
                &str,
                SpanError,
            >(e),
            span_check(text, self.spec_start(), self.spec_end()) is Ok ==> (r matches Ok(piece)
                && piece.spec_bytes() == text.spec_bytes().subrange(
                self.spec_start() as int,
                self.spec_end() as int,
            )),
    {
        proof {
            use_type_invariant(&self);
        }
        match self.validate_for(text) {
            Err(e) => Err(e),
            Ok(()) => Ok(slice_between(text, self.start, self.end)),
        }
    }
}

/// The outcome `Span::validate_for` gives for the range `start..end` of `text`.
pub open spec fn span_check(text: &str, start: usize, end: usize) -> Result<(), SpanError> {
    if end > text.len() {
        Err(SpanError::OutOfBounds { start, end, text_len: text.len() })
    } else if !char_boundary(text, start as int) {
        Err(SpanError::NotCharBoundary { offset: start })
    } else if !char_boundary(text, end as int) {
        Err(SpanError::NotCharBoundary { offset: end })
    } else {
        Ok(())
    }
}

/// The piece of `text` between two character boundaries.
pub fn slice_between<'a>(text: &'a str, start: usize, end: usize) -> (r: &'a str)
    requires
        start <= end,
        char_boundary(text, start as int),
        char_boundary(text, end as int),
    ensures
        r.spec_bytes() == text.spec_bytes().subrange(start as int, end as int),
{
    proof {
        lemma_boundary_in_suffix(text.spec_bytes(), start as int, end as int);
    }
    let (_, rest) = text.split_at(start);
    let (piece, _) = rest.split_at(end - start);
    proof {
        assert(piece.spec_bytes() =~= text.spec_bytes().subrange(start as int, end as int));
    }
    piece
}

/// Failure to construct or apply a [`Span`].
#[derive(Debug, Clone, PartialEq, Eq)]
pub enum SpanError {
    /// The start is greater than the end.
    Reversed { start: usize, end: usize },
    /// The span contains no bytes.
    Empty { offset: usize },
    /// The span exceeds the supplied text.
    OutOfBounds { start: usize, end: usize, text_len: usize },
    /// An offset is not on a UTF-8 character boundary.
    NotCharBoundary { offset: usize },
}

/// A finite confidence in the inclusive range `0.0..=1.0`, held as the bit
/// pattern of the 32-bit float it stands for; `-0.0` keeps its sign and equals `0.0`.
#[derive(Debug, Clone, Copy)]
pub struct Confidence {
    bits: u32,
}

/// The outcome `Confidence::from_bits` gives for a float bit pattern: the bits of
/// the number it stands for (`0.0` for `-0.0`), or why it is no confidence.
pub open spec fn confidence_check(bits: u32) -> Result<u32, ConfidenceError> {
    if !f32_is_finite(bits) {
        Err(ConfidenceError::NotFinite)
    } else if f32_key(bits) < 0 || f32_key(bits) > ONE_BITS {
        Err(ConfidenceError::OutOfRange { value: bits })
    } else {
        Ok(f32_magnitude(bits))
    }
}

impl Confidence {
    #[verifier::type_invariant]
    closed spec fn in_range(self) -> bool {
        self.bits <= ONE_BITS || self.bits == 0x8000_0000u32
    }

    /// The confidence value with these bits, in contracts.
    pub closed spec fn made(bits: u32) -> Confidence {
        Confidence { bits }
    }

    /// The bits of the number the confidence stands for (`0.0` for `-0.0`); they
    /// order as the numbers do.
    pub closed spec fn spec_bits(self) -> u32 {
        f32_magnitude(self.bits)
    }

    /// The bit pattern of the float itself, sign included.
    pub closed spec fn spec_float_bits(self) -> u32 {
        self.bits
    }

    /// The confidence value that stands for the same number, in contracts.
    pub open spec fn number(self) -> Confidence {
        Confidence::made(self.spec_bits())
    }

    /// The number a confidence stands for is the number of its number value, and two
    /// confidences have the same number value exactly when they stand for the same
    /// number.
    pub proof fn lemma_number(self, other: Confidence)
        ensures
            self.number().spec_bits() == self.spec_bits(),
            (self.number() == other.number()) == (self.spec_bits() == other.spec_bits()),
    {
        let b = self.bits;
        assert((b & 0x7fff_ffffu32) & 0x7fff_ffffu32 == b & 0x7fff_ffffu32) by (bit_vector);
    }

    /// Validate the bit pattern of a 32-bit float as a confidence.
    pub fn from_bits(bits: u32) -> (r: Result<Confidence, ConfidenceError>)
        ensures
            confidence_check(bits) matches Err(e) ==> r == Err::<Confidence, ConfidenceError>(e),
            confidence_check(bits) matches Ok(b) ==> (r matches Ok(c) && c.spec_bits() == b
                && c.spec_float_bits() == bits),
    {
        let exponent = (bits >> 23u32) & 0xffu32;
        if exponent == 0xff {
            return Err(ConfidenceError::NotFinite);
        }
        let magnitude = bits & 0x7fff_ffffu32;
        let negative = (bits & 0x8000_0000u32) != 0;
        if (negative && magnitude != 0) || (!negative && magnitude > ONE_BITS) {
            return Err(ConfidenceError::OutOfRange { value: bits });
        }
        proof {
            assert(negative ==> bits == 0x8000_0000u32) by (bit_vector)
                requires
                    negative == ((bits & 0x8000_0000u32) != 0),
                    magnitude == bits & 0x7fff_ffffu32,
                    negative ==> magnitude == 0,
            ;
            assert(!negative ==> bits == magnitude) by (bit_vector)
                requires
                    negative == ((bits & 0x8000_0000u32) != 0),
                    magnitude == bits & 0x7fff_ffffu32,
            ;
        }
        Ok(Confidence { bits })
    }

    /// The confidence `0.0`.
    pub fn zero() -> (r: Confidence)
        ensures
            r.spec_bits() == 0,
            r.spec_float_bits() == 0,
    {
        proof {
            assert(f32_magnitude(0) == 0) by (bit_vector);
        }
        Confidence { bits: 0 }
    }

    /// Return the bit pattern of the float value, sign included.
    pub fn to_bits(self) -> (r: u32)
        ensures
            r == self.spec_float_bits(),
            f32_magnitude(r) == self.spec_bits(),
            self.spec_bits() <= ONE_BITS,
    {
        proof {
            use_type_invariant(&self);
            let b = self.bits;
            assert(b <= 0x3f80_0000u32 || b == 0x8000_0000u32 ==> (b & 0x7fff_ffffu32) <= 0x3f80_0000u32)
                by (bit_vector);
        }
        self.bits
    }

    /// The bits of the number the confidence stands for (`0.0` for `-0.0`).
    pub(crate) fn number_bits(self) -> (r: u32)
        ensures
            r == self.spec_bits(),
            r <= ONE_BITS,
    {
        proof {
            use_type_invariant(&self);
            let b = self.bits;
            assert(b <= 0x3f80_0000u32 || b == 0x8000_0000u32 ==> (b & 0x7fff_ffffu32) <= 0x3f80_0000u32)
                by (bit_vector);
        }
        self.bits & 0x7fff_ffffu32
    }
}

impl PartialEq for Confidence {
    /// Confidences are equal when they stand for the same number (`-0.0 == 0.0`).
    fn eq(&self, other: &Confidence) -> (r: bool) {
        self.number_bits() == other.number_bits()
    }
}

impl PartialEqSpecImpl for Confidence {
    open spec fn obeys_eq_spec() -> bool {
        true
    }

    open spec fn eq_spec(&self, other: &Confidence) -> bool {
        self.spec_bits() == other.spec_bits()
    }
}

impl Eq for Confidence {
}

/// Failure to construct a [`Confidence`].
#[derive(Debug, Clone, Copy, PartialEq, Eq)]
pub enum ConfidenceError {
    /// NaN and infinity are not valid confidence values.
    NotFinite,
    /// The value is outside `0.0..=1.0`; `value` is its float bit pattern.
    OutOfRange { value: u32 },
}

} // verus!

verus! {

pub open spec fn is_ascii_alnum(c: char) -> bool {
    ('0' <= c && c <= '9') || ('a' <= c && c <= 'z') || ('A' <= c && c <= 'Z')
}

/// Characters allowed after the first one of an identifier.
pub open spec fn is_identifier_char(c: char) -> bool {
    is_ascii_alnum(c) || c == '_' || c == '-' || c == '.' || c == ':' || c == '+'
}

/// Index of the first character at or after `i` that an identifier does not allow.
pub open spec fn first_disallowed_from(s: Seq<char>, i: int) -> Option<int>
    decreases s.len() - i,
{
    if i >= s.len() || i < 0 {
        None
    } else if !is_identifier_char(s[i]) {
        Some(i)
    } else {
        first_disallowed_from(s, i + 1)
    }
}

/// The outcome of validating `s` as a stable identifier.
pub open spec fn identifier_check(s: Seq<char>) -> Result<(), IdentifierError> {
    if s.len() == 0 {
        Err(IdentifierError::Empty)
    } else if encode_utf8(s).len() as usize > MAX_IDENTIFIER_LEN {
        Err(IdentifierError::TooLong {
            actual: encode_utf8(s).len() as usize,
            maximum: MAX_IDENTIFIER_LEN,
        })
    } else if !is_ascii_alnum(s[0]) {
        Err(IdentifierError::InvalidStart { character: s[0] })
    } else {
        match first_disallowed_from(s, 1) {
            Some(i) => Err(IdentifierError::InvalidCharacter { index: i as usize, character: s[i] }),
            None => Ok(()),
        }
    }
}

/// A well-formed identifier: non-empty, at most 128 bytes, an ASCII letter or digit
/// first, and then only ASCII letters, digits and `_ - . : +`.
pub open spec fn valid_identifier(s: Seq<char>) -> bool {
    identifier_check(s) is Ok
}

/// A short text of identifier characters that starts with an ASCII letter or digit is
/// a valid identifier.
pub proof fn lemma_valid_identifier(s: Seq<char>)
    requires
        0 < s.len() <= MAX_IDENTIFIER_LEN,
        is_ascii_alnum(s[0]),
        forall|j: int| 1 <= j < s.len() ==> is_identifier_char(#[trigger] s[j]),
    ensures
        valid_identifier(s),
{
    lemma_first_disallowed_all(s, 1);
    assert forall|j: int| 0 <= j < s.len() implies '\0' <= #[trigger] s[j] <= '\u{7f}' by {
        if j > 0 {
            assert(is_identifier_char(s[j]));
        }
    }
    is_ascii_chars_encode_utf8(s);
}

proof fn lemma_first_disallowed_all(s: Seq<char>, i: int)
    requires
        1 <= i,
        forall|j: int| 1 <= j < s.len() ==> is_identifier_char(#[trigger] s[j]),
    ensures
        first_disallowed_from(s, i) is None,
    decreases s.len() - i,
{
    if i < s.len() {
        assert(is_identifier_char(s[i]));
        lemma_first_disallowed_all(s, i + 1);
    }
}

/// Validate `value` as a stable identifier.
pub fn validate_identifier(value: &str) -> (r: Result<(), IdentifierError>)
    ensures
        r == identifier_check(value@),
        r matches Err(IdentifierError::InvalidCharacter { index, .. }) ==> encode_utf8(
            value@.take(index as int),
        ).len() == index,
{
    if value.is_empty() {
        return Err(IdentifierError::Empty);
    }
    let n_bytes = value.len();
    if n_bytes > MAX_IDENTIFIER_LEN {
        return Err(IdentifierError::TooLong { actual: n_bytes, maximum: MAX_IDENTIFIER_LEN });
    }
    let n = value.unicode_len();
    let first = value.get_char(0);
    if !(('0' <= first && first <= '9') || ('a' <= first && first <= 'z') || ('A' <= first
        && first <= 'Z')) {
        return Err(IdentifierError::InvalidStart { character: first });
    }
    let mut i: usize = 1;
    while i < n
        invariant
            n == value@.len(),
            1 <= i <= n,
            is_ascii_alnum(value@[0]),
            !(encode_utf8(value@).len() as usize > MAX_IDENTIFIER_LEN),
            first_disallowed_from(value@, 1) == first_disallowed_from(value@, i as int),
            forall|j: int| 1 <= j < i ==> is_identifier_char(#[trigger] value@[j]),
        decreases n - i,
    {
        let c = value.get_char(i);
        let allowed = ('0' <= c && c <= '9') || ('a' <= c && c <= 'z') || ('A' <= c && c <= 'Z')
            || c == '_' || c == '-' || c == '.' || c == ':' || c == '+';
        if !allowed {
            proof {
                let t = value@.take(i as int);
                assert(is_ascii_chars(t)) by {
                    assert forall|j: int| 0 <= j < t.len() implies '\0' <= #[trigger] t[j] <= '\u{7f}' by {
                        assert(t[j] == value@[j]);
                        if j > 0 {
                            assert(is_identifier_char(value@[j]));
                        }
                    }
                }
                is_ascii_chars_encode_utf8(t);
            }
            return Err(IdentifierError::InvalidCharacter { index: i, character: c });
        }
        i = i + 1;
    }
    Ok(())
}

/// Failure to construct a stable identifier.
#[derive(Debug, Clone, PartialEq, Eq)]
pub enum IdentifierError {
    /// The identifier is empty.
    Empty,
    /// The identifier exceeds the supported byte length.
    TooLong { actual: usize, maximum: usize },
    /// The first character must be ASCII alphanumeric.
    InvalidStart { character: char },
    /// A later character is not allowed; `index` is its byte offset.
    InvalidCharacter { index: usize, character: char },
}

} // verus!

verus! {

/// Stable open identifier for a detected entity category.
#[derive(Debug, PartialEq, Eq, Hash)]
pub struct EntityId {
    value: String,
}

impl View for EntityId {
    type V = Seq<char>;

    closed spec fn view(&self) -> Seq<char> {
        self.value@
    }
}

impl EntityId {
    #[verifier::type_invariant]
    closed spec fn well_formed(self) -> bool {
        valid_identifier(self.value@)
    }

    /// Construct a validated identifier.
    pub fn new(value: &str) -> (r: Result<EntityId, IdentifierError>)
        ensures
            identifier_check(value@) matches Err(e) ==> r == Err::<EntityId, IdentifierError>(e),
            identifier_check(value@) is Ok ==> (r matches Ok(id) && id@ == value@),
    {
        validate_identifier(value)?;
        Ok(EntityId { value: value.to_owned() })
    }

    /// Borrow the canonical identifier.
    pub fn as_str(&self) -> (r: &str)
        ensures
            r@ == self@,
            valid_identifier(self@),
    {
        proof {
            use_type_invariant(self);
        }
        self.value.as_str()
    }

    /// Whether two identifiers are the same text.
    pub fn same_as(&self, other: &EntityId) -> (r: bool)
        ensures
            r == (self@ == other@),
    {
        self.value == other.value
    }
}

impl Clone for EntityId {
    fn clone(&self) -> (r: Self)
        ensures
            r@ == self@,
    {
        proof {
            use_type_invariant(self);
        }
        EntityId { value: self.value.clone() }
    }
}

/// Stable identifier for the recognizer that produced a finding.
#[derive(Debug, PartialEq, Eq, Hash)]
pub struct RecognizerId {
    value: String,
}

impl View for RecognizerId {
    type V = Seq<char>;

    closed spec fn view(&self) -> Seq<char> {
        self.value@
    }
}

impl RecognizerId {
    #[verifier::type_invariant]
    closed spec fn well_formed(self) -> bool {
        valid_identifier(self.value@)
    }

    /// Construct a validated identifier.
    pub fn new(value: &str) -> (r: Result<RecognizerId, IdentifierError>)
        ensures
            identifier_check(value@) matches Err(e) ==> r == Err::<RecognizerId, IdentifierError>(e),
            identifier_check(value@) is Ok ==> (r matches Ok(id) && id@ == value@),
    {
        validate_identifier(value)?;
        Ok(RecognizerId { value: value.to_owned() })
    }

    /// Borrow the canonical identifier.
    pub fn as_str(&self) -> (r: &str)
        ensures
            r@ == self@,
            valid_identifier(self@),
    {
        proof {
            use_type_invariant(self);
        }
        self.value.as_str()
    }

    /// Whether two identifiers are the same text.
    pub fn same_as(&self, other: &RecognizerId) -> (r: bool)
        ensures
            r == (self@ == other@),
    {
        self.value == other.value
    }
}

impl Clone for RecognizerId {
    fn clone(&self) -> (r: Self)
        ensures
            r@ == self@,
    {
        proof {
            use_type_invariant(self);
        }
        RecognizerId { value: self.value.clone() }
    }
}

/// Stable identifier for versions, locales, capabilities, codes and evidence.
#[derive(Debug, PartialEq, Eq, Hash)]
pub struct MetadataId {
    value: String,
}

impl View for MetadataId {
    type V = Seq<char>;

    closed spec fn view(&self) -> Seq<char> {
        self.value@
    }
}

impl MetadataId {
    #[verifier::type_invariant]
    closed spec fn well_formed(self) -> bool {
        valid_identifier(self.value@)
    }

    /// Construct a validated identifier.
    pub fn new(value: &str) -> (r: Result<MetadataId, IdentifierError>)
        ensures
            identifier_check(value@) matches Err(e) ==> r == Err::<MetadataId, IdentifierError>(e),
            identifier_check(value@) is Ok ==> (r matches Ok(id) && id@ == value@),
    {
        validate_identifier(value)?;
        Ok(MetadataId { value: value.to_owned() })
    }

    /// Borrow the canonical identifier.
    pub fn as_str(&self) -> (r: &str)
        ensures
            r@ == self@,
            valid_identifier(self@),
    {
        proof {
            use_type_invariant(self);
        }
        self.value.as_str()
    }

    /// Whether two identifiers are the same text.
    pub fn same_as(&self, other: &MetadataId) -> (r: bool)
        ensures
            r == (self@ == other@),
    {
        self.value == other.value
    }
}

impl Clone for MetadataId {
    fn clone(&self) -> (r: Self)
        ensures
            r@ == self@,
    {
        proof {
            use_type_invariant(self);
        }
        MetadataId { value: self.value.clone() }
    }
}

/// Caller-controlled stable identifier of a source document.
#[derive(Debug, PartialEq, Eq, Hash)]
pub struct DocumentId {
    value: String,
}

impl View for DocumentId {
    type V = Seq<char>;

    closed spec fn view(&self) -> Seq<char> {
        self.value@
    }
}

impl DocumentId {
    #[verifier::type_invariant]
    closed spec fn well_formed(self) -> bool {
        valid_identifier(self.value@)
    }

    /// Construct a validated identifier.
    pub fn new(value: &str) -> (r: Result<DocumentId, IdentifierError>)
        ensures
            identifier_check(value@) matches Err(e) ==> r == Err::<DocumentId, IdentifierError>(e),
            identifier_check(value@) is Ok ==> (r matches Ok(id) && id@ == value@),
    {
        validate_identifier(value)?;
        Ok(DocumentId { value: value.to_owned() })
    }

    /// Borrow the canonical identifier.
    pub fn as_str(&self) -> (r: &str)
        ensures
            r@ == self@,
            valid_identifier(self@),
    {
        proof {
            use_type_invariant(self);
        }
        self.value.as_str()
    }

    /// Whether two identifiers are the same text.
    pub fn same_as(&self, other: &DocumentId) -> (r: bool)
        ensures
            r == (self@ == other@),
    {
        self.value == other.value
    }
}

impl Clone for DocumentId {
    fn clone(&self) -> (r: Self)
        ensures
            r@ == self@,
    {
        proof {
            use_type_invariant(self);
        }
        DocumentId { value: self.value.clone() }
    }
}

} // verus!
