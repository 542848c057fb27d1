//! Pattern recognizers: regular expressions, an optional checksum validator, and
//! context words that raise the score of nearby matches.
use vstd::prelude::*;
use vstd::string::*;
use vstd::utf8::*;

use crate::entity::EntityType;
use crate::finding::{opt_string_view, ENGINE_VERSION};
use crate::text::{blank, is_blank};
use crate::types::RecognizerId;
use crate::validators::{iban_mod97, iban_verdict, luhn, luhn_verdict};

verus! {

/// Whether `pattern` compiles as a regular expression, as `regex::Regex::new` decides.
pub uninterp spec fn regex_compiles(pattern: Seq<char>) -> bool;

/// The byte ranges of the successive non-overlapping leftmost-first matches of the
/// compiled `pattern` in `text`, as `regex::Regex::find_iter` yields them.
pub uninterp spec fn regex_match_spans(pattern: Seq<char>, text: Seq<char>) -> Seq<(usize, usize)>;

/// Match ranges that are ordered, inside `text`, on character boundaries, and
/// successive without overlap.
pub open spec fn well_placed_matches(v: Seq<(usize, usize)>, text: Seq<char>) -> bool {
    &&& forall|k: int|
        0 <= k < v.len() ==> {
            &&& (#[trigger] v[k]).0 <= v[k].1 <= encode_utf8(text).len()
            &&& is_char_boundary(encode_utf8(text), v[k].0 as int)
            &&& is_char_boundary(encode_utf8(text), v[k].1 as int)
        }
    &&& forall|k: int| 0 <= k < v.len() - 1 ==> (#[trigger] v[k]).1 <= v[k + 1].0
}

/// Compiles `pattern` with `regex::Regex::new` and, when it compiles, collects the
/// byte ranges of `Regex::find_iter` over `text`.
/// Trusted: `None` exactly when the pattern does not compile; otherwise the ranges
/// are those `find_iter` yields (named `regex_match_spans`), which the `regex`
/// documentation guarantees to have `start <= end`, to fall on UTF-8 boundaries of
/// the text, and to be successive and non-overlapping.
#[verifier::external_body]
fn regex_find(pattern: &str, text: &str) -> (r: Option<Vec<(usize, usize)>>)
    ensures
        r is Some <==> regex_compiles(pattern@),
        r matches Some(v) ==> v@ == regex_match_spans(pattern@, text@),
        r matches Some(v) ==> well_placed_matches(v@, text@),
{
    match regex::Regex::new(pattern) {
        Ok(re) => Some(re.find_iter(text).map(|m| (m.start(), m.end())).collect()),
        Err(_) => None,
    }
}

/// The match ranges of a pattern in a text; none for a pattern that does not compile.
pub open spec fn pattern_matches(pattern: Seq<char>, text: Seq<char>) -> Seq<(usize, usize)> {
    if regex_compiles(pattern) {
        regex_match_spans(pattern, text)
    } else {
        Seq::empty()
    }
}

/// Byte ranges of the matches of `pattern` in `text`.
pub fn find_matches(pattern: &str, text: &str) -> (r: Vec<(usize, usize)>)
    ensures
        r@ == pattern_matches(pattern@, text@),
        regex_compiles(pattern@) ==> well_placed_matches(r@, text@),
{
    match regex_find(pattern, text) {
        Some(v) => v,
        None => Vec::new(),
    }
}

/// A checksum validator. See [`crate::validators`] for the meaning of its answers.
#[derive(Debug, Clone, Copy, PartialEq, Eq, Structural)]
pub enum Validator {
    /// The Luhn (mod-10) check of credit-card numbers.
    Luhn,
    /// The ISO 13616 mod-97 check of IBANs.
    IbanMod97,
}

/// The answer a validator gives on matched text.
pub open spec fn validator_verdict(v: Validator, matched: Seq<char>) -> Option<bool> {
    match v {
        Validator::Luhn => Some(luhn_verdict(matched)),
        Validator::IbanMod97 => Some(iban_verdict(matched)),
    }
}

impl Validator {
    /// Run the validator on matched text.
    pub fn validate(&self, matched: &str) -> (r: Option<bool>)
        ensures
            r == validator_verdict(*self, matched@),
    {
        match self {
            Validator::Luhn => luhn(matched),
            Validator::IbanMod97 => iban_mod97(matched),
        }
    }
}

/// A named regex pattern with a base score and the score it gets after a context hit,
/// each the bit pattern of a 32-bit float.
#[derive(Debug)]
pub struct Pattern {
    name: &'static str,
    regex: String,
    base_score: u32,
    context_score: u32,
}

impl Pattern {
    /// Pattern name, in contracts.
    pub closed spec fn spec_name(&self) -> Seq<char> {
        self.name@
    }

    /// Pattern name as the static string it was given, in contracts.
    pub closed spec fn spec_name_str(&self) -> &'static str {
        self.name
    }

    /// Regular expression source, in contracts.
    pub closed spec fn spec_regex(&self) -> Seq<char> {
        self.regex@
    }

    /// Base score bits, in contracts.
    pub closed spec fn spec_base_score(&self) -> u32 {
        self.base_score
    }

    /// Score bits after a context hit, in contracts.
    pub closed spec fn spec_context_score(&self) -> u32 {
        self.context_score
    }

    /// Construct a pattern whose regular expression compiles.
    pub fn new(name: &'static str, regex: &str, base_score: u32, context_score: u32) -> (r: Pattern)
        requires
            regex_compiles(regex@),
        ensures
            r.spec_name() == name@,
            r.spec_regex() == regex@,
            r.spec_base_score() == base_score,
            r.spec_context_score() == context_score,
    {
        Pattern { name, regex: regex.to_owned(), base_score, context_score }
    }

    /// Construct a pattern when its regular expression compiles.
    pub fn try_new(name: &'static str, regex: &str, base_score: u32, context_score: u32) -> (r:
        Option<Pattern>)
        ensures
            regex_compiles(regex@) ==> (r matches Some(p) && p.spec_name() == name@ && p.spec_regex()
                == regex@ && p.spec_base_score() == base_score && p.spec_context_score()
                == context_score),
            !regex_compiles(regex@) ==> r is None,
    {
        if regex_find(regex, "").is_some() {
            Some(Pattern::new(name, regex, base_score, context_score))
        } else {
            None
        }
    }

    /// A built-in pattern; its expression is checked when it runs.
    pub(crate) fn builtin(name: &'static str, regex: &str, base_score: u32, context_score: u32) -> (r:
        Pattern)
        ensures
            r.spec_name() == name@,
            r.spec_regex() == regex@,
            r.spec_base_score() == base_score,
            r.spec_context_score() == context_score,
    {
        Pattern { name, regex: regex.to_owned(), base_score, context_score }
    }

    /// Pattern name.
    pub fn name(&self) -> (r: &'static str)
        ensures
            r@ == self.spec_name(),
            r == self.spec_name_str(),
    {
        self.name
    }

    /// Regular expression source.
    pub fn regex(&self) -> (r: &str)
        ensures
            r@ == self.spec_regex(),
    {
        self.regex.as_str()
    }

    /// Base score bits.
    pub fn base_score(&self) -> (r: u32)
        ensures
            r == self.spec_base_score(),
    {
        self.base_score
    }

    /// Score bits after a context hit.
    pub fn context_score(&self) -> (r: u32)
        ensures
            r == self.spec_context_score(),
    {
        self.context_score
    }
}

/// Abstract content of the registration metadata of a pattern recognizer.
pub struct RegistrationView {
    pub id: Seq<char>,
    pub version: Option<Seq<char>>,
}

/// Stable identity and optional version of a registered pattern recognizer.
#[derive(Debug, PartialEq, Eq)]
pub struct RecognizerMetadata {
    id: RecognizerId,
    version: Option<String>,
}

impl View for RecognizerMetadata {
    type V = RegistrationView;

    closed spec fn view(&self) -> RegistrationView {
        RegistrationView { id: self.id@, version: opt_string_view(self.version) }
    }
}

impl RecognizerMetadata {
    /// Construct metadata with a stable recognizer identifier and no version.
    pub fn new(id: RecognizerId) -> (r: RecognizerMetadata)
        ensures
            r@ == (RegistrationView { id: id@, version: None }),
    {
        RecognizerMetadata { id, version: None }
    }

    /// Attach a recognizer implementation or rule-set version; a blank one is dropped.
    pub fn with_version(self, version: &str) -> (r: RecognizerMetadata)
        ensures
            r@ == (RegistrationView {
                id: self@.id,
                version: if is_blank(version@) {
                    None
                } else {
                    Some(version@)
                },
            }),
    {
        let kept = if blank(version) {
            None
        } else {
            Some(version.to_owned())
        };
        RecognizerMetadata { id: self.id, version: kept }
    }

    /// Stable recognizer identifier.
    pub fn id(&self) -> (r: &RecognizerId)
        ensures
            r@ == self@.id,
    {
        &self.id
    }

    /// Optional recognizer implementation or rule-set version.
    pub fn version(&self) -> (r: Option<&str>)
        ensures
            match r {
                Some(v) => self@.version == Some(v@),
                None => self@.version is None,
            },
    {
        match &self.version {
            Some(v) => Some(v.as_str()),
            None => None,
        }
    }
}

impl Clone for RecognizerMetadata {
    fn clone(&self) -> (r: Self)
        ensures
            r@ == self@,
    {
        RecognizerMetadata {
            id: self.id.clone(),
            version: match &self.version {
                Some(v) => Some(v.clone()),
                None => None,
            },
        }
    }
}

/// A recognizer for one [`EntityType`]: one or more regex patterns, an optional
/// checksum validator, and context words that raise the score of nearby matches.
#[derive(Debug)]
pub struct PatternRecognizer {
    pub entity_type: EntityType,
    pub patterns: Vec<Pattern>,
    pub context: &'static [&'static str],
    pub validator: Option<Validator>,
}

} // verus!
