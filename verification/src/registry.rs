//! Recognizer registry: the collection of recognizers the analyzer runs.
use vstd::prelude::*;
use vstd::string::*;

use crate::document::{hex_char, hex_digit};
use crate::entity::{entity_tag, lemma_tag_chars, EntityType};
use crate::finding::ENGINE_VERSION;
use crate::recognizer::{Pattern, PatternRecognizer, RecognizerMetadata, RegistrationView, Validator};
use crate::text::is_blank;
use crate::types::{is_ascii_alnum, lemma_valid_identifier, valid_identifier, RecognizerId};

verus! {

/// Decimal rendering of a natural number, most significant digit first.
pub open spec fn decimal_text(n: nat) -> Seq<char>
    decreases n,
{
    if n < 10 {
        seq![hex_char(n as u8)]
    } else {
        decimal_text(n / 10).push(hex_char((n % 10) as u8))
    }
}

/// Ten to the power `k`.
pub open spec fn pow10(k: nat) -> nat
    decreases k,
{
    if k == 0 {
        1
    } else {
        10 * pow10((k - 1) as nat)
    }
}

proof fn lemma_decimal_text(n: nat, k: nat)
    requires
        n < pow10(k),
        k >= 1,
    ensures
        1 <= decimal_text(n).len() <= k,
        forall|j: int| 0 <= j < decimal_text(n).len() ==> is_ascii_alnum(#[trigger] decimal_text(n)[j]),
    decreases n,
{
    if n >= 10 {
        assert(k >= 2) by {
            if k == 1 {
                assert(pow10(1) == 10) by {
                    reveal_with_fuel(pow10, 2);
                }
            }
        }
        assert(n / 10 < pow10((k - 1) as nat)) by (nonlinear_arith)
            requires
                n < pow10(k),
                pow10(k) == 10 * pow10((k - 1) as nat),
        ;
        lemma_decimal_text(n / 10, (k - 1) as nat);
    }
}

/// Render `n` in decimal.
pub(crate) fn decimal_string(n: usize) -> (r: String)
    ensures
        r@ == decimal_text(n as nat),
    decreases n,
{
    if n < 10 {
        String::from_str(hex_digit(n as u8))
    } else {
        let mut s = decimal_string(n / 10);
        s.append(hex_digit((n % 10) as u8));
        s
    }
}

/// The identifier generated for a recognizer registered without metadata.
pub open spec fn custom_id(entity: EntityType, index: nat) -> Seq<char> {
    "custom."@ + entity_tag(entity) + seq!['.'] + decimal_text(index)
}

proof fn lemma_custom_id_valid(entity: EntityType, index: usize)
    ensures
        valid_identifier(custom_id(entity, index as nat)),
{
    reveal_strlit("custom.");
    assert("custom."@ =~= seq!['c', 'u', 's', 't', 'o', 'm', '.']);
    lemma_tag_chars(entity);
    assert(pow10(20) == 100000000000000000000nat) by {
        reveal_with_fuel(pow10, 21);
    }
    lemma_decimal_text(index as nat, 20);
    let s = custom_id(entity, index as nat);
    let t = entity_tag(entity);
    let d = decimal_text(index as nat);
    assert forall|j: int| 1 <= j < s.len() implies crate::types::is_identifier_char(#[trigger] s[j]) by {
        if j < 7 {
        } else if j < 7 + t.len() {
            assert(s[j] == t[j - 7]);
        } else if j == 7 + t.len() {
        } else {
            assert(s[j] == d[j - 8 - t.len()]);
        }
    }
    lemma_valid_identifier(s);
}

/// Abstract content of a [`RecognizerRegistry`]: its recognizers and their metadata.
pub struct RegistryView {
    pub recognizers: Seq<PatternRecognizer>,
    pub metadata: Seq<RegistrationView>,
}

/// Views of a run of registration metadata.
pub open spec fn registration_views(s: Seq<RecognizerMetadata>) -> Seq<RegistrationView> {
    s.map_values(|m: RecognizerMetadata| m@)
}

/// Holds the pattern recognizers an analyzer runs, each beside its metadata.
#[derive(Debug)]
pub struct RecognizerRegistry {
    recognizers: Vec<PatternRecognizer>,
    metadata: Vec<RecognizerMetadata>,
}

impl View for RecognizerRegistry {
    type V = RegistryView;

    closed spec fn view(&self) -> RegistryView {
        RegistryView {
            recognizers: self.recognizers@,
            metadata: registration_views(self.metadata@),
        }
    }
}

/// The metadata generated for the recognizer registered at `index` without metadata.
pub open spec fn generated_registration(entity: EntityType, index: nat) -> RegistrationView {
    RegistrationView { id: custom_id(entity, index), version: Some(ENGINE_VERSION@) }
}

/// Identifier of the built-in recognizer at position `i`.
pub open spec fn builtin_id(i: int) -> Seq<char> {
    if i == 0 {
        "builtin.credit-card"@
    } else if i == 1 {
        "builtin.us-ssn"@
    } else if i == 2 {
        "builtin.email"@
    } else if i == 3 {
        "builtin.us-phone"@
    } else if i == 4 {
        "builtin.ip-address"@
    } else if i == 5 {
        "builtin.mac-address"@
    } else if i == 6 {
        "builtin.iban"@
    } else if i == 7 {
        "builtin.crypto-wallet"@
    } else if i == 8 {
        "builtin.url"@
    } else if i == 9 {
        "builtin.us-itin"@
    } else if i == 10 {
        "builtin.api-key"@
    } else {
        Seq::empty()
    }
}

/// The built-in recognizer at position `i`: its entity, validator, patterns (name,
/// expression, base score and context score) and context words.
pub open spec fn builtin_recognizer(r: PatternRecognizer, i: int) -> bool {
    if i == 0 {
        &&& r.entity_type == EntityType::CreditCard
        &&& r.validator == Some(Validator::Luhn)
        &&& r.patterns@.len() == 1
        &&& r.context@.len() == 5
        &&& r.patterns@[0].spec_name() == "cc"@
        &&& r.patterns@[0].spec_regex() == r"\b(?:\d{4}[-\s]?){3}\d{4}\b"@
        &&& r.patterns@[0].spec_base_score() == 0x3e99_999a
        &&& r.patterns@[0].spec_context_score() == 0x3f26_6666
        &&& r.context@[0]@ == "credit"@
        &&& r.context@[1]@ == "card"@
        &&& r.context@[2]@ == "visa"@
        &&& r.context@[3]@ == "mastercard"@
        &&& r.context@[4]@ == "amex"@
    } else if i == 1 {
        &&& r.entity_type == EntityType::Ssn
        &&& r.validator is None
        &&& r.patterns@.len() == 1
        &&& r.context@.len() == 2
        &&& r.patterns@[0].spec_name() == "ssn"@
        &&& r.patterns@[0].spec_regex() == r"\b\d{3}[-\s]?\d{2}[-\s]?\d{4}\b"@
        &&& r.patterns@[0].spec_base_score() == 0x3e99_999a
        &&& r.patterns@[0].spec_context_score() == 0x3f26_6666
        &&& r.context@[0]@ == "ssn"@
        &&& r.context@[1]@ == "social security"@
    } else if i == 2 {
        &&& r.entity_type == EntityType::Email
        &&& r.validator is None
        &&& r.patterns@.len() == 1
        &&& r.context@.len() == 3
        &&& r.patterns@[0].spec_name() == "email"@
        &&& r.patterns@[0].spec_regex() == r"\b[A-Za-z0-9._%+-]+@[A-Za-z0-9.-]+\.[A-Za-z]{2,}\b"@
        &&& r.patterns@[0].spec_base_score() == 0x3f33_3333
        &&& r.patterns@[0].spec_context_score() == 0x3f80_0000
        &&& r.context@[0]@ == "email"@
        &&& r.context@[1]@ == "e-mail"@
        &&& r.context@[2]@ == "contact"@
    } else if i == 3 {
        &&& r.entity_type == EntityType::PhoneNumber
        &&& r.validator is None
        &&& r.patterns@.len() == 1
        &&& r.context@.len() == 5
        &&& r.patterns@[0].spec_name() == "phone"@
        &&& r.patterns@[0].spec_regex() == r"\b(?:\+?1[-.\s]?)?\(?[0-9]{3}\)?[-.\s]?[0-9]{3}[-.\s]?[0-9]{4}\b"@
        &&& r.patterns@[0].spec_base_score() == 0x3ecc_cccd
        &&& r.patterns@[0].spec_context_score() == 0x3f40_0000
        &&& r.context@[0]@ == "phone"@
        &&& r.context@[1]@ == "tel"@
        &&& r.context@[2]@ == "call"@
        &&& r.context@[3]@ == "mobile"@
        &&& r.context@[4]@ == "cell"@
    } else if i == 4 {
        &&& r.entity_type == EntityType::IpAddress
        &&& r.validator is None
        &&& r.patterns@.len() == 2
        &&& r.context@.len() == 2
        &&& r.patterns@[0].spec_name() == "ipv4"@
        &&& r.patterns@[0].spec_regex() == r"\b(?:\d{1,3}\.){3}\d{1,3}\b"@
        &&& r.patterns@[0].spec_base_score() == 0x3f19_999a
        &&& r.patterns@[0].spec_context_score() == 0x3f73_3334
        &&& r.patterns@[1].spec_name() == "ipv6"@
        &&& r.patterns@[1].spec_regex() == r"\b(?:[a-fA-F0-9]{1,4}:){7}[a-fA-F0-9]{1,4}\b"@
        &&& r.patterns@[1].spec_base_score() == 0x3f19_999a
        &&& r.patterns@[1].spec_context_score() == 0x3f73_3334
        &&& r.context@[0]@ == "ip"@
        &&& r.context@[1]@ == "address"@
    } else if i == 5 {
        &&& r.entity_type == EntityType::MacAddress
        &&& r.validator is None
        &&& r.patterns@.len() == 1
        &&& r.context@.len() == 2
        &&& r.patterns@[0].spec_name() == "mac"@
        &&& r.patterns@[0].spec_regex() == r"\b(?:[a-fA-F0-9]{2}[:-]){5}[a-fA-F0-9]{2}\b"@
        &&& r.patterns@[0].spec_base_score() == 0x3f33_3333
        &&& r.patterns@[0].spec_context_score() == 0x3f80_0000
        &&& r.context@[0]@ == "mac"@
        &&& r.context@[1]@ == "hardware"@
    } else if i == 6 {
        &&& r.entity_type == EntityType::IbanCode
        &&& r.validator == Some(Validator::IbanMod97)
        &&& r.patterns@.len() == 1
        &&& r.context@.len() == 3
        &&& r.patterns@[0].spec_name() == "iban"@
        &&& r.patterns@[0].spec_regex() == r"\b[A-Z]{2}\d{2}[A-Z0-9]{11,30}\b"@
        &&& r.patterns@[0].spec_base_score() == 0x3e99_999a
        &&& r.patterns@[0].spec_context_score() == 0x3f26_6666
        &&& r.context@[0]@ == "iban"@
        &&& r.context@[1]@ == "bank"@
        &&& r.context@[2]@ == "account"@
    } else if i == 7 {
        &&& r.entity_type == EntityType::CryptoWallet
        &&& r.validator is None
        &&& r.patterns@.len() == 2
        &&& r.context@.len() == 6
        &&& r.patterns@[0].spec_name() == "eth"@
        &&& r.patterns@[0].spec_regex() == r"\b0x[a-fA-F0-9]{40}\b"@
        &&& r.patterns@[0].spec_base_score() == 0x3f19_999a
        &&& r.patterns@[0].spec_context_score() == 0x3f73_3334
        &&& r.patterns@[1].spec_name() == "btc"@
        &&& r.patterns@[1].spec_regex() == r"\b(?:bc1[a-z0-9]{25,90}|[13][a-km-zA-HJ-NP-Z1-9]{25,34})\b"@
        &&& r.patterns@[1].spec_base_score() == 0x3f00_0000
        &&& r.patterns@[1].spec_context_score() == 0x3f59_999a
        &&& r.context@[0]@ == "wallet"@
        &&& r.context@[1]@ == "crypto"@
        &&& r.context@[2]@ == "bitcoin"@
        &&& r.context@[3]@ == "ethereum"@
        &&& r.context@[4]@ == "btc"@
        &&& r.context@[5]@ == "eth"@
    } else if i == 8 {
        &&& r.entity_type == EntityType::Url
        &&& r.validator is None
        &&& r.patterns@.len() == 1
        &&& r.context@.len() == 0
        &&& r.patterns@[0].spec_name() == "url"@
        &&& r.patterns@[0].spec_regex() == r"https?://[^\s]+"@
        &&& r.patterns@[0].spec_base_score() == 0x3f00_0000
        &&& r.patterns@[0].spec_context_score() == 0x3f59_999a
    } else if i == 9 {
        &&& r.entity_type == EntityType::UsItin
        &&& r.validator is None
        &&& r.patterns@.len() == 1
        &&& r.context@.len() == 2
        &&& r.patterns@[0].spec_name() == "itin"@
        &&& r.patterns@[0].spec_regex() == r"\b9\d{2}[-\s]?[7-9]\d[-\s]?\d{4}\b"@
        &&& r.patterns@[0].spec_base_score() == 0x3e99_999a
        &&& r.patterns@[0].spec_context_score() == 0x3f26_6666
        &&& r.context@[0]@ == "itin"@
        &&& r.context@[1]@ == "taxpayer"@
    } else if i == 10 {
        &&& r.entity_type == EntityType::ApiKey
        &&& r.validator is None
        &&& r.patterns@.len() == 3
        &&& r.context@.len() == 4
        &&& r.patterns@[0].spec_name() == "openai"@
        &&& r.patterns@[0].spec_regex() == r"\bsk-[a-zA-Z0-9]{20,}\b"@
        &&& r.patterns@[0].spec_base_score() == 0x3f66_6666
        &&& r.patterns@[0].spec_context_score() == 0x3f80_0000
        &&& r.patterns@[1].spec_name() == "github"@
        &&& r.patterns@[1].spec_regex() == r"\bghp_[a-zA-Z0-9]{36}\b"@
        &&& r.patterns@[1].spec_base_score() == 0x3f66_6666
        &&& r.patterns@[1].spec_context_score() == 0x3f80_0000
        &&& r.patterns@[2].spec_name() == "slack"@
        &&& r.patterns@[2].spec_regex() == r"\bxox[baprs]-[a-zA-Z0-9-]{10,}\b"@
        &&& r.patterns@[2].spec_base_score() == 0x3f66_6666
        &&& r.patterns@[2].spec_context_score() == 0x3f80_0000
        &&& r.context@[0]@ == "api"@
        &&& r.context@[1]@ == "key"@
        &&& r.context@[2]@ == "token"@
        &&& r.context@[3]@ == "secret"@
    } else {
        false
    }
}

/// Number of built-in recognizers.
pub const BUILTIN_RECOGNIZER_COUNT: usize = 11;

impl RecognizerRegistry {
    /// An empty registry.
    pub fn empty() -> (r: RecognizerRegistry)
        ensures
            r@.recognizers.len() == 0,
            r@.metadata.len() == 0,
    {
        let metadata: Vec<RecognizerMetadata> = Vec::new();
        proof {
            assert(registration_views(metadata@).len() == 0);
        }
        RecognizerRegistry { recognizers: Vec::new(), metadata }
    }

    /// A registry preloaded with the built-in recognizers.
    pub fn with_predefined() -> (r: RecognizerRegistry)
        ensures
            r@.recognizers.len() == BUILTIN_RECOGNIZER_COUNT,
            r@.metadata.len() == BUILTIN_RECOGNIZER_COUNT,
            forall|i: int|
                0 <= i < BUILTIN_RECOGNIZER_COUNT ==> builtin_recognizer(
                    #[trigger] r@.recognizers[i],
                    i,
                ),
            forall|i: int|
                0 <= i < BUILTIN_RECOGNIZER_COUNT ==> (#[trigger] r@.metadata[i]) == (
                RegistrationView { id: builtin_id(i), version: Some(ENGINE_VERSION@) }),
    {
        let recognizers = predefined();
        let metadata = predefined_metadata();
        RecognizerRegistry { recognizers, metadata }
    }

    /// Register a recognizer with generated registry-local metadata: the identifier
    /// `custom.TAG.N`, where `N` is the number of recognizers already registered, and
    /// this engine's version.
    pub fn add(&mut self, recognizer: PatternRecognizer) -> (r: &mut RecognizerRegistry)
        ensures
            r@.recognizers == old(self)@.recognizers.push(recognizer),
            r@.metadata == old(self)@.metadata.push(
                generated_registration(recognizer.entity_type, old(self)@.recognizers.len()),
            ),
            final(self)@ == final(r)@,
    {
        let index = self.recognizers.len();
        let mut id_text = String::from_str("custom.");
        id_text.append(recognizer.entity_type.as_tag());
        proof {
            reveal_strlit(".");
        }
        id_text.append(".");
        let digits = decimal_string(index);
        id_text.append(digits.as_str());
        proof {
            lemma_custom_id_valid(recognizer.entity_type, index);
            assert(id_text@ =~= custom_id(recognizer.entity_type, index as nat));
            reveal_strlit("0.1.0");
            assert(!is_blank(ENGINE_VERSION@)) by {
                assert(ENGINE_VERSION@[0] == '0');
            }
        }
        let id = RecognizerId::new(id_text.as_str()).unwrap();
        let metadata = RecognizerMetadata::new(id).with_version(ENGINE_VERSION);
        let ghost before = self.metadata@;
        self.recognizers.push(recognizer);
        self.metadata.push(metadata);
        proof {
            assert(registration_views(self.metadata@) =~= registration_views(before).push(metadata@));
        }
        self
    }

    /// Register a recognizer with explicit stable metadata, refusing an identifier that
    /// is already registered.
    pub fn add_with_metadata(&mut self, recognizer: PatternRecognizer, metadata: RecognizerMetadata) -> (r:
        Result<&mut RecognizerRegistry, RegistryError>)
        ensures
            (exists|k: int|
                0 <= k < old(self)@.metadata.len() && (#[trigger] old(self)@.metadata[k]).id
                    == metadata@.id) ==> (r matches Err(RegistryError::DuplicateRecognizerId { id })
                && id@ == metadata@.id && final(self)@ == old(self)@),
            !(exists|k: int|
                0 <= k < old(self)@.metadata.len() && (#[trigger] old(self)@.metadata[k]).id
                    == metadata@.id) ==> (r matches Ok(m) && m@.recognizers == old(
                self,
            )@.recognizers.push(recognizer) && m@.metadata == old(self)@.metadata.push(metadata@)
                && final(self)@ == final(m)@),
    {
        let ghost views = registration_views(self.metadata@);
        let mut i: usize = 0;
        while i < self.metadata.len()
            invariant
                i <= self.metadata@.len(),
                views == registration_views(self.metadata@),
                forall|k: int| 0 <= k < i ==> (#[trigger] views[k]).id != metadata@.id,
            decreases self.metadata@.len() - i,
        {
            if self.metadata[i].id().same_as(metadata.id()) {
                proof {
                    assert(views[i as int].id == metadata@.id);
                }
                return Err(RegistryError::DuplicateRecognizerId { id: metadata.id().clone() });
            }
            i = i + 1;
        }
        let ghost m = metadata@;
        self.recognizers.push(recognizer);
        self.metadata.push(metadata);
        proof {
            assert(registration_views(self.metadata@) =~= views.push(m));
        }
        Ok(self)
    }

    /// The registered recognizers.
    pub fn recognizers(&self) -> (r: &[PatternRecognizer])
        ensures
            r@ == self@.recognizers,
    {
        self.recognizers.as_slice()
    }

    /// Metadata aligned with [`Self::recognizers`].
    pub fn metadata(&self) -> (r: &[RecognizerMetadata])
        ensures
            registration_views(r@) == self@.metadata,
    {
        self.metadata.as_slice()
    }

    /// Registered recognizers paired with their metadata, in registration order.
    pub fn entries(&self) -> (r: Vec<(&PatternRecognizer, &RecognizerMetadata)>)
        ensures
            r@.len() == if self@.recognizers.len() <= self@.metadata.len() {
                self@.recognizers.len()
            } else {
                self@.metadata.len()
            },
            forall|i: int|
                0 <= i < r@.len() ==> *(#[trigger] r@[i]).0 == self@.recognizers[i] && r@[i].1@
                    == self@.metadata[i],
    {
        let mut out: Vec<(&PatternRecognizer, &RecognizerMetadata)> = Vec::new();
        let mut i: usize = 0;
        while i < self.recognizers.len() && i < self.metadata.len()
            invariant
                i <= self.recognizers@.len(),
                i <= self.metadata@.len(),
                out@.len() == i,
                forall|k: int|
                    0 <= k < i ==> *(#[trigger] out@[k]).0 == self@.recognizers[k] && out@[k].1@
                        == self@.metadata[k],
            decreases self.recognizers@.len() - i,
        {
            out.push((&self.recognizers[i], &self.metadata[i]));
            i = i + 1;
        }
        out
    }

    /// Number of registered recognizers.
    pub fn len(&self) -> (r: usize)
        ensures
            r == self@.recognizers.len(),
    {
        self.recognizers.len()
    }

    /// Whether the registry holds no recognizers.
    pub fn is_empty(&self) -> (r: bool)
        ensures
            r == (self@.recognizers.len() == 0),
    {
        self.recognizers.len() == 0
    }
}

impl Default for RecognizerRegistry {
    fn default() -> (r: RecognizerRegistry)
        ensures
            r@.recognizers.len() == BUILTIN_RECOGNIZER_COUNT,
            forall|i: int|
                0 <= i < BUILTIN_RECOGNIZER_COUNT ==> builtin_recognizer(
                    #[trigger] r@.recognizers[i],
                    i,
                ),
    {
        RecognizerRegistry::with_predefined()
    }
}

/// Failure to register recognizer metadata.
#[derive(Debug, Clone, PartialEq, Eq)]
pub enum RegistryError {
    /// A stable recognizer identifier is already registered.
    DuplicateRecognizerId { id: RecognizerId },
}

/// Metadata of a built-in recognizer: its identifier and this engine's version.
fn builtin_metadata(id: &str) -> (r: RecognizerMetadata)
    requires
        valid_identifier(id@),
    ensures
        r@ == (RegistrationView { id: id@, version: Some(ENGINE_VERSION@) }),
{
    proof {
        reveal_strlit("0.1.0");
        assert(!is_blank(ENGINE_VERSION@)) by {
            assert(ENGINE_VERSION@[0] == '0');
        }
    }
    RecognizerMetadata::new(RecognizerId::new(id).unwrap()).with_version(ENGINE_VERSION)
}

fn predefined_metadata() -> (r: Vec<RecognizerMetadata>)
    ensures
        r@.len() == BUILTIN_RECOGNIZER_COUNT,
        forall|i: int|
            0 <= i < BUILTIN_RECOGNIZER_COUNT ==> (#[trigger] registration_views(r@)[i]) == (
            RegistrationView { id: builtin_id(i), version: Some(ENGINE_VERSION@) }),
{
    proof {
        reveal_strlit("builtin.credit-card");
        assert("builtin.credit-card"@ =~= seq!['b', 'u', 'i', 'l', 't', 'i', 'n', '.', 'c', 'r', 'e', 'd', 'i', 't', '-', 'c', 'a', 'r', 'd']);
        lemma_valid_identifier("builtin.credit-card"@);
        reveal_strlit("builtin.us-ssn");
        assert("builtin.us-ssn"@ =~= seq!['b', 'u', 'i', 'l', 't', 'i', 'n', '.', 'u', 's', '-', 's', 's', 'n']);
        lemma_valid_identifier("builtin.us-ssn"@);
        reveal_strlit("builtin.email");
        assert("builtin.email"@ =~= seq!['b', 'u', 'i', 'l', 't', 'i', 'n', '.', 'e', 'm', 'a', 'i', 'l']);
        lemma_valid_identifier("builtin.email"@);
        reveal_strlit("builtin.us-phone");
        assert("builtin.us-phone"@ =~= seq!['b', 'u', 'i', 'l', 't', 'i', 'n', '.', 'u', 's', '-', 'p', 'h', 'o', 'n', 'e']);
        lemma_valid_identifier("builtin.us-phone"@);
        reveal_strlit("builtin.ip-address");
        assert("builtin.ip-address"@ =~= seq!['b', 'u', 'i', 'l', 't', 'i', 'n', '.', 'i', 'p', '-', 'a', 'd', 'd', 'r', 'e', 's', 's']);
        lemma_valid_identifier("builtin.ip-address"@);
        reveal_strlit("builtin.mac-address");
        assert("builtin.mac-address"@ =~= seq!['b', 'u', 'i', 'l', 't', 'i', 'n', '.', 'm', 'a', 'c', '-', 'a', 'd', 'd', 'r', 'e', 's', 's']);
        lemma_valid_identifier("builtin.mac-address"@);
        reveal_strlit("builtin.iban");
        assert("builtin.iban"@ =~= seq!['b', 'u', 'i', 'l', 't', 'i', 'n', '.', 'i', 'b', 'a', 'n']);
        lemma_valid_identifier("builtin.iban"@);
        reveal_strlit("builtin.crypto-wallet");
        assert("builtin.crypto-wallet"@ =~= seq!['b', 'u', 'i', 'l', 't', 'i', 'n', '.', 'c', 'r', 'y', 'p', 't', 'o', '-', 'w', 'a', 'l', 'l', 'e', 't']);
        lemma_valid_identifier("builtin.crypto-wallet"@);
        reveal_strlit("builtin.url");
        assert("builtin.url"@ =~= seq!['b', 'u', 'i', 'l', 't', 'i', 'n', '.', 'u', 'r', 'l']);
        lemma_valid_identifier("builtin.url"@);
        reveal_strlit("builtin.us-itin");
        assert("builtin.us-itin"@ =~= seq!['b', 'u', 'i', 'l', 't', 'i', 'n', '.', 'u', 's', '-', 'i', 't', 'i', 'n']);
        lemma_valid_identifier("builtin.us-itin"@);
        reveal_strlit("builtin.api-key");
        assert("builtin.api-key"@ =~= seq!['b', 'u', 'i', 'l', 't', 'i', 'n', '.', 'a', 'p', 'i', '-', 'k', 'e', 'y']);
        lemma_valid_identifier("builtin.api-key"@);
    }
    let r = vec![
        builtin_metadata("builtin.credit-card"),
        builtin_metadata("builtin.us-ssn"),
        builtin_metadata("builtin.email"),
        builtin_metadata("builtin.us-phone"),
        builtin_metadata("builtin.ip-address"),
        builtin_metadata("builtin.mac-address"),
        builtin_metadata("builtin.iban"),
        builtin_metadata("builtin.crypto-wallet"),
        builtin_metadata("builtin.url"),
        builtin_metadata("builtin.us-itin"),
        builtin_metadata("builtin.api-key"),
    ];
    proof {
        assert forall|i: int| 0 <= i < BUILTIN_RECOGNIZER_COUNT implies (
        #[trigger] registration_views(r@)[i]) == (RegistrationView {
            id: builtin_id(i),
            version: Some(ENGINE_VERSION@),
        }) by {
            assert(registration_views(r@)[i] == r@[i]@);
        }
    }
    r
}

fn predefined() -> (r: Vec<PatternRecognizer>)
    ensures
        r@.len() == BUILTIN_RECOGNIZER_COUNT,
        forall|i: int| 0 <= i < BUILTIN_RECOGNIZER_COUNT ==> builtin_recognizer(#[trigger] r@[i], i),
{
    vec![
        PatternRecognizer {
            entity_type: EntityType::CreditCard,
            patterns: vec![
                Pattern::builtin("cc", r"\b(?:\d{4}[-\s]?){3}\d{4}\b", 0x3e99_999a, 0x3f26_6666),
            ],
            context: &["credit", "card", "visa", "mastercard", "amex"],
            validator: Some(Validator::Luhn),
        },
        PatternRecognizer {
            entity_type: EntityType::Ssn,
            patterns: vec![
                Pattern::builtin("ssn", r"\b\d{3}[-\s]?\d{2}[-\s]?\d{4}\b", 0x3e99_999a, 0x3f26_6666),
            ],
            context: &["ssn", "social security"],
            validator: None,
        },
        PatternRecognizer {
            entity_type: EntityType::Email,
            patterns: vec![
                Pattern::builtin("email", r"\b[A-Za-z0-9._%+-]+@[A-Za-z0-9.-]+\.[A-Za-z]{2,}\b", 0x3f33_3333, 0x3f80_0000),
            ],
            context: &["email", "e-mail", "contact"],
            validator: None,
        },
        PatternRecognizer {
            entity_type: EntityType::PhoneNumber,
            patterns: vec![
                Pattern::builtin("phone", r"\b(?:\+?1[-.\s]?)?\(?[0-9]{3}\)?[-.\s]?[0-9]{3}[-.\s]?[0-9]{4}\b", 0x3ecc_cccd, 0x3f40_0000),
            ],
            context: &["phone", "tel", "call", "mobile", "cell"],
            validator: None,
        },
        PatternRecognizer {
            entity_type: EntityType::IpAddress,
            patterns: vec![
                Pattern::builtin("ipv4", r"\b(?:\d{1,3}\.){3}\d{1,3}\b", 0x3f19_999a, 0x3f73_3334),
                Pattern::builtin("ipv6", r"\b(?:[a-fA-F0-9]{1,4}:){7}[a-fA-F0-9]{1,4}\b", 0x3f19_999a, 0x3f73_3334),
            ],
            context: &["ip", "address"],
            validator: None,
        },
        PatternRecognizer {
            entity_type: EntityType::MacAddress,
            patterns: vec![
                Pattern::builtin("mac", r"\b(?:[a-fA-F0-9]{2}[:-]){5}[a-fA-F0-9]{2}\b", 0x3f33_3333, 0x3f80_0000),
            ],
            context: &["mac", "hardware"],
            validator: None,
        },
        PatternRecognizer {
            entity_type: EntityType::IbanCode,
            patterns: vec![
                Pattern::builtin("iban", r"\b[A-Z]{2}\d{2}[A-Z0-9]{11,30}\b", 0x3e99_999a, 0x3f26_6666),
            ],
            context: &["iban", "bank", "account"],
            validator: Some(Validator::IbanMod97),
        },
        PatternRecognizer {
            entity_type: EntityType::CryptoWallet,
            patterns: vec![
                Pattern::builtin("eth", r"\b0x[a-fA-F0-9]{40}\b", 0x3f19_999a, 0x3f73_3334),
                Pattern::builtin("btc", r"\b(?:bc1[a-z0-9]{25,90}|[13][a-km-zA-HJ-NP-Z1-9]{25,34})\b", 0x3f00_0000, 0x3f59_999a),
            ],
            context: &["wallet", "crypto", "bitcoin", "ethereum", "btc", "eth"],
            validator: None,
        },
        PatternRecognizer {
            entity_type: EntityType::Url,
            patterns: vec![
                Pattern::builtin("url", r"https?://[^\s]+", 0x3f00_0000, 0x3f59_999a),
            ],
            context: &[],
            validator: None,
        },
        PatternRecognizer {
            entity_type: EntityType::UsItin,
            patterns: vec![
                Pattern::builtin("itin", r"\b9\d{2}[-\s]?[7-9]\d[-\s]?\d{4}\b", 0x3e99_999a, 0x3f26_6666),
            ],
            context: &["itin", "taxpayer"],
            validator: None,
        },
        PatternRecognizer {
            entity_type: EntityType::ApiKey,
            patterns: vec![
                Pattern::builtin("openai", r"\bsk-[a-zA-Z0-9]{20,}\b", 0x3f66_6666, 0x3f80_0000),
                Pattern::builtin("github", r"\bghp_[a-zA-Z0-9]{36}\b", 0x3f66_6666, 0x3f80_0000),
                Pattern::builtin("slack", r"\bxox[baprs]-[a-zA-Z0-9-]{10,}\b", 0x3f66_6666, 0x3f80_0000),
            ],
            context: &["api", "key", "token", "secret"],
            validator: None,
        },
    ]
}

} // verus!
