//! PII entity taxonomy.
use vstd::prelude::*;

use crate::text::str_eq;
use crate::types::{identifier_check, EntityId, valid_identifier};

verus! {

/// A category of personally-identifiable information.
///
/// The format-structured variants are detectable by regex plus (optionally) a
/// checksum validator. `Person`, `Location` and `Nrp` have no regex form; they
/// are reserved for backends and never emitted by the built-in patterns.
#[derive(Debug, Clone, Copy, PartialEq, Eq, Hash, Structural)]
#[non_exhaustive]
pub enum EntityType {
    CreditCard,
    Ssn,
    Email,
    PhoneNumber,
    IpAddress,
    MacAddress,
    IbanCode,
    CryptoWallet,
    Url,
    UsItin,
    ApiKey,
    /// Reserved for a model backend.
    Person,
    /// Reserved for a model backend.
    Location,
    /// Nationality, religion or political group; reserved for a model backend.
    Nrp,
}

/// Canonical uppercase tag of each entity type.
pub open spec fn entity_tag(e: EntityType) -> Seq<char> {
    match e {
        EntityType::CreditCard => seq!['C', 'R', 'E', 'D', 'I', 'T', '_', 'C', 'A', 'R', 'D'],
        EntityType::Ssn => seq!['U', 'S', '_', 'S', 'S', 'N'],
        EntityType::Email => seq!['E', 'M', 'A', 'I', 'L', '_', 'A', 'D', 'D', 'R', 'E', 'S', 'S'],
        EntityType::PhoneNumber => seq!['P', 'H', 'O', 'N', 'E', '_', 'N', 'U', 'M', 'B', 'E', 'R'],
        EntityType::IpAddress => seq!['I', 'P', '_', 'A', 'D', 'D', 'R', 'E', 'S', 'S'],
        EntityType::MacAddress => seq!['M', 'A', 'C', '_', 'A', 'D', 'D', 'R', 'E', 'S', 'S'],
        EntityType::IbanCode => seq!['I', 'B', 'A', 'N', '_', 'C', 'O', 'D', 'E'],
        EntityType::CryptoWallet => seq!['C', 'R', 'Y', 'P', 'T', 'O'],
        EntityType::Url => seq!['U', 'R', 'L'],
        EntityType::UsItin => seq!['U', 'S', '_', 'I', 'T', 'I', 'N'],
        EntityType::ApiKey => seq!['A', 'P', 'I', '_', 'K', 'E', 'Y'],
        EntityType::Person => seq!['P', 'E', 'R', 'S', 'O', 'N'],
        EntityType::Location => seq!['L', 'O', 'C', 'A', 'T', 'I', 'O', 'N'],
        EntityType::Nrp => seq!['N', 'R', 'P'],
    }
}

/// The entity type whose canonical tag is `tag`.
pub open spec fn entity_from_tag(tag: Seq<char>) -> Option<EntityType> {
    if tag == entity_tag(EntityType::CreditCard) {
        Some(EntityType::CreditCard)
    } else if tag == entity_tag(EntityType::Ssn) {
        Some(EntityType::Ssn)
    } else if tag == entity_tag(EntityType::Email) {
        Some(EntityType::Email)
    } else if tag == entity_tag(EntityType::PhoneNumber) {
        Some(EntityType::PhoneNumber)
    } else if tag == entity_tag(EntityType::IpAddress) {
        Some(EntityType::IpAddress)
    } else if tag == entity_tag(EntityType::MacAddress) {
        Some(EntityType::MacAddress)
    } else if tag == entity_tag(EntityType::IbanCode) {
        Some(EntityType::IbanCode)
    } else if tag == entity_tag(EntityType::CryptoWallet) {
        Some(EntityType::CryptoWallet)
    } else if tag == entity_tag(EntityType::Url) {
        Some(EntityType::Url)
    } else if tag == entity_tag(EntityType::UsItin) {
        Some(EntityType::UsItin)
    } else if tag == entity_tag(EntityType::ApiKey) {
        Some(EntityType::ApiKey)
    } else if tag == entity_tag(EntityType::Person) {
        Some(EntityType::Person)
    } else if tag == entity_tag(EntityType::Location) {
        Some(EntityType::Location)
    } else if tag == entity_tag(EntityType::Nrp) {
        Some(EntityType::Nrp)
    } else {
        None
    }
}

/// The text of every canonical tag literal is its `entity_tag`.
pub proof fn reveal_entity_tags()
    ensures
        "CREDIT_CARD"@ == entity_tag(EntityType::CreditCard),
        "US_SSN"@ == entity_tag(EntityType::Ssn),
        "EMAIL_ADDRESS"@ == entity_tag(EntityType::Email),
        "PHONE_NUMBER"@ == entity_tag(EntityType::PhoneNumber),
        "IP_ADDRESS"@ == entity_tag(EntityType::IpAddress),
        "MAC_ADDRESS"@ == entity_tag(EntityType::MacAddress),
        "IBAN_CODE"@ == entity_tag(EntityType::IbanCode),
        "CRYPTO"@ == entity_tag(EntityType::CryptoWallet),
        "URL"@ == entity_tag(EntityType::Url),
        "US_ITIN"@ == entity_tag(EntityType::UsItin),
        "API_KEY"@ == entity_tag(EntityType::ApiKey),
        "PERSON"@ == entity_tag(EntityType::Person),
        "LOCATION"@ == entity_tag(EntityType::Location),
        "NRP"@ == entity_tag(EntityType::Nrp),
{
    reveal_strlit("CREDIT_CARD");
    assert("CREDIT_CARD"@ =~= entity_tag(EntityType::CreditCard));
    reveal_strlit("US_SSN");
    assert("US_SSN"@ =~= entity_tag(EntityType::Ssn));
    reveal_strlit("EMAIL_ADDRESS");
    assert("EMAIL_ADDRESS"@ =~= entity_tag(EntityType::Email));
    reveal_strlit("PHONE_NUMBER");
    assert("PHONE_NUMBER"@ =~= entity_tag(EntityType::PhoneNumber));
    reveal_strlit("IP_ADDRESS");
    assert("IP_ADDRESS"@ =~= entity_tag(EntityType::IpAddress));
    reveal_strlit("MAC_ADDRESS");
    assert("MAC_ADDRESS"@ =~= entity_tag(EntityType::MacAddress));
    reveal_strlit("IBAN_CODE");
    assert("IBAN_CODE"@ =~= entity_tag(EntityType::IbanCode));
    reveal_strlit("CRYPTO");
    assert("CRYPTO"@ =~= entity_tag(EntityType::CryptoWallet));
    reveal_strlit("URL");
    assert("URL"@ =~= entity_tag(EntityType::Url));
    reveal_strlit("US_ITIN");
    assert("US_ITIN"@ =~= entity_tag(EntityType::UsItin));
    reveal_strlit("API_KEY");
    assert("API_KEY"@ =~= entity_tag(EntityType::ApiKey));
    reveal_strlit("PERSON");
    assert("PERSON"@ =~= entity_tag(EntityType::Person));
    reveal_strlit("LOCATION");
    assert("LOCATION"@ =~= entity_tag(EntityType::Location));
    reveal_strlit("NRP");
    assert("NRP"@ =~= entity_tag(EntityType::Nrp));
}

impl EntityType {
    /// Canonical uppercase tag, e.g. `CREDIT_CARD`.
    pub fn as_tag(&self) -> (r: &'static str)
        ensures
            r@ == entity_tag(*self),
    {
        proof {
            reveal_entity_tags();
        }
        match self {
            EntityType::CreditCard => "CREDIT_CARD",
            EntityType::Ssn => "US_SSN",
            EntityType::Email => "EMAIL_ADDRESS",
            EntityType::PhoneNumber => "PHONE_NUMBER",
            EntityType::IpAddress => "IP_ADDRESS",
            EntityType::MacAddress => "MAC_ADDRESS",
            EntityType::IbanCode => "IBAN_CODE",
            EntityType::CryptoWallet => "CRYPTO",
            EntityType::Url => "URL",
            EntityType::UsItin => "US_ITIN",
            EntityType::ApiKey => "API_KEY",
            EntityType::Person => "PERSON",
            EntityType::Location => "LOCATION",
            EntityType::Nrp => "NRP",
        }
    }

    /// Convert a canonical open entity identifier into the legacy taxonomy.
    pub fn from_tag(tag: &str) -> (r: Option<EntityType>)
        ensures
            r == entity_from_tag(tag@),
    {
        proof {
            reveal_entity_tags();
        }
        if str_eq(tag, "CREDIT_CARD") {
            Some(EntityType::CreditCard)
        } else if str_eq(tag, "US_SSN") {
            Some(EntityType::Ssn)
        } else if str_eq(tag, "EMAIL_ADDRESS") {
            Some(EntityType::Email)
        } else if str_eq(tag, "PHONE_NUMBER") {
            Some(EntityType::PhoneNumber)
        } else if str_eq(tag, "IP_ADDRESS") {
            Some(EntityType::IpAddress)
        } else if str_eq(tag, "MAC_ADDRESS") {
            Some(EntityType::MacAddress)
        } else if str_eq(tag, "IBAN_CODE") {
            Some(EntityType::IbanCode)
        } else if str_eq(tag, "CRYPTO") {
            Some(EntityType::CryptoWallet)
        } else if str_eq(tag, "URL") {
            Some(EntityType::Url)
        } else if str_eq(tag, "US_ITIN") {
            Some(EntityType::UsItin)
        } else if str_eq(tag, "API_KEY") {
            Some(EntityType::ApiKey)
        } else if str_eq(tag, "PERSON") {
            Some(EntityType::Person)
        } else if str_eq(tag, "LOCATION") {
            Some(EntityType::Location)
        } else if str_eq(tag, "NRP") {
            Some(EntityType::Nrp)
        } else {
            None
        }
    }
}

/// Each tag names its own entity type: `from_tag(as_tag(e)) == Some(e)`.
pub proof fn law_tag_roundtrip(e: EntityType)
    ensures
        entity_from_tag(entity_tag(e)) == Some(e),
{
}

/// Every canonical tag is a valid open entity identifier.
pub proof fn lemma_tags_are_identifiers(e: EntityType)
    ensures
        valid_identifier(entity_tag(e)),
{
    let t = entity_tag(e);
    reveal_with_fuel(crate::types::first_disallowed_from, 16);
    assert(vstd::utf8::is_ascii_chars(t));
    vstd::utf8::is_ascii_chars_encode_utf8(t);
}

/// Every canonical tag is short, starts with a letter, and holds only identifier
/// characters.
pub proof fn lemma_tag_chars(e: EntityType)
    ensures
        0 < entity_tag(e).len() <= 13,
        crate::types::is_ascii_alnum(entity_tag(e)[0]),
        forall|j: int|
            0 <= j < entity_tag(e).len() ==> crate::types::is_identifier_char(
                #[trigger] entity_tag(e)[j],
            ),
{
}

impl EntityId {
    /// The open identifier of a legacy entity type.
    pub fn from_entity_type(e: EntityType) -> (r: EntityId)
        ensures
            r@ == entity_tag(e),
    {
        proof {
            lemma_tags_are_identifiers(e);
        }
        EntityId::new(e.as_tag()).unwrap()
    }
}

impl From<EntityType> for EntityId {
    /// The open identifier of a legacy entity type.
    fn from(value: EntityType) -> (r: EntityId)
        ensures
            r@ == entity_tag(value),
    {
        EntityId::from_entity_type(value)
    }
}

impl vstd::std_specs::convert::FromSpecImpl<EntityType> for EntityId {
    /// The identifier's text is stated by `from` itself; identifiers are compared
    /// by their text, so no single value stands for the conversion here.
    open spec fn obeys_from_spec() -> bool {
        false
    }

    open spec fn from_spec(v: EntityType) -> EntityId {
        choose|r: EntityId| r@ == entity_tag(v)
    }
}

} // verus!
