use presidio::validators::{iban_mod97, luhn};

#[test]
fn luhn_accepts_valid_card() {
    assert_eq!(luhn("4111111111111111"), Some(true));
}

#[test]
fn validators_luhn_rejects_invalid_card() {
    assert_eq!(luhn("4111111111111112"), Some(false));
}

#[test]
fn iban_accepts_valid() {
    assert_eq!(iban_mod97("GB82WEST12345698765432"), Some(true));
}

#[test]
fn iban_rejects_bad_checksum() {
    assert_eq!(iban_mod97("GB00WEST12345698765432"), Some(false));
}

#[test]
fn luhn_ignores_separators_between_digits() {
    assert_eq!(luhn("4111 1111-1111 1111"), Some(true));
}

#[test]
fn luhn_rejects_too_few_or_too_many_digits() {
    assert_eq!(luhn("411111111111"), Some(false));
    assert_eq!(luhn("41111111111111111111"), Some(false));
    assert_eq!(luhn(""), Some(false));
}

#[test]
fn luhn_accepts_nineteen_digits_with_valid_checksum() {
    assert_eq!(luhn("4111111111111111110"), Some(true));
    assert_eq!(luhn("4111111111111111111"), Some(false));
    assert_eq!(luhn("6011000990139424"), Some(true));
}

#[test]
fn iban_accepts_lowercase_and_spaced_input() {
    assert_eq!(iban_mod97("gb82 west 1234 5698 7654 32"), Some(true));
}

#[test]
fn iban_rejects_wrong_length() {
    assert_eq!(iban_mod97("GB82WEST1234"), Some(false));
    assert_eq!(iban_mod97(""), Some(false));
}
