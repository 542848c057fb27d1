use presidio::{anonymize, AnonymizerEngine, EntityType, Operator, RecognizerResult};

fn result(entity: EntityType, start: usize, end: usize) -> RecognizerResult {
    RecognizerResult::new(entity, start, end, 0.9f32.to_bits())
}

#[test]
fn replace_without_value_uses_entity_tag() {
    let text = "mail a@b.co now";
    let out = anonymize(text, &[result(EntityType::Email, 5, 11)], &Operator::Replace(None));
    assert_eq!(out, "mail <EMAIL_ADDRESS> now");
}

#[test]
fn replace_with_value_and_redact() {
    let text = "x 123 y";
    let r = [result(EntityType::Ssn, 2, 5)];
    assert_eq!(
        anonymize(text, &r, &Operator::Replace(Some("[id]".to_string()))),
        "x [id] y"
    );
    assert_eq!(anonymize(text, &r, &Operator::Redact), "x  y");
}

#[test]
fn mask_keeps_requested_suffix_and_counts_characters() {
    let text = "é1234";
    let r = [result(EntityType::Ssn, 0, 6)];
    let out = anonymize(
        text,
        &r,
        &Operator::Mask {
            mask_char: '*',
            keep_last: 2,
        },
    );
    assert_eq!(out, "***34");
    let all = anonymize(
        text,
        &r,
        &Operator::Mask {
            mask_char: '#',
            keep_last: 10,
        },
    );
    assert_eq!(all, "é1234");
}

#[test]
fn hash_is_salted_sha256_in_lowercase_hex() {
    let text = "abc";
    let r = [result(EntityType::Email, 0, 3)];
    let out = anonymize(
        text,
        &r,
        &Operator::Hash {
            salt: String::new(),
        },
    );
    assert_eq!(
        out,
        "<EMAIL_ADDRESS:ba7816bf8f01cfea414140de5dae2223b00361a396177a9cb410ff61f20015ad>"
    );
    let salted = anonymize(
        text,
        &r,
        &Operator::Hash {
            salt: "s".to_string(),
        },
    );
    assert_ne!(salted, out);
}

#[test]
fn spans_off_boundaries_or_past_the_end_are_skipped() {
    let text = "é!";
    let inside = [result(EntityType::Url, 1, 2)];
    assert_eq!(anonymize(text, &inside, &Operator::Redact), "é!");
    let past = [result(EntityType::Url, 0, 9)];
    assert_eq!(anonymize(text, &past, &Operator::Redact), "é!");
}

#[test]
fn spans_apply_right_to_left() {
    let text = "ab cd ef";
    let r = [result(EntityType::Url, 0, 2), result(EntityType::Url, 6, 8)];
    assert_eq!(
        anonymize(text, &r, &Operator::Replace(Some("LONGER".to_string()))),
        "LONGER cd LONGER"
    );
}

#[test]
fn later_override_replaces_earlier_one() {
    let text = "a@b.co";
    let engine = AnonymizerEngine::new(Operator::Redact)
        .with_operator(EntityType::Email, Operator::Replace(Some("1".to_string())))
        .with_operator(EntityType::Email, Operator::Replace(Some("2".to_string())));
    assert_eq!(engine.anonymize(text, &[result(EntityType::Email, 0, 6)]), "2");
    assert_eq!(engine.anonymize(text, &[result(EntityType::Url, 0, 6)]), "");
}

#[test]
fn engine_without_overrides_matches_free_anonymize() {
    let text = "mail jane@acme.com or call 555-0100 now";
    let results = [result(EntityType::Email, 5, 18), result(EntityType::PhoneNumber, 27, 35)];
    let operators = vec![
        Operator::Replace(None),
        Operator::Replace(Some("[x]".to_string())),
        Operator::Redact,
        Operator::Mask { mask_char: '#', keep_last: 2 },
        Operator::Hash { salt: "pepper".to_string() },
    ];
    for op in operators {
        let expected = anonymize(text, &results, &op);
        assert_eq!(AnonymizerEngine::new(op).anonymize(text, &results), expected);
    }
}
