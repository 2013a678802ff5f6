use cashu_escrow::model::{EscrowRegistration, TradeContract};
use cashu_escrow::wire::{
    parse_contract, parse_registration, parse_token_message, serialize_contract,
    serialize_registration, serialize_token_message,
};

fn sample_contract() -> TradeContract {
    TradeContract {
        trade_description: "Purchase of one Watermelon for 5000 satoshi. 3 days delivery to ..."
            .to_string(),
        trade_amount_sat: 5000,
        npubkey_seller: "aa0e5d79986b4a8d55e63878994b744681a267e4c9e0e5d51881cdaa687bbdc6"
            .to_string(),
        npubkey_buyer: "bb5237a7d7e57575c2b0e2d8e4d971c7bca1f9a2c804f8e2dba80cbbe3e2f0c5"
            .to_string(),
        npubkey_coordinator: "cc7c43057ed67afb4a45a9d28887f0a02e1d24c30c0e55cd18b0c4d6a7ba1f03"
            .to_string(),
        time_limit: 259200,
        seller_ecash_public_key:
            "0279be667ef9dcbbac55a06295ce870b07029bfcdb2dce28d959f2815b16f81798".to_string(),
        buyer_ecash_public_key:
            "02c6047f9441ed7d6d3045406e95c07cd85c778e4b8cef3ca7abac09b95c709ee5".to_string(),
    }
}

#[test]
fn contract_serialization_is_canonical() {
    let c = sample_contract();
    let json = serialize_contract(&c);
    let mut expected = String::new();
    expected.push_str("{\"trade_description\":\"Purchase of one Watermelon for 5000 satoshi. 3 days delivery to ...\",");
    expected.push_str("\"trade_amount_sat\":5000,");
    expected.push_str("\"npubkey_seller\":\"aa0e5d79986b4a8d55e63878994b744681a267e4c9e0e5d51881cdaa687bbdc6\",");
    expected.push_str("\"npubkey_buyer\":\"bb5237a7d7e57575c2b0e2d8e4d971c7bca1f9a2c804f8e2dba80cbbe3e2f0c5\",");
    expected.push_str("\"npubkey_coordinator\":\"cc7c43057ed67afb4a45a9d28887f0a02e1d24c30c0e55cd18b0c4d6a7ba1f03\",");
    expected.push_str("\"time_limit\":259200,");
    expected.push_str("\"seller_ecash_public_key\":\"0279be667ef9dcbbac55a06295ce870b07029bfcdb2dce28d959f2815b16f81798\",");
    expected.push_str("\"buyer_ecash_public_key\":\"02c6047f9441ed7d6d3045406e95c07cd85c778e4b8cef3ca7abac09b95c709ee5\"}");
    assert_eq!(json, expected);
}

#[test]
fn token_message_matches_reference_encoder() {
    // The canonical string escaping must agree byte for byte with the
    // standard JSON encoder.
    let samples = [
        "plain token",
        "with \"quotes\" and \\ backslash",
        "newline\n tab\t return\r",
        "low controls \u{0} \u{1} \u{7} \u{b} \u{1f}",
        "backspace \u{8} formfeed \u{c}",
        "unicode \u{e9}\u{4e16}\u{1f600} stays raw",
    ];
    for s in samples.iter() {
        let ours = cashu_escrow::wire::serialize_token_message(s);
        let reference = serde_json::to_string(s).unwrap();
        assert_eq!(ours, reference);
    }
}

#[test]
fn contract_round_trip() {
    let c = sample_contract();
    let json = serialize_contract(&c);
    let parsed = parse_contract(&json).expect("canonical encoding must parse");
    assert_eq!(parsed, c);
}

#[test]
fn contract_description_escaping() {
    let mut c = sample_contract();
    c.trade_description = "a \"quoted\" name\nwith \\ and tab\t and bell\u{7}".to_string();
    let json = serialize_contract(&c);
    assert!(json.contains("a \\\"quoted\\\" name\\nwith \\\\ and tab\\t and bell\\u0007"));
    let parsed = parse_contract(&json).expect("escaped encoding must parse");
    assert_eq!(parsed.trade_description, c.trade_description);
}

#[test]
fn contract_rejects_non_canonical_text() {
    let c = sample_contract();
    let json = serialize_contract(&c);
    assert!(parse_contract(&format!("{} ", json)).is_none());
    assert!(parse_contract(&format!(" {}", json)).is_none());
    assert!(parse_contract(&json[1..]).is_none());
    assert!(parse_contract("{}").is_none());
    assert!(parse_contract("not a contract at all").is_none());
    assert!(parse_contract("{\"trade_amount_sat\":5000}").is_none());
}

#[test]
fn contract_rejects_leading_zero_amounts() {
    let c = sample_contract();
    let json = serialize_contract(&c).replace("\"trade_amount_sat\":5000", "\"trade_amount_sat\":05000");
    assert!(parse_contract(&json).is_none());
}

#[test]
fn registration_round_trip() {
    let reg = EscrowRegistration {
        escrow_id_hex: "00ff".to_string(),
        coordinator_escrow_pubkey:
            "0279be667ef9dcbbac55a06295ce870b07029bfcdb2dce28d959f2815b16f81798".to_string(),
        escrow_start_time: 1700000000,
    };
    let json = serialize_registration(&reg);
    let mut expected = String::new();
    expected.push_str("{\"escrow_id_hex\":\"00ff\",");
    expected.push_str("\"coordinator_escrow_pubkey\":\"0279be667ef9dcbbac55a06295ce870b07029bfcdb2dce28d959f2815b16f81798\",");
    expected.push_str("\"escrow_start_time\":1700000000}");
    assert_eq!(json, expected);
    let parsed = parse_registration(&json).expect("canonical encoding must parse");
    assert_eq!(parsed.escrow_id_hex, reg.escrow_id_hex);
    assert_eq!(parsed.coordinator_escrow_pubkey, reg.coordinator_escrow_pubkey);
    assert_eq!(parsed.escrow_start_time, reg.escrow_start_time);
}

#[test]
fn token_message_round_trip() {
    let token = "cashuAeyJ0b2tlbiI6W3sibWludCI6Imh0dHA...\"x\"";
    let json = serialize_token_message(token);
    let parsed = parse_token_message(&json).expect("canonical encoding must parse");
    assert_eq!(parsed, token);
    assert!(parse_token_message("no quotes").is_none());
    assert!(parse_token_message("\"unterminated").is_none());
}

#[test]
fn fingerprint_is_deterministic_and_content_sensitive() {
    let c = sample_contract();
    let json = serialize_contract(&c);
    let fp1 = cashu_escrow::digest::fingerprint_hex(&json);
    let fp2 = cashu_escrow::digest::fingerprint_hex(&serialize_contract(&c));
    assert_eq!(fp1, fp2);
    let mut c2 = sample_contract();
    c2.time_limit += 1;
    let fp3 = cashu_escrow::digest::fingerprint_hex(&serialize_contract(&c2));
    assert_ne!(fp1, fp3);
}

#[test]
fn fingerprint_matches_reference_digest() {
    assert_eq!(
        cashu_escrow::digest::fingerprint_hex("abc"),
        "ba7816bf8f01cfea414140de5dae2223b00361a396177a9cb410ff61f20015ad"
    );
}

#[test]
fn amount_bounds_are_exact() {
    let mut c = sample_contract();
    c.trade_amount_sat = u64::MAX;
    let json = serialize_contract(&c);
    assert!(json.contains("\"trade_amount_sat\":18446744073709551615,"));
    let parsed = parse_contract(&json).expect("the largest amount must round-trip");
    assert_eq!(parsed.trade_amount_sat, u64::MAX);
    // One past the largest representable amount is rejected as malformed.
    let too_big = json.replace(
        "\"trade_amount_sat\":18446744073709551615,",
        "\"trade_amount_sat\":18446744073709551616,",
    );
    assert!(parse_contract(&too_big).is_none());
}

#[test]
fn registration_constructor_carries_fields() {
    let reg = EscrowRegistration::new(
        "ab01".to_string(),
        "0279be667ef9dcbbac55a06295ce870b07029bfcdb2dce28d959f2815b16f81798".to_string(),
        7,
    );
    assert_eq!(reg.escrow_id_hex, "ab01");
    assert_eq!(reg.escrow_start_time, 7);
    let parsed = parse_registration(&serialize_registration(&reg)).unwrap();
    assert_eq!(parsed, reg);
}
