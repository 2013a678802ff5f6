use cashu_escrow::coordinator::EscrowCoordinator;
use cashu_escrow::digest::fingerprint_hex;
use cashu_escrow::model::TradeContract;
use cashu_escrow::wire::serialize_contract;

fn contract() -> TradeContract {
    TradeContract {
        trade_description: "five melons".to_string(),
        trade_amount_sat: 5000,
        npubkey_seller: "aa0e5d79986b4a8d55e63878994b744681a267e4c9e0e5d51881cdaa687bbdc6"
            .to_string(),
        npubkey_buyer: "bb5237a7d7e57575c2b0e2d8e4d971c7bca1f9a2c804f8e2dba80cbbe3e2f0c5"
            .to_string(),
        npubkey_coordinator: "cc7c43057ed67afb4a45a9d28887f0a02e1d24c30c0e55cd18b0c4d6a7ba1f03"
            .to_string(),
        time_limit: 259200,
        seller_ecash_public_key:
            "0279be667ef9dcbbac55a06295ce870b07029bfcdb2dce28d959f2815b16f81798".to_string(),
        buyer_ecash_public_key:
            "02c6047f9441ed7d6d3045406e95c07cd85c778e4b8cef3ca7abac09b95c709ee5".to_string(),
    }
}

const SECRET: &str = "1111111111111111111111111111111111111111111111111111111111111111";
const PUBKEY: &str = "02f9308a019258c31049344f85f89d5229b531c845836f99b08601f113bce036f9";

#[test]
fn single_registration_per_match() {
    let mut coordinator = EscrowCoordinator::new();
    let content = serialize_contract(&contract());
    let now = 1700000000;

    // First sighting: filed, no registration.
    let r1 = coordinator.handle_message(
        &"event-1".to_string(),
        &content,
        SECRET.to_string(),
        PUBKEY.to_string(),
        now,
    );
    assert!(r1.is_none());

    // Second sighting from the counterparty: exactly one registration.
    let r2 = coordinator
        .handle_message(
            &"event-2".to_string(),
            &content,
            SECRET.to_string(),
            PUBKEY.to_string(),
            now,
        )
        .expect("second identical submission must be matched");
    assert_eq!(r2.registration.escrow_id_hex, fingerprint_hex(&content));
    assert_eq!(r2.registration.coordinator_escrow_pubkey, PUBKEY);
    assert_eq!(r2.registration.escrow_start_time, now);
    assert_eq!(r2.buyer_npub, contract().npubkey_buyer);
    assert_eq!(r2.seller_npub, contract().npubkey_seller);

    // Redelivered events are deduplicated: no further registration.
    for id in ["event-1", "event-2"] {
        let r = coordinator.handle_message(
            &id.to_string(),
            &content,
            SECRET.to_string(),
            PUBKEY.to_string(),
            now,
        );
        assert!(r.is_none());
    }
}

#[test]
fn matching_requires_exact_agreement() {
    let mut coordinator = EscrowCoordinator::new();
    let content_a = serialize_contract(&contract());
    let mut other = contract();
    other.time_limit += 1;
    let content_b = serialize_contract(&other);
    assert_ne!(fingerprint_hex(&content_a), fingerprint_hex(&content_b));

    let r1 = coordinator.handle_message(
        &"event-1".to_string(),
        &content_a,
        SECRET.to_string(),
        PUBKEY.to_string(),
        0,
    );
    // A submission differing by even one field never matches.
    let r2 = coordinator.handle_message(
        &"event-2".to_string(),
        &content_b,
        SECRET.to_string(),
        PUBKEY.to_string(),
        0,
    );
    assert!(r1.is_none());
    assert!(r2.is_none());
}

#[test]
fn malformed_payloads_are_ignored() {
    let mut coordinator = EscrowCoordinator::new();
    let noise = "this is not a contract".to_string();
    let r = coordinator.handle_message(
        &"event-0".to_string(),
        &noise,
        SECRET.to_string(),
        PUBKEY.to_string(),
        0,
    );
    assert!(r.is_none());

    // Noise does not disturb a later match.
    let content = serialize_contract(&contract());
    assert!(coordinator
        .handle_message(
            &"event-1".to_string(),
            &content,
            SECRET.to_string(),
            PUBKEY.to_string(),
            0,
        )
        .is_none());
    assert!(coordinator
        .handle_message(
            &"event-2".to_string(),
            &content,
            SECRET.to_string(),
            PUBKEY.to_string(),
            0,
        )
        .is_some());
}

#[test]
fn process_event_mints_fresh_keys() {
    let mut coordinator = EscrowCoordinator::new();
    let content = serialize_contract(&contract());
    assert!(coordinator
        .process_event(&"event-1".to_string(), &content, 42)
        .is_none());
    let issue = coordinator
        .process_event(&"event-2".to_string(), &content, 42)
        .expect("second identical submission must be matched");
    assert_eq!(issue.registration.escrow_id_hex, fingerprint_hex(&content));
    // The minted per-trade key is well-formed key material.
    assert_eq!(issue.registration.coordinator_escrow_pubkey.len(), 66);
}
