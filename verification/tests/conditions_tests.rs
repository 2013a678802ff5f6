use cashu_escrow::conditions::{assemble_escrow_conditions, spend_permitted};
use cashu_escrow::model::{EscrowError, EscrowRegistration, TradeContract};

fn contract() -> TradeContract {
    TradeContract {
        trade_description: "five melons".to_string(),
        trade_amount_sat: 5000,
        npubkey_seller: "aa0e5d79986b4a8d55e63878994b744681a267e4c9e0e5d51881cdaa687bbdc6"
            .to_string(),
        npubkey_buyer: "bb5237a7d7e57575c2b0e2d8e4d971c7bca1f9a2c804f8e2dba80cbbe3e2f0c5"
            .to_string(),
        npubkey_coordinator: "cc7c43057ed67afb4a45a9d28887f0a02e1d24c30c0e55cd18b0c4d6a7ba1f03"
            .to_string(),
        time_limit: 259200,
        seller_ecash_public_key:
            "0279be667ef9dcbbac55a06295ce870b07029bfcdb2dce28d959f2815b16f81798".to_string(),
        buyer_ecash_public_key:
            "02c6047f9441ed7d6d3045406e95c07cd85c778e4b8cef3ca7abac09b95c709ee5".to_string(),
    }
}

fn registration() -> EscrowRegistration {
    EscrowRegistration {
        escrow_id_hex: "00ff".to_string(),
        coordinator_escrow_pubkey:
            "02f9308a019258c31049344f85f89d5229b531c845836f99b08601f113bce036f9".to_string(),
        escrow_start_time: 1700000000,
    }
}

#[test]
fn conditions_symmetry() {
    // Both parties derive the descriptor independently from the same pair.
    let buyer_side = assemble_escrow_conditions(&contract(), &registration()).unwrap();
    let seller_side = assemble_escrow_conditions(&contract(), &registration()).unwrap();
    assert_eq!(buyer_side, seller_side);
    assert_eq!(buyer_side.locktime, 1700000000 + 259200);
    assert_eq!(buyer_side.required_sigs, 2);
    assert!(buyer_side.sig_all);
    assert_eq!(buyer_side.seller_pubkey, contract().seller_ecash_public_key);
    assert_eq!(buyer_side.buyer_pubkey, contract().buyer_ecash_public_key);
    assert_eq!(
        buyer_side.coordinator_pubkey,
        registration().coordinator_escrow_pubkey
    );
}

#[test]
fn malformed_identity_is_rejected() {
    let mut bad = contract();
    bad.seller_ecash_public_key = "not a key".to_string();
    let r = assemble_escrow_conditions(&bad, &registration());
    assert_eq!(r.unwrap_err(), EscrowError::InvalidIdentity);

    let mut bad_len = contract();
    // Right shape but not a point on the curve.
    bad_len.buyer_ecash_public_key =
        "020000000000000000000000000000000000000000000000000000000000000000".to_string();
    let r = assemble_escrow_conditions(&bad_len, &registration());
    assert_eq!(r.unwrap_err(), EscrowError::InvalidIdentity);
}

#[test]
fn locktime_enforcement() {
    let d = assemble_escrow_conditions(&contract(), &registration()).unwrap();
    let locktime = 1700000000 + 259200;
    // The buyer's lone refund signature fails before the locktime and
    // succeeds from it on.
    assert!(!spend_permitted(&d, false, true, false, locktime - 1));
    assert!(spend_permitted(&d, false, true, false, locktime));
    assert!(spend_permitted(&d, false, true, false, locktime + 1));
    // Seller plus coordinator succeeds at any time.
    assert!(spend_permitted(&d, true, false, true, 0));
    assert!(spend_permitted(&d, true, false, true, locktime + 1));
    // Seller plus buyer also succeeds before the deadline.
    assert!(spend_permitted(&d, true, true, false, locktime - 1));
    // The seller alone never suffices.
    assert!(!spend_permitted(&d, true, false, false, locktime - 1));
}
