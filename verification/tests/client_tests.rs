use cashu_escrow::conditions::spend_permitted;
use cashu_escrow::coordinator::EscrowCoordinator;
use cashu_escrow::escrow_client::InitEscrowClient;
use cashu_escrow::model::{EscrowError, TradeContract, TradeMode};
use cashu_escrow::transport::{MessageCache, MessageKind};
use cashu_escrow::wire::{parse_registration, parse_token_message, serialize_token_message};

fn contract() -> TradeContract {
    TradeContract {
        trade_description: "Purchase of one Watermelon for 5000 satoshi. 3 days delivery to ..."
            .to_string(),
        trade_amount_sat: 5000,
        npubkey_seller: "aa0e5d79986b4a8d55e63878994b744681a267e4c9e0e5d51881cdaa687bbdc6"
            .to_string(),
        npubkey_buyer: "bb5237a7d7e57575c2b0e2d8e4d971c7bca1f9a2c804f8e2dba80cbbe3e2f0c5"
            .to_string(),
        npubkey_coordinator: "cc7c43057ed67afb4a45a9d28887f0a02e1d24c30c0e55cd18b0c4d6a7ba1f03"
            .to_string(),
        time_limit: 3 * 24 * 60 * 60,
        seller_ecash_public_key:
            "0279be667ef9dcbbac55a06295ce870b07029bfcdb2dce28d959f2815b16f81798".to_string(),
        buyer_ecash_public_key:
            "02c6047f9441ed7d6d3045406e95c07cd85c778e4b8cef3ca7abac09b95c709ee5".to_string(),
    }
}

const SECRET: &str = "1111111111111111111111111111111111111111111111111111111111111111";
const PUBKEY: &str = "02f9308a019258c31049344f85f89d5229b531c845836f99b08601f113bce036f9";

#[test]
fn registration_timeout_is_reported() {
    // The seller never submits, so no registration ever arrives.
    let buyer = InitEscrowClient::new(contract(), TradeMode::Buyer);
    let r = buyer.register_trade(None);
    assert_eq!(r.unwrap_err(), EscrowError::RegistrationTimeout);
}

#[test]
fn wallet_failure_ends_the_attempt() {
    let buyer = InitEscrowClient::new(contract(), TradeMode::Buyer);
    let registered = buyer
        .register_trade(Some(cashu_escrow::model::EscrowRegistration {
            escrow_id_hex: "00".to_string(),
            coordinator_escrow_pubkey: PUBKEY.to_string(),
            escrow_start_time: 1,
        }))
        .unwrap();
    let r = registered.exchange_trade_token(Err(EscrowError::WalletFailure));
    assert_eq!(r.unwrap_err(), EscrowError::WalletFailure);
}

#[test]
fn end_to_end_trade() {
    let now = 1700000000u64;

    // Both parties agree on one contract off-band.
    let buyer = InitEscrowClient::new(contract(), TradeMode::Buyer);
    let seller = InitEscrowClient::new(contract(), TradeMode::Seller);

    // Each submits the canonical contract message to the coordinator.
    let buyer_submission = buyer.contract_message();
    let seller_submission = seller.contract_message();
    assert_eq!(buyer_submission, seller_submission);

    let mut coordinator = EscrowCoordinator::new();
    let first = coordinator.handle_message(
        &"buyer-event".to_string(),
        &buyer_submission,
        SECRET.to_string(),
        PUBKEY.to_string(),
        now,
    );
    assert!(first.is_none());
    let issue = coordinator
        .handle_message(
            &"seller-event".to_string(),
            &seller_submission,
            SECRET.to_string(),
            PUBKEY.to_string(),
            now,
        )
        .expect("the matched pair yields a registration");
    assert_eq!(issue.buyer_npub, contract().npubkey_buyer);
    assert_eq!(issue.seller_npub, contract().npubkey_seller);

    // The registration reaches both parties over the relay, interleaved with
    // unrelated traffic, and both read the same escrow id.
    let registration_message =
        cashu_escrow::wire::serialize_registration(&issue.registration);
    let mut buyer_cache = MessageCache::new();
    let got = buyer_cache.receive_typed_from(
        vec![
            serialize_token_message("unrelated chatter"),
            registration_message.clone(),
        ],
        MessageKind::Registration,
    );
    let buyer_reg = parse_registration(&got.unwrap()).unwrap();
    let mut seller_cache = MessageCache::new();
    let got = seller_cache
        .receive_typed_from(vec![registration_message], MessageKind::Registration);
    let seller_reg = parse_registration(&got.unwrap()).unwrap();
    assert_eq!(buyer_reg, seller_reg);
    assert_eq!(
        buyer_reg.escrow_id_hex,
        cashu_escrow::digest::fingerprint_hex(&buyer_submission)
    );

    // Both advance to the registered state.
    let buyer = buyer.register_trade(Some(buyer_reg)).unwrap();
    let seller = seller.register_trade(Some(seller_reg)).unwrap();

    // The buyer locks a token for the full amount under the derived
    // conditions and sends it; the wallet stands outside this test.
    let buyer_conditions = buyer.spending_conditions().unwrap();
    assert_eq!(buyer.trade_amount(), 5000);
    let token = "token locking 5000 sat";
    let token_message = serialize_token_message(token);
    let buyer = buyer.exchange_trade_token(Ok(token.to_string())).unwrap();

    // The seller receives the token, derives the identical conditions and
    // accepts it.
    let mut seller_cache = MessageCache::new();
    let got = seller_cache
        .receive_typed_from(vec![token_message], MessageKind::TokenMessage)
        .unwrap();
    let received_token = parse_token_message(&got).unwrap();
    let seller_conditions = seller.spending_conditions().unwrap();
    assert_eq!(buyer_conditions, seller_conditions);
    assert_eq!(received_token, token);
    let seller = seller.exchange_trade_token(Ok(received_token)).unwrap();

    // Both hold the exchanged token, and the escrow policy stands: before
    // the locktime only seller-plus-cosigner spends, after it the buyer can
    // reclaim alone.
    assert_eq!(buyer.trade_token(), seller.trade_token());
    let locktime = now + 3 * 24 * 60 * 60;
    assert!(!spend_permitted(&seller_conditions, false, true, false, locktime - 1));
    assert!(spend_permitted(&seller_conditions, false, true, false, locktime));
    assert!(spend_permitted(&seller_conditions, true, false, true, now));
    assert!(buyer.finalize_successful_trade().is_ok());
    assert!(seller.finalize_successful_trade().is_ok());
}
