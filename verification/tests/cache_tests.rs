use cashu_escrow::model::EscrowRegistration;
use cashu_escrow::transport::{MessageCache, MessageKind, CACHE_SIZE};
use cashu_escrow::wire::{serialize_registration, serialize_token_message};

fn registration_message() -> String {
    serialize_registration(&EscrowRegistration {
        escrow_id_hex: "0a0b".to_string(),
        coordinator_escrow_pubkey:
            "0279be667ef9dcbbac55a06295ce870b07029bfcdb2dce28d959f2815b16f81798".to_string(),
        escrow_start_time: 1700000000,
    })
}

#[test]
fn receive_1_message() {
    let mut cache = MessageCache::new();
    let msg1 = registration_message();
    let got = cache.receive_typed_from(vec![msg1.clone()], MessageKind::Registration);
    assert_eq!(got, Some(msg1));
    assert_eq!(cache.messages_cache_len(), 0);
}

#[test]
fn receive_2_messages_from_cache() {
    let mut cache = MessageCache::new();
    let msg1 = serialize_token_message("message 1");
    let msg2 = registration_message();
    assert_eq!(cache.messages_cache_len(), 0);
    // Wait for the second sent message first: the first goes to the cache.
    let got2 = cache.receive_typed_from(
        vec![msg1.clone(), msg2.clone()],
        MessageKind::Registration,
    );
    assert_eq!(got2, Some(msg2));
    assert_eq!(
        cache.messages_cache_len(),
        1,
        "after receiving the second sent message, one message must be left in the cache"
    );
    // Then the first sent message is claimed from the cache with no new input.
    let got1 = cache.receive_typed_from(vec![], MessageKind::TokenMessage);
    assert_eq!(got1, Some(msg1));
    assert_eq!(
        cache.messages_cache_len(),
        0,
        "after receiving the first sent message, the cache must be empty"
    );
}

#[test]
fn spam_protection() {
    let mut cache = MessageCache::new();
    let mut spam: Vec<String> = Vec::new();
    for i in 0..CACHE_SIZE + 1 {
        spam.push(serialize_token_message(&format!("spam {}", i)));
    }
    // The awaited registration never arrives: the receive comes up empty and
    // the cache stays at its capacity.
    let got = cache.receive_typed_from(spam, MessageKind::Registration);
    assert!(got.is_none());
    assert_eq!(cache.messages_cache_len(), CACHE_SIZE);
}

#[test]
fn duplicate_messages_are_cached_once() {
    let mut cache = MessageCache::new();
    let noise = serialize_token_message("same noise");
    let got = cache.receive_typed_from(
        vec![noise.clone(), noise.clone(), noise],
        MessageKind::Registration,
    );
    assert!(got.is_none());
    assert_eq!(cache.messages_cache_len(), 1);
}

#[test]
fn awaited_message_found_despite_flood() {
    let mut cache = MessageCache::new();
    let mut pending: Vec<String> = Vec::new();
    for i in 0..3 * CACHE_SIZE {
        pending.push(serialize_token_message(&format!("noise {}", i)));
    }
    let wanted = registration_message();
    pending.push(wanted.clone());
    let got = cache.receive_typed_from(pending, MessageKind::Registration);
    assert_eq!(got, Some(wanted));
}

#[test]
fn flood_can_evict_the_awaited_message() {
    let mut cache = MessageCache::new();
    // The token arrives early, while its receiver still waits for the
    // registration, and a flood of unrelated traffic follows it.
    let token_msg = serialize_token_message("the real token");
    let mut pending = vec![token_msg];
    for i in 0..CACHE_SIZE + 1 {
        pending.push(format!("unrelated {}", i));
    }
    let got = cache.receive_typed_from(pending, MessageKind::Registration);
    assert!(got.is_none());
    assert_eq!(cache.messages_cache_len(), CACHE_SIZE);
    // The flood evicted the early token: the later receive times out. This
    // is the accepted trade-off of the bounded cache.
    let got = cache.receive_typed_from(vec![], MessageKind::TokenMessage);
    assert!(got.is_none());
}
