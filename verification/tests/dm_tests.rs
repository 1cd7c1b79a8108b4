use nostr::event::Kind;
use nostr::key::Keys;
use nostr::nips::nip04::Nip04;
use order_events::dm::{build_dm_event, get_event_id_from_dm, DmError, EventTag, InboundEvent};

fn e_tag(values: Vec<Vec<u8>>) -> EventTag {
    EventTag { label: b"e".to_vec(), values }
}

fn p_tag() -> EventTag {
    EventTag { label: b"p".to_vec(), values: vec![b"somepubkey".to_vec()] }
}

#[test]
fn reference_extraction_returns_tag_content() {
    let event = InboundEvent { tags: vec![p_tag(), e_tag(vec![b"abc123".to_vec()])] };
    assert_eq!(get_event_id_from_dm(&event), Ok(b"abc123".to_vec()));
}

#[test]
fn reference_extraction_without_e_tag_is_not_a_reply() {
    let event = InboundEvent { tags: vec![p_tag()] };
    assert_eq!(get_event_id_from_dm(&event), Err(DmError::NotAReply));
}

#[test]
fn reference_extraction_with_empty_e_tag_is_missing_content() {
    let event = InboundEvent { tags: vec![e_tag(vec![b"".to_vec()])] };
    assert_eq!(get_event_id_from_dm(&event), Err(DmError::ReferenceMissingContent));
}

#[test]
fn reference_extraction_with_bare_e_tag_is_missing_content() {
    let event = InboundEvent { tags: vec![e_tag(vec![])] };
    assert_eq!(get_event_id_from_dm(&event), Err(DmError::ReferenceMissingContent));
}

#[test]
fn reference_extraction_takes_first_e_tag() {
    let event = InboundEvent {
        tags: vec![e_tag(vec![b"first".to_vec()]), e_tag(vec![b"second".to_vec()])],
    };
    assert_eq!(get_event_id_from_dm(&event), Ok(b"first".to_vec()));
}

#[test]
fn dm_event_is_encrypted_and_decryptable_by_receiver() {
    let sender = Keys::generate();
    let receiver = Keys::generate();
    let plaintext = b"the payment reference".to_vec();
    let event = build_dm_event(&sender, &receiver, &plaintext).expect("encryption succeeds");
    assert_eq!(event.kind, Kind::EncryptedDirectMessage);
    // the broadcast content is not the plaintext
    assert_ne!(event.content.as_bytes(), plaintext.as_slice());
    // but the receiver can recover it
    let recovered = receiver
        .nip04_decrypt(&sender.public_key(), &event.content)
        .expect("receiver decrypts");
    assert_eq!(recovered.as_bytes(), plaintext.as_slice());
}
