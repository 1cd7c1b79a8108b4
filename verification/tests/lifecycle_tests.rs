use nostr::event::Kind;
use nostr::key::Keys;
use order_events::codec::decode;
use order_events::lifecycle::{commit_publish, publish_order, update_order_event, LifecycleError};
use order_events::order::{NewOrder, Status};
use order_events::store::OrderStore;

fn sample_terms() -> NewOrder {
    NewOrder {
        kind: order_events::order::OrderKind::Buy,
        amount: 100000,
        fiat_code: b"USD".to_vec(),
        fiat_amount: 50,
        payment_method: b"wire".to_vec(),
        premium: 0,
    }
}

#[test]
fn allocated_kinds_are_distinct() {
    let mut store = OrderStore::new(20000);
    let a = store.next_event_kind();
    let b = store.next_event_kind();
    let c = store.next_event_kind();
    assert_eq!(a, 20000);
    assert_eq!(b, 20001);
    assert_eq!(c, 20002);
    assert!(a != b && b != c && a != c);
}

#[test]
fn creation_publishes_pending_snapshot() {
    let keys = Keys::generate();
    let mut store = OrderStore::new(20000);
    let initiator = b"initiator-pubkey".to_vec();
    let pending = publish_order(&mut store, &keys, &sample_terms(), &initiator, 1712345678)
        .expect("signing with generated keys succeeds");

    // the provisional row: status Pending, allocated kind, no event id yet
    let row = store.get_order(pending.order_id).expect("row was written");
    assert_eq!(row.status, Status::Pending);
    assert_eq!(row.event_kind, 20000);
    assert!(row.event_id.is_empty());
    assert_eq!(row.amount, 100000);
    assert_eq!(row.fiat_code, b"USD".to_vec());
    assert_eq!(row.initiator_pubkey, b"initiator-pubkey".to_vec());

    // the signed event carries the allocated kind and exactly the content
    assert_eq!(pending.event.kind, Kind::Custom(20000));
    assert_eq!(pending.event.content.as_bytes(), pending.content.as_slice());
    assert_eq!(pending.event_id.len(), 64);

    // the published content decodes to a Pending snapshot of the same terms
    let snapshot = decode(&pending.content).expect("published content is canonical");
    assert_eq!(snapshot.status, Status::Pending);
    assert_eq!(snapshot.id, pending.order_id);
    assert_eq!(snapshot.amount, 100000);
    assert_eq!(snapshot.fiat_code, b"USD".to_vec());

    // committing the successful publish stores the event id with Pending
    commit_publish(&mut store, pending.order_id, pending.status, &pending.event_id, true)
        .expect("commit of a confirmed publish succeeds");
    let row = store.get_order(pending.order_id).expect("row still there");
    assert_eq!(row.status, Status::Pending);
    assert!(!row.event_id.is_empty());
    assert_eq!(row.event_id.len(), 64);
}

#[test]
fn status_update_keeps_kind_and_renews_event_id() {
    let keys = Keys::generate();
    let mut store = OrderStore::new(20000);
    let initiator = b"initiator-pubkey".to_vec();
    let created = publish_order(&mut store, &keys, &sample_terms(), &initiator, 1712345678)
        .expect("creation succeeds");
    commit_publish(&mut store, created.order_id, created.status, &created.event_id, true)
        .expect("creation commit succeeds");
    let first_event_id = created.event_id.clone();

    let update = update_order_event(&store, &keys, created.order_id, Status::Active, 1712345999)
        .expect("update preparation succeeds");
    assert_eq!(update.event_kind, 20000);
    assert_eq!(update.status, Status::Active);
    let snapshot = decode(&update.content).expect("update content is canonical");
    assert_eq!(snapshot.status, Status::Active);

    commit_publish(&mut store, update.order_id, update.status, &update.event_id, true)
        .expect("update commit succeeds");
    let row = store.get_order(created.order_id).expect("row still there");
    assert_eq!(row.status, Status::Active);
    assert_eq!(row.event_kind, 20000);
    assert_ne!(row.event_id, first_event_id);
    assert_eq!(row.event_id, update.event_id);
}

#[test]
fn failed_publish_leaves_status_untouched() {
    let keys = Keys::generate();
    let mut store = OrderStore::new(20000);
    let initiator = b"initiator-pubkey".to_vec();
    let created = publish_order(&mut store, &keys, &sample_terms(), &initiator, 1712345678)
        .expect("creation succeeds");
    commit_publish(&mut store, created.order_id, created.status, &created.event_id, true)
        .expect("creation commit succeeds");

    let update = update_order_event(&store, &keys, created.order_id, Status::Active, 1712345999)
        .expect("update preparation succeeds");
    let r = commit_publish(&mut store, update.order_id, update.status, &update.event_id, false);
    assert_eq!(r, Err(LifecycleError::PublishFailed));

    // the stored state still shows the last successfully published pair
    let row = store.get_order(created.order_id).expect("row still there");
    assert_eq!(row.status, Status::Pending);
    assert_eq!(row.event_id, created.event_id);
}

#[test]
fn update_of_unknown_order_is_rejected() {
    let keys = Keys::generate();
    let store = OrderStore::new(20000);
    let r = update_order_event(&store, &keys, 3, Status::Active, 1712345999);
    assert!(matches!(r, Err(LifecycleError::OrderNotFound)));
}

#[test]
fn commit_of_unknown_order_is_rejected() {
    let mut store = OrderStore::new(20000);
    let event_id = b"0000000000000000000000000000000000000000000000000000000000000000".to_vec();
    let r = commit_publish(&mut store, 9, Status::Active, &event_id, true);
    assert_eq!(r, Err(LifecycleError::OrderNotFound));
}

#[test]
fn two_creations_get_distinct_kinds_and_rows() {
    let keys = Keys::generate();
    let mut store = OrderStore::new(20000);
    let initiator = b"initiator-pubkey".to_vec();
    let first = publish_order(&mut store, &keys, &sample_terms(), &initiator, 1712345678)
        .expect("first creation succeeds");
    let second = publish_order(&mut store, &keys, &sample_terms(), &initiator, 1712345679)
        .expect("second creation succeeds");
    assert_ne!(first.event_kind, second.event_kind);
    assert_ne!(first.order_id, second.order_id);
    assert_eq!(store.get_order(first.order_id).unwrap().event_kind, first.event_kind);
    assert_eq!(store.get_order(second.order_id).unwrap().event_kind, second.event_kind);
}

#[test]
fn empty_store_has_no_rows() {
    let store = OrderStore::new(20000);
    assert!(store.get_order(0).is_none());
}
