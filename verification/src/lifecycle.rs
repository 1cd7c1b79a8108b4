//! The order lifecycle orchestrator. Creating an order allocates a fresh
//! event kind, writes a provisional row, and prepares a signed creation
//! event; a status update reuses the order's kind and prepares a signed
//! update event. The store advances only through `commit_publish`, after
//! the caller has sent the event: on a failed publish the store keeps its
//! last successfully published state, and on a successful one status and
//! event id move together.

use vstd::prelude::*;
use crate::codec::{decode_spec, encode, encode_spec, lemma_round_trip};
use crate::order::{copy_bytes, plain_terms, NewOrder, Order, OrderV, Status};
use crate::store::{provisional_row, row_advanced, OrderRow, OrderStore, StoreError};
use crate::events::{event_id_hex, sign_order_event};

verus! {

/// Orchestration failure, each from a distinct step: the addressed order
/// row does not exist, the signer rejected the identity material, or the
/// relay did not confirm the publish.
#[derive(Clone, Copy, PartialEq, Eq, Structural, Debug)]
pub enum LifecycleError {
    OrderNotFound,
    SigningFailed,
    PublishFailed,
}

/// A prepared publish: the signed event together with what the store
/// commit needs once the caller has sent it.
pub struct PendingPublish {
    pub order_id: u64,
    pub event_kind: u16,
    pub status: Status,
    pub content: Vec<u8>,
    pub event_id: Vec<u8>,
    pub event: nostr::event::Event,
}

/// The snapshot that creating an order publishes: the fresh row identifier,
/// status `Pending`, and the creation timestamp.
pub open spec fn creation_snapshot(order: NewOrder, id: u64, now: u64) -> OrderV {
    OrderV {
        id,
        kind: order.kind,
        status: Status::Pending,
        amount: order.amount,
        fiat_code: order.fiat_code@,
        fiat_amount: order.fiat_amount,
        payment_method: order.payment_method@,
        premium: order.premium,
        created_at: now,
    }
}

/// The snapshot that a status update publishes: the stored row's terms with
/// the new status and a fresh timestamp.
pub open spec fn update_snapshot(row: OrderRow, status: Status, now: u64) -> OrderV {
    OrderV {
        id: row.id,
        kind: row.kind,
        status,
        amount: row.amount,
        fiat_code: row.fiat_code@,
        fiat_amount: row.fiat_amount,
        payment_method: row.payment_method@,
        premium: row.premium,
        created_at: now,
    }
}

/// Creates an order: allocates the next event kind, writes the provisional
/// `Pending` row with an empty event id, and prepares the signed creation
/// event. The provisional row stays even when signing fails; the store's
/// event id advances only through `commit_publish`.
pub fn publish_order(
    store: &mut OrderStore,
    keys: &nostr::key::Keys,
    order: &NewOrder,
    initiator_pubkey: &Vec<u8>,
    now: u64,
) -> (r: Result<PendingPublish, LifecycleError>)
    requires
        old(store).wf(),
        old(store).kind_counter < u16::MAX,
        old(store).rows@.len() < u64::MAX,
        plain_terms(*order),
    ensures
        final(store).wf(),
        final(store).kind_counter == old(store).kind_counter + 1,
        final(store).rows@.len() == old(store).rows@.len() + 1,
        forall|k: int|
            0 <= k < old(store).rows@.len() ==> final(store).rows@[k] == old(store).rows@[k],
        provisional_row(
            final(store).rows@[old(store).rows@.len() as int],
            *order,
            Seq::<u8>::empty(),
            old(store).kind_counter,
            initiator_pubkey@,
            now,
            old(store).rows@.len() as u64,
        ),
        r matches Ok(p) ==> {
            &&& p.order_id as int == old(store).rows@.len()
            &&& p.event_kind == old(store).kind_counter
            &&& p.status == Status::Pending
            &&& p.content@ == encode_spec(creation_snapshot(*order, p.order_id, now))
            &&& decode_spec(p.content@) == Some(creation_snapshot(*order, p.order_id, now))
            &&& p.event_id@.len() == 64
        },
        r matches Err(e) ==> e == LifecycleError::SigningFailed,
{
    let event_kind = store.next_event_kind();
    let no_invoice: Vec<u8> = Vec::new();
    let order_id = store.add_order(order, &no_invoice, event_kind, initiator_pubkey, now);
    let snapshot = Order {
        id: order_id,
        kind: order.kind,
        status: Status::Pending,
        amount: order.amount,
        fiat_code: copy_bytes(&order.fiat_code),
        fiat_amount: order.fiat_amount,
        payment_method: copy_bytes(&order.payment_method),
        premium: order.premium,
        created_at: now,
    };
    proof {
        assert(snapshot@ =~= creation_snapshot(*order, order_id, now));
        lemma_round_trip(snapshot@);
    }
    let content = encode(&snapshot);
    match sign_order_event(keys, event_kind, &content) {
        Ok(event) => {
            let event_id = event_id_hex(&event);
            Ok(
                PendingPublish {
                    order_id,
                    event_kind,
                    status: Status::Pending,
                    content,
                    event_id,
                    event,
                },
            )
        },
        Err(_) => Err(LifecycleError::SigningFailed),
    }
}

/// Prepares a status update for an existing order: the snapshot reuses the
/// row's terms and its event kind — never a fresh one — and carries the new
/// status. The store is not touched; `commit_publish` advances it after a
/// successful send.
pub fn update_order_event(
    store: &OrderStore,
    keys: &nostr::key::Keys,
    order_id: u64,
    new_status: Status,
    now: u64,
) -> (r: Result<PendingPublish, LifecycleError>)
    requires
        store.wf(),
    ensures
        order_id as int >= store.rows@.len() ==> r == Err::<PendingPublish, LifecycleError>(
            LifecycleError::OrderNotFound,
        ),
        r matches Ok(p) ==> {
            &&& (order_id as int) < store.rows@.len()
            &&& p.order_id == order_id
            &&& p.event_kind == store.rows@[order_id as int].event_kind
            &&& p.status == new_status
            &&& p.content@ == encode_spec(
                update_snapshot(store.rows@[order_id as int], new_status, now),
            )
            &&& decode_spec(p.content@) == Some(
                update_snapshot(store.rows@[order_id as int], new_status, now),
            )
            &&& p.event_id@.len() == 64
        },
        r matches Err(e) ==> ((e == LifecycleError::OrderNotFound) <==> (order_id as int
            >= store.rows@.len())),
        (order_id as int) < store.rows@.len() ==> (r matches Err(e) ==> e
            == LifecycleError::SigningFailed),
{
    let row = match store.get_order(order_id) {
        Some(row) => row,
        None => { return Err(LifecycleError::OrderNotFound) },
    };
    let snapshot = Order {
        id: row.id,
        kind: row.kind,
        status: new_status,
        amount: row.amount,
        fiat_code: copy_bytes(&row.fiat_code),
        fiat_amount: row.fiat_amount,
        payment_method: copy_bytes(&row.payment_method),
        premium: row.premium,
        created_at: now,
    };
    proof {
        assert(snapshot@ =~= update_snapshot(store.rows@[order_id as int], new_status, now));
        lemma_round_trip(snapshot@);
    }
    let content = encode(&snapshot);
    match sign_order_event(keys, row.event_kind, &content) {
        Ok(event) => {
            let event_id = event_id_hex(&event);
            Ok(
                PendingPublish {
                    order_id,
                    event_kind: row.event_kind,
                    status: new_status,
                    content,
                    event_id,
                    event,
                },
            )
        },
        Err(_) => Err(LifecycleError::SigningFailed),
    }
}

/// Commits the outcome of a publish. On a failed publish the store is left
/// exactly as it was, so it keeps the last successfully published status.
/// On a successful one the addressed row's status and event id are set
/// together — never one without the other — and nothing else moves.
pub fn commit_publish(
    store: &mut OrderStore,
    order_id: u64,
    status: Status,
    event_id: &Vec<u8>,
    published: bool,
) -> (r: Result<(), LifecycleError>)
    requires
        old(store).wf(),
    ensures
        final(store).wf(),
        !published ==> *final(store) == *old(store) && r == Err::<(), LifecycleError>(
            LifecycleError::PublishFailed,
        ),
        published && (order_id as int) >= old(store).rows@.len() ==> *final(store) == *old(store)
            && r == Err::<(), LifecycleError>(LifecycleError::OrderNotFound),
        published && (order_id as int) < old(store).rows@.len() ==> {
            &&& r == Ok::<(), LifecycleError>(())
            &&& final(store).kind_counter == old(store).kind_counter
            &&& final(store).rows@.len() == old(store).rows@.len()
            &&& forall|k: int|
                0 <= k < old(store).rows@.len() && k != order_id as int ==> final(store).rows@[k] == old(store).rows@[k]
            &&& row_advanced(
                old(store).rows@[order_id as int],
                final(store).rows@[order_id as int],
                status,
                event_id@,
            )
        },
{
    if !published {
        return Err(LifecycleError::PublishFailed);
    }
    match store.update_order_event_id_status(order_id, status, event_id) {
        Ok(u) => Ok(u),
        Err(StoreError::OrderNotFound) => Err(LifecycleError::OrderNotFound),
    }
}

} // verus!
