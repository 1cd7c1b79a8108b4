//! The order store: the narrow interface the orchestrator needs from
//! persistence, realized as an in-memory table with full contracts. It
//! allocates row identifiers sequentially, hands out event kinds from a
//! monotonic counter, and updates a row's status and event id together.

use vstd::prelude::*;
use crate::order::{copy_bytes, plain_terms, plain_text, NewOrder, OrderKind, Status};

verus! {

/// Store failure: the addressed order row does not exist.
#[derive(Clone, Copy, PartialEq, Eq, Structural, Debug)]
pub enum StoreError {
    OrderNotFound,
}

/// One persisted order row. `event_id` is empty until a publish for this
/// row has succeeded; afterwards it names the latest successfully
/// published event.
pub struct OrderRow {
    pub id: u64,
    pub kind: OrderKind,
    pub status: Status,
    pub amount: u64,
    pub fiat_code: Vec<u8>,
    pub fiat_amount: u64,
    pub payment_method: Vec<u8>,
    pub premium: i64,
    pub buyer_invoice: Vec<u8>,
    pub initiator_pubkey: Vec<u8>,
    pub event_kind: u16,
    pub event_id: Vec<u8>,
    pub created_at: u64,
}

/// Whether `n` is `o` with exactly its status and event id replaced.
pub open spec fn row_advanced(o: OrderRow, n: OrderRow, status: Status, event_id: Seq<u8>) -> bool {
    &&& n.id == o.id
    &&& n.kind == o.kind
    &&& n.status == status
    &&& n.amount == o.amount
    &&& n.fiat_code@ == o.fiat_code@
    &&& n.fiat_amount == o.fiat_amount
    &&& n.payment_method@ == o.payment_method@
    &&& n.premium == o.premium
    &&& n.buyer_invoice@ == o.buyer_invoice@
    &&& n.initiator_pubkey@ == o.initiator_pubkey@
    &&& n.event_kind == o.event_kind
    &&& n.event_id@ == event_id
    &&& n.created_at == o.created_at
}

/// The in-memory order store: a table of rows addressed by their row
/// identifier and the counter behind event-kind allocation.
pub struct OrderStore {
    pub kind_counter: u16,
    pub rows: Vec<OrderRow>,
}

impl OrderStore {
    /// Rows sit at the index their identifier names, and their free-text
    /// terms are plain, so every row's snapshot has a canonical JSON form.
    pub open spec fn wf(self) -> bool {
        forall|k: int|
            0 <= k < self.rows@.len() ==> (#[trigger] self.rows@[k]).id == k && plain_text(
                self.rows@[k].fiat_code@,
            ) && plain_text(self.rows@[k].payment_method@)
    }

    /// An empty store whose kind allocation starts at `first_kind`.
    pub fn new(first_kind: u16) -> (r: OrderStore)
        ensures
            r.wf(),
            r.kind_counter == first_kind,
            r.rows@.len() == 0,
    {
        OrderStore { kind_counter: first_kind, rows: Vec::new() }
    }

    /// Allocates the next event kind: returns the counter and steps it, so
    /// no two allocations ever return the same kind.
    pub fn next_event_kind(&mut self) -> (k: u16)
        requires
            old(self).kind_counter < u16::MAX,
        ensures
            k == old(self).kind_counter,
            final(self).kind_counter == k + 1,
            final(self).rows == old(self).rows,
    {
        let k = self.kind_counter;
        self.kind_counter = k + 1;
        k
    }

    /// Appends a provisional row for the given terms: status `Pending`, an
    /// empty event id, and the next sequential row identifier, which it
    /// returns.
    pub fn add_order(
        &mut self,
        order: &NewOrder,
        buyer_invoice: &Vec<u8>,
        event_kind: u16,
        initiator_pubkey: &Vec<u8>,
        created_at: u64,
    ) -> (id: u64)
        requires
            old(self).wf(),
            old(self).rows@.len() < u64::MAX,
            plain_terms(*order),
        ensures
            final(self).wf(),
            final(self).kind_counter == old(self).kind_counter,
            id as int == old(self).rows@.len(),
            final(self).rows@.len() == old(self).rows@.len() + 1,
            forall|k: int| 0 <= k < old(self).rows@.len() ==> final(self).rows@[k] == old(self).rows@[k],
            provisional_row(final(self).rows@[id as int], *order, buyer_invoice@, event_kind,
                initiator_pubkey@, created_at, id),
    {
        let id = self.rows.len() as u64;
        let row = OrderRow {
            id,
            kind: order.kind,
            status: Status::Pending,
            amount: order.amount,
            fiat_code: copy_bytes(&order.fiat_code),
            fiat_amount: order.fiat_amount,
            payment_method: copy_bytes(&order.payment_method),
            premium: order.premium,
            buyer_invoice: copy_bytes(buyer_invoice),
            initiator_pubkey: copy_bytes(initiator_pubkey),
            event_kind,
            event_id: Vec::new(),
            created_at,
        };
        self.rows.push(row);
        id
    }

    /// Reads a row, when it exists.
    pub fn get_order(&self, order_id: u64) -> (r: Option<&OrderRow>)
        ensures
            (order_id as int) < self.rows@.len() <==> r is Some,
            r matches Some(row) ==> *row == self.rows@[order_id as int],
    {
        if order_id < self.rows.len() as u64 {
            Some(&self.rows[order_id as usize])
        } else {
            None
        }
    }

    /// Sets a row's status and event id together; everything else of the
    /// row, and every other row, stays as it was. Fails exactly when no
    /// such row exists, leaving the store unchanged.
    pub fn update_order_event_id_status(
        &mut self,
        order_id: u64,
        status: Status,
        event_id: &Vec<u8>,
    ) -> (r: Result<(), StoreError>)
        requires
            old(self).wf(),
        ensures
            final(self).wf(),
            final(self).kind_counter == old(self).kind_counter,
            final(self).rows@.len() == old(self).rows@.len(),
            (order_id as int) >= old(self).rows@.len() ==> r == Err::<(), StoreError>(
                StoreError::OrderNotFound,
            ) && *final(self) == *old(self),
            (order_id as int) < old(self).rows@.len() ==> r == Ok::<(), StoreError>(()) && (forall|
                k: int,
            |
                0 <= k < old(self).rows@.len() && k != order_id as int ==> final(self).rows@[k]
                    == old(self).rows@[k]) && row_advanced(old(self).rows@[order_id as int], final(self).rows@[order_id as int], status, event_id@),
    {
        if order_id >= self.rows.len() as u64 {
            return Err(StoreError::OrderNotFound);
        }
        let idx = order_id as usize;
        let row = OrderRow {
            id: self.rows[idx].id,
            kind: self.rows[idx].kind,
            status,
            amount: self.rows[idx].amount,
            fiat_code: copy_bytes(&self.rows[idx].fiat_code),
            fiat_amount: self.rows[idx].fiat_amount,
            payment_method: copy_bytes(&self.rows[idx].payment_method),
            premium: self.rows[idx].premium,
            buyer_invoice: copy_bytes(&self.rows[idx].buyer_invoice),
            initiator_pubkey: copy_bytes(&self.rows[idx].initiator_pubkey),
            event_kind: self.rows[idx].event_kind,
            event_id: copy_bytes(event_id),
            created_at: self.rows[idx].created_at,
        };
        self.rows[idx] = row;
        Ok(())
    }
}

/// Whether `row` is the provisional row that creating an order with the
/// given terms writes: status `Pending` and no event id yet.
pub open spec fn provisional_row(
    row: OrderRow,
    order: NewOrder,
    buyer_invoice: Seq<u8>,
    event_kind: u16,
    initiator_pubkey: Seq<u8>,
    created_at: u64,
    id: u64,
) -> bool {
    &&& row.id == id
    &&& row.kind == order.kind
    &&& row.status == Status::Pending
    &&& row.amount == order.amount
    &&& row.fiat_code@ == order.fiat_code@
    &&& row.fiat_amount == order.fiat_amount
    &&& row.payment_method@ == order.payment_method@
    &&& row.premium == order.premium
    &&& row.buyer_invoice@ == buyer_invoice
    &&& row.initiator_pubkey@ == initiator_pubkey
    &&& row.event_kind == event_kind
    &&& row.event_id@ == Seq::<u8>::empty()
    &&& row.created_at == created_at
}

/// Counters strictly increase along an allocation chain.
proof fn lemma_counters_increase(counters: Seq<int>, a: int, b: int)
    requires
        forall|i: int| 0 <= i < counters.len() - 1 ==> counters[i + 1] == #[trigger] counters[i]
            + 1,
        0 <= a < b < counters.len(),
    ensures
        counters[a] < counters[b],
    decreases b - a,
{
    if a + 1 < b {
        lemma_counters_increase(counters, a + 1, b);
    }
}

/// Kind uniqueness, for any number of creations. `counters` are the
/// store's successive counter values and `kinds` the allocated kinds: by
/// `next_event_kind`'s contract — and so by `publish_order`'s — every
/// allocation returns the current counter and leaves it one higher, also
/// across restarts of a store rebuilt with the persisted counter. Under
/// exactly that shape, the allocated kinds are pairwise distinct: no two
/// orders ever share an event kind.
pub proof fn lemma_kind_uniqueness(counters: Seq<int>, kinds: Seq<int>)
    requires
        counters.len() == kinds.len() + 1,
        forall|i: int| 0 <= i < kinds.len() ==> #[trigger] kinds[i] == counters[i],
        forall|i: int| 0 <= i < kinds.len() ==> counters[i + 1] == #[trigger] counters[i] + 1,
    ensures
        forall|a: int, b: int| 0 <= a < b < kinds.len() ==> kinds[a] != kinds[b],
{
    assert forall|a: int, b: int| 0 <= a < b < kinds.len() implies kinds[a] != kinds[b] by {
        lemma_counters_increase(counters, a, b);
    };
}

} // verus!
