//! The order data model: trade terms, lifecycle states, and full snapshots
//! as they are published to the event network.

use vstd::prelude::*;

verus! {

/// Direction of a trade order.
#[derive(Clone, Copy, PartialEq, Eq, Structural, Debug)]
pub enum OrderKind {
    Buy,
    Sell,
}

/// Lifecycle state of an order. `Pending` is the sole initial state;
/// `Success` and `Canceled` are terminal.
#[derive(Clone, Copy, PartialEq, Eq, Structural, Debug)]
pub enum Status {
    Pending,
    Active,
    Success,
    Canceled,
    Disputed,
}

/// The trade terms a caller supplies when creating an order; the store
/// assigns the row identifier and the orchestrator fixes status and
/// timestamps.
pub struct NewOrder {
    pub kind: OrderKind,
    pub amount: u64,
    pub fiat_code: Vec<u8>,
    pub fiat_amount: u64,
    pub payment_method: Vec<u8>,
    pub premium: i64,
}

/// A full order snapshot as serialized into event content: the row
/// identifier is already known and the publish timestamp is fixed.
#[derive(PartialEq, Eq, Debug)]
pub struct Order {
    pub id: u64,
    pub kind: OrderKind,
    pub status: Status,
    pub amount: u64,
    pub fiat_code: Vec<u8>,
    pub fiat_amount: u64,
    pub payment_method: Vec<u8>,
    pub premium: i64,
    pub created_at: u64,
}

/// Mathematical model of an order snapshot.
#[verifier::ext_equal]
pub struct OrderV {
    pub id: u64,
    pub kind: OrderKind,
    pub status: Status,
    pub amount: u64,
    pub fiat_code: Seq<u8>,
    pub fiat_amount: u64,
    pub payment_method: Seq<u8>,
    pub premium: i64,
    pub created_at: u64,
}

impl View for Order {
    type V = OrderV;

    open spec fn view(&self) -> OrderV {
        OrderV {
            id: self.id,
            kind: self.kind,
            status: self.status,
            amount: self.amount,
            fiat_code: self.fiat_code@,
            fiat_amount: self.fiat_amount,
            payment_method: self.payment_method@,
            premium: self.premium,
            created_at: self.created_at,
        }
    }
}

/// Text that can stand raw inside a JSON string and survives the byte-to-
/// string step of signing unchanged: printable ASCII without quote or
/// backslash.
pub open spec fn plain_text(s: Seq<u8>) -> bool {
    forall|k: int| 0 <= k < s.len() ==> s[k] != 34 && s[k] != 92 && 32 <= s[k] < 127
}

/// Whether the free-text trade terms can stand raw inside canonical JSON.
pub open spec fn plain_terms(order: NewOrder) -> bool {
    plain_text(order.fiat_code@) && plain_text(order.payment_method@)
}

impl OrderV {
    /// A snapshot is valid when its free-text fields can stand raw inside
    /// the canonical JSON form.
    pub open spec fn valid(self) -> bool {
        plain_text(self.fiat_code) && plain_text(self.payment_method)
    }
}

/// Copies a byte vector; the store and the orchestrator keep their own
/// copies of caller-supplied text.
pub fn copy_bytes(src: &Vec<u8>) -> (r: Vec<u8>)
    ensures
        r@ == src@,
{
    let mut r: Vec<u8> = Vec::new();
    let mut k: usize = 0;
    while k < src.len()
        invariant
            k <= src.len(),
            r@ == src@.subrange(0, k as int),
        decreases src.len() - k,
    {
        r.push(src[k]);
        k = k + 1;
        proof {
            assert(r@ =~= src@.subrange(0, k as int));
        }
    }
    proof {
        assert(r@ =~= src@);
    }
    r
}

} // verus!
