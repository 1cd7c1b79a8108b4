//! The event codec: serializes an order snapshot into its canonical JSON
//! content bytes and parses such content back. Encoding is total; decoding
//! has an exact functional specification, and `lemma_round_trip` proves that
//! every valid snapshot survives an encode/decode cycle unchanged.

use vstd::prelude::*;
use crate::order::{Order, OrderKind, OrderV, Status};

verus! {

/// Decoding failure: the content is not the canonical form of any snapshot.
#[derive(Clone, Copy, PartialEq, Eq, Structural, Debug)]
pub enum CodecError {
    Malformed,
}

// ---------------------------------------------------------------------------
// Canonical byte sequences: the fixed JSON punctuation and key names, and the
// words for the enumerated fields.
// ---------------------------------------------------------------------------

/// `{"id":`
pub open spec fn lit_obj_id() -> Seq<u8> {
    seq![123u8, 34u8, 105u8, 100u8, 34u8, 58u8]
}

/// `,"kind":"`
pub open spec fn lit_kind() -> Seq<u8> {
    seq![44u8, 34u8, 107u8, 105u8, 110u8, 100u8, 34u8, 58u8, 34u8]
}

/// `","status":"`
pub open spec fn lit_status() -> Seq<u8> {
    seq![34u8, 44u8, 34u8, 115u8, 116u8, 97u8, 116u8, 117u8, 115u8, 34u8, 58u8, 34u8]
}

/// `","amount":`
pub open spec fn lit_amount() -> Seq<u8> {
    seq![34u8, 44u8, 34u8, 97u8, 109u8, 111u8, 117u8, 110u8, 116u8, 34u8, 58u8]
}

/// `,"fiat_code":"`
pub open spec fn lit_fiat_code() -> Seq<u8> {
    seq![44u8, 34u8, 102u8, 105u8, 97u8, 116u8, 95u8, 99u8, 111u8, 100u8, 101u8, 34u8, 58u8, 34u8]
}

/// `","fiat_amount":`
pub open spec fn lit_fiat_amount() -> Seq<u8> {
    seq![34u8, 44u8, 34u8, 102u8, 105u8, 97u8, 116u8, 95u8, 97u8, 109u8, 111u8, 117u8, 110u8,
        116u8, 34u8, 58u8]
}

/// `,"payment_method":"`
pub open spec fn lit_payment() -> Seq<u8> {
    seq![44u8, 34u8, 112u8, 97u8, 121u8, 109u8, 101u8, 110u8, 116u8, 95u8, 109u8, 101u8, 116u8,
        104u8, 111u8, 100u8, 34u8, 58u8, 34u8]
}

/// `","premium":`
pub open spec fn lit_premium() -> Seq<u8> {
    seq![34u8, 44u8, 34u8, 112u8, 114u8, 101u8, 109u8, 105u8, 117u8, 109u8, 34u8, 58u8]
}

/// `,"created_at":`
pub open spec fn lit_created() -> Seq<u8> {
    seq![44u8, 34u8, 99u8, 114u8, 101u8, 97u8, 116u8, 101u8, 100u8, 95u8, 97u8, 116u8, 34u8, 58u8]
}

/// `}`
pub open spec fn lit_close() -> Seq<u8> {
    seq![125u8]
}

/// The canonical word for a trade direction.
pub open spec fn kind_word(k: OrderKind) -> Seq<u8> {
    match k {
        OrderKind::Buy => seq![66u8, 117u8, 121u8],
        OrderKind::Sell => seq![83u8, 101u8, 108u8, 108u8],
    }
}

/// The canonical word for a lifecycle state.
pub open spec fn status_word(s: Status) -> Seq<u8> {
    match s {
        Status::Pending => seq![80u8, 101u8, 110u8, 100u8, 105u8, 110u8, 103u8],
        Status::Active => seq![65u8, 99u8, 116u8, 105u8, 118u8, 101u8],
        Status::Success => seq![83u8, 117u8, 99u8, 99u8, 101u8, 115u8, 115u8],
        Status::Canceled => seq![67u8, 97u8, 110u8, 99u8, 101u8, 108u8, 101u8, 100u8],
        Status::Disputed => seq![68u8, 105u8, 115u8, 112u8, 117u8, 116u8, 101u8, 100u8],
    }
}

// ---------------------------------------------------------------------------
// Decimal numerals.
// ---------------------------------------------------------------------------

/// Whether a byte is an ASCII decimal digit.
pub open spec fn is_digit_byte(b: u8) -> bool {
    48 <= b <= 57
}

/// The ASCII digit for a value below ten.
pub open spec fn digit_byte(d: int) -> u8
    recommends
        0 <= d < 10,
{
    (48 + d) as u8
}

/// The shortest decimal numeral of a natural number, most significant
/// digit first.
pub open spec fn u64_digits(v: nat) -> Seq<u8>
    decreases v,
{
    if v < 10 {
        seq![digit_byte(v as int)]
    } else {
        u64_digits(v / 10) + seq![digit_byte((v % 10) as int)]
    }
}

/// The decimal numeral of an integer: a minus sign before the magnitude
/// when negative.
pub open spec fn i64_digits(v: int) -> Seq<u8> {
    if v < 0 {
        seq![45u8] + u64_digits((-v) as nat)
    } else {
        u64_digits(v as nat)
    }
}

// ---------------------------------------------------------------------------
// The canonical encoding of a snapshot.
// ---------------------------------------------------------------------------

/// The tail of the encoding from the `premium` field on.
pub open spec fn enc_from_premium(o: OrderV) -> Seq<u8> {
    lit_premium() + i64_digits(o.premium as int) + (lit_created() + u64_digits(
        o.created_at as nat,
    ) + lit_close())
}

/// The tail of the encoding from the `payment_method` field on.
pub open spec fn enc_from_payment(o: OrderV) -> Seq<u8> {
    lit_payment() + o.payment_method + enc_from_premium(o)
}

/// The tail of the encoding from the `fiat_amount` field on.
pub open spec fn enc_from_fiat_amount(o: OrderV) -> Seq<u8> {
    lit_fiat_amount() + u64_digits(o.fiat_amount as nat) + enc_from_payment(o)
}

/// The tail of the encoding from the `fiat_code` field on.
pub open spec fn enc_from_fiat_code(o: OrderV) -> Seq<u8> {
    lit_fiat_code() + o.fiat_code + enc_from_fiat_amount(o)
}

/// The tail of the encoding from the `amount` field on.
pub open spec fn enc_from_amount(o: OrderV) -> Seq<u8> {
    lit_amount() + u64_digits(o.amount as nat) + enc_from_fiat_code(o)
}

/// The tail of the encoding from the `status` field on.
pub open spec fn enc_from_status(o: OrderV) -> Seq<u8> {
    lit_status() + status_word(o.status) + enc_from_amount(o)
}

/// The tail of the encoding from the `kind` field on.
pub open spec fn enc_from_kind(o: OrderV) -> Seq<u8> {
    lit_kind() + kind_word(o.kind) + enc_from_status(o)
}

/// The canonical JSON content bytes of an order snapshot.
pub open spec fn encode_spec(o: OrderV) -> Seq<u8> {
    lit_obj_id() + u64_digits(o.id as nat) + enc_from_kind(o)
}

// ---------------------------------------------------------------------------
// Executable encoding.
// ---------------------------------------------------------------------------

/// Appends every byte of `w` to `out`.
pub fn push_slice(out: &mut Vec<u8>, w: &Vec<u8>)
    ensures
        final(out)@ == old(out)@ + w@,
{
    let mut k: usize = 0;
    while k < w.len()
        invariant
            k <= w.len(),
            out@ == old(out)@ + w@.subrange(0, k as int),
        decreases w.len() - k,
    {
        out.push(w[k]);
        k = k + 1;
        proof {
            assert(out@ =~= old(out)@ + w@.subrange(0, k as int));
        }
    }
    proof {
        assert(out@ =~= old(out)@ + w@);
    }
}

/// Appends the shortest decimal numeral of `v` to `out`.
pub fn push_u64(out: &mut Vec<u8>, v: u64)
    ensures
        final(out)@ == old(out)@ + u64_digits(v as nat),
    decreases v,
{
    if v < 10 {
        out.push(48 + (v as u8));
        proof {
            assert(out@ =~= old(out)@ + u64_digits(v as nat));
        }
    } else {
        push_u64(out, v / 10);
        out.push(48 + ((v % 10) as u8));
        proof {
            assert(out@ =~= old(out)@ + u64_digits(v as nat));
        }
    }
}

/// Appends the decimal numeral of `v`, sign included, to `out`.
pub fn push_i64(out: &mut Vec<u8>, v: i64)
    ensures
        final(out)@ == old(out)@ + i64_digits(v as int),
{
    if v < 0 {
        out.push(45);
        let m: u64 = if v == i64::MIN {
            9223372036854775808u64
        } else {
            (-v) as u64
        };
        proof {
            assert(m as nat == (-(v as int)) as nat);
        }
        push_u64(out, m);
        proof {
            assert(out@ =~= old(out)@ + i64_digits(v as int));
        }
    } else {
        push_u64(out, v as u64);
    }
}

/// Appends the encoding tail from the `premium` field on.
fn enc_tail_premium(out: &mut Vec<u8>, o: &Order)
    ensures
        final(out)@ == old(out)@ + enc_from_premium(o@),
{
    push_slice(out, &lit_premium_vec());
    push_i64(out, o.premium);
    push_slice(out, &lit_created_vec());
    push_u64(out, o.created_at);
    push_slice(out, &lit_close_vec());
    proof {
        assert(out@ =~= old(out)@ + enc_from_premium(o@));
    }
}

/// Appends the encoding tail from the `payment_method` field on.
fn enc_tail_payment(out: &mut Vec<u8>, o: &Order)
    ensures
        final(out)@ == old(out)@ + enc_from_payment(o@),
{
    push_slice(out, &lit_payment_vec());
    push_slice(out, &o.payment_method);
    enc_tail_premium(out, o);
    proof {
        assert(out@ =~= old(out)@ + enc_from_payment(o@));
    }
}

/// Appends the encoding tail from the `fiat_amount` field on.
fn enc_tail_fiat_amount(out: &mut Vec<u8>, o: &Order)
    ensures
        final(out)@ == old(out)@ + enc_from_fiat_amount(o@),
{
    push_slice(out, &lit_fiat_amount_vec());
    push_u64(out, o.fiat_amount);
    enc_tail_payment(out, o);
    proof {
        assert(out@ =~= old(out)@ + enc_from_fiat_amount(o@));
    }
}

/// Appends the encoding tail from the `fiat_code` field on.
fn enc_tail_fiat_code(out: &mut Vec<u8>, o: &Order)
    ensures
        final(out)@ == old(out)@ + enc_from_fiat_code(o@),
{
    push_slice(out, &lit_fiat_code_vec());
    push_slice(out, &o.fiat_code);
    enc_tail_fiat_amount(out, o);
    proof {
        assert(out@ =~= old(out)@ + enc_from_fiat_code(o@));
    }
}

/// Appends the encoding tail from the `amount` field on.
fn enc_tail_amount(out: &mut Vec<u8>, o: &Order)
    ensures
        final(out)@ == old(out)@ + enc_from_amount(o@),
{
    push_slice(out, &lit_amount_vec());
    push_u64(out, o.amount);
    enc_tail_fiat_code(out, o);
    proof {
        assert(out@ =~= old(out)@ + enc_from_amount(o@));
    }
}

/// Appends the encoding tail from the `status` field on.
fn enc_tail_status(out: &mut Vec<u8>, o: &Order)
    ensures
        final(out)@ == old(out)@ + enc_from_status(o@),
{
    push_slice(out, &lit_status_vec());
    push_slice(out, &status_word_vec(o.status));
    enc_tail_amount(out, o);
    proof {
        assert(out@ =~= old(out)@ + enc_from_status(o@));
    }
}

/// Appends the encoding tail from the `kind` field on.
fn enc_tail_kind(out: &mut Vec<u8>, o: &Order)
    ensures
        final(out)@ == old(out)@ + enc_from_kind(o@),
{
    push_slice(out, &lit_kind_vec());
    push_slice(out, &kind_word_vec(o.kind));
    enc_tail_status(out, o);
    proof {
        assert(out@ =~= old(out)@ + enc_from_kind(o@));
    }
}

/// Serializes an order snapshot into its canonical JSON content bytes.
pub fn encode(o: &Order) -> (r: Vec<u8>)
    ensures
        r@ == encode_spec(o@),
{
    let mut out: Vec<u8> = Vec::new();
    push_slice(&mut out, &lit_obj_id_vec());
    push_u64(&mut out, o.id);
    enc_tail_kind(&mut out, o);
    proof {
        assert(out@ =~= encode_spec(o@));
    }
    out
}

// ---------------------------------------------------------------------------
// Executable forms of the canonical byte sequences.
// ---------------------------------------------------------------------------

/// The bytes of `{"id":`.
pub fn lit_obj_id_vec() -> (r: Vec<u8>)
    ensures
        r@ == lit_obj_id(),
{
    let mut v: Vec<u8> = Vec::new();
    v.push(123);
    v.push(34);
    v.push(105);
    v.push(100);
    v.push(34);
    v.push(58);
    proof {
        assert(v@ =~= lit_obj_id());
    }
    v
}

/// The bytes of `,"kind":"`.
pub fn lit_kind_vec() -> (r: Vec<u8>)
    ensures
        r@ == lit_kind(),
{
    let mut v: Vec<u8> = Vec::new();
    v.push(44);
    v.push(34);
    v.push(107);
    v.push(105);
    v.push(110);
    v.push(100);
    v.push(34);
    v.push(58);
    v.push(34);
    proof {
        assert(v@ =~= lit_kind());
    }
    v
}

/// The bytes of `","status":"`.
pub fn lit_status_vec() -> (r: Vec<u8>)
    ensures
        r@ == lit_status(),
{
    let mut v: Vec<u8> = Vec::new();
    v.push(34);
    v.push(44);
    v.push(34);
    v.push(115);
    v.push(116);
    v.push(97);
    v.push(116);
    v.push(117);
    v.push(115);
    v.push(34);
    v.push(58);
    v.push(34);
    proof {
        assert(v@ =~= lit_status());
    }
    v
}

/// The bytes of `","amount":`.
pub fn lit_amount_vec() -> (r: Vec<u8>)
    ensures
        r@ == lit_amount(),
{
    let mut v: Vec<u8> = Vec::new();
    v.push(34);
    v.push(44);
    v.push(34);
    v.push(97);
    v.push(109);
    v.push(111);
    v.push(117);
    v.push(110);
    v.push(116);
    v.push(34);
    v.push(58);
    proof {
        assert(v@ =~= lit_amount());
    }
    v
}

/// The bytes of `,"fiat_code":"`.
pub fn lit_fiat_code_vec() -> (r: Vec<u8>)
    ensures
        r@ == lit_fiat_code(),
{
    let mut v: Vec<u8> = Vec::new();
    v.push(44);
    v.push(34);
    v.push(102);
    v.push(105);
    v.push(97);
    v.push(116);
    v.push(95);
    v.push(99);
    v.push(111);
    v.push(100);
    v.push(101);
    v.push(34);
    v.push(58);
    v.push(34);
    proof {
        assert(v@ =~= lit_fiat_code());
    }
    v
}

/// The bytes of `","fiat_amount":`.
pub fn lit_fiat_amount_vec() -> (r: Vec<u8>)
    ensures
        r@ == lit_fiat_amount(),
{
    let mut v: Vec<u8> = Vec::new();
    v.push(34);
    v.push(44);
    v.push(34);
    v.push(102);
    v.push(105);
    v.push(97);
    v.push(116);
    v.push(95);
    v.push(97);
    v.push(109);
    v.push(111);
    v.push(117);
    v.push(110);
    v.push(116);
    v.push(34);
    v.push(58);
    proof {
        assert(v@ =~= lit_fiat_amount());
    }
    v
}

/// The bytes of `,"payment_method":"`.
pub fn lit_payment_vec() -> (r: Vec<u8>)
    ensures
        r@ == lit_payment(),
{
    let mut v: Vec<u8> = Vec::new();
    v.push(44);
    v.push(34);
    v.push(112);
    v.push(97);
    v.push(121);
    v.push(109);
    v.push(101);
    v.push(110);
    v.push(116);
    v.push(95);
    v.push(109);
    v.push(101);
    v.push(116);
    v.push(104);
    v.push(111);
    v.push(100);
    v.push(34);
    v.push(58);
    v.push(34);
    proof {
        assert(v@ =~= lit_payment());
    }
    v
}

/// The bytes of `","premium":`.
pub fn lit_premium_vec() -> (r: Vec<u8>)
    ensures
        r@ == lit_premium(),
{
    let mut v: Vec<u8> = Vec::new();
    v.push(34);
    v.push(44);
    v.push(34);
    v.push(112);
    v.push(114);
    v.push(101);
    v.push(109);
    v.push(105);
    v.push(117);
    v.push(109);
    v.push(34);
    v.push(58);
    proof {
        assert(v@ =~= lit_premium());
    }
    v
}

/// The bytes of `,"created_at":`.
pub fn lit_created_vec() -> (r: Vec<u8>)
    ensures
        r@ == lit_created(),
{
    let mut v: Vec<u8> = Vec::new();
    v.push(44);
    v.push(34);
    v.push(99);
    v.push(114);
    v.push(101);
    v.push(97);
    v.push(116);
    v.push(101);
    v.push(100);
    v.push(95);
    v.push(97);
    v.push(116);
    v.push(34);
    v.push(58);
    proof {
        assert(v@ =~= lit_created());
    }
    v
}

/// The bytes of `}`.
pub fn lit_close_vec() -> (r: Vec<u8>)
    ensures
        r@ == lit_close(),
{
    let mut v: Vec<u8> = Vec::new();
    v.push(125);
    proof {
        assert(v@ =~= lit_close());
    }
    v
}

/// The bytes of the canonical word for a trade direction.
pub fn kind_word_vec(k: OrderKind) -> (r: Vec<u8>)
    ensures
        r@ == kind_word(k),
{
    let mut v: Vec<u8> = Vec::new();
    match k {
        OrderKind::Buy => {
            v.push(66);
            v.push(117);
            v.push(121);
        },
        OrderKind::Sell => {
            v.push(83);
            v.push(101);
            v.push(108);
            v.push(108);
        },
    }
    proof {
        assert(v@ =~= kind_word(k));
    }
    v
}

/// The bytes of the canonical word for a lifecycle state.
pub fn status_word_vec(s: Status) -> (r: Vec<u8>)
    ensures
        r@ == status_word(s),
{
    let mut v: Vec<u8> = Vec::new();
    match s {
        Status::Pending => {
            v.push(80);
            v.push(101);
            v.push(110);
            v.push(100);
            v.push(105);
            v.push(110);
            v.push(103);
        },
        Status::Active => {
            v.push(65);
            v.push(99);
            v.push(116);
            v.push(105);
            v.push(118);
            v.push(101);
        },
        Status::Success => {
            v.push(83);
            v.push(117);
            v.push(99);
            v.push(99);
            v.push(101);
            v.push(115);
            v.push(115);
        },
        Status::Canceled => {
            v.push(67);
            v.push(97);
            v.push(110);
            v.push(99);
            v.push(101);
            v.push(108);
            v.push(101);
            v.push(100);
        },
        Status::Disputed => {
            v.push(68);
            v.push(105);
            v.push(115);
            v.push(112);
            v.push(117);
            v.push(116);
            v.push(101);
            v.push(100);
        },
    }
    proof {
        assert(v@ =~= status_word(s));
    }
    v
}


// ---------------------------------------------------------------------------
// Spec-level parsing. Every parse function takes a position into the content
// and yields the parsed value with the position just past it.
// ---------------------------------------------------------------------------

/// Whether the bytes `w` stand at position `i` of `s`.
pub open spec fn lit_at(s: Seq<u8>, i: int, w: Seq<u8>) -> bool {
    0 <= i && i + w.len() <= s.len() && s.subrange(i, i + w.len()) == w
}

/// The end of the maximal digit run starting at `i`.
pub open spec fn run_end(s: Seq<u8>, i: int) -> int
    decreases s.len() - i
        when 0 <= i <= s.len()
{
    if i < s.len() && is_digit_byte(s[i]) {
        run_end(s, i + 1)
    } else {
        i
    }
}

/// The value of a digit string, most significant digit first.
pub open spec fn fold_digits(s: Seq<u8>) -> int
    decreases s.len(),
{
    if s.len() == 0 {
        0
    } else {
        fold_digits(s.drop_last()) * 10 + (s.last() - 48)
    }
}

/// Parses the maximal digit run at `i` as a `u64`; empty runs and values
/// beyond `u64` fail.
pub open spec fn parse_u64_at(s: Seq<u8>, i: int) -> Option<(u64, int)>
    recommends
        0 <= i <= s.len(),
{
    let e = run_end(s, i);
    if e == i || fold_digits(s.subrange(i, e)) > u64::MAX {
        None
    } else {
        Some((fold_digits(s.subrange(i, e)) as u64, e))
    }
}

/// Parses an optionally signed decimal at `i` as an `i64`.
pub open spec fn parse_i64_at(s: Seq<u8>, i: int) -> Option<(i64, int)>
    recommends
        0 <= i <= s.len(),
{
    if i < s.len() && s[i] == 45 {
        match parse_u64_at(s, i + 1) {
            Some((m, e)) => if 1 <= m <= 9223372036854775808u64 {
                Some(((-(m as int)) as i64, e))
            } else {
                None
            },
            None => None,
        }
    } else {
        match parse_u64_at(s, i) {
            Some((m, e)) => if m <= i64::MAX as u64 {
                Some((m as i64, e))
            } else {
                None
            },
            None => None,
        }
    }
}

/// The position of the closing quote after the raw text starting at `i`.
pub open spec fn text_end(s: Seq<u8>, i: int) -> int
    decreases s.len() - i
        when 0 <= i <= s.len()
{
    if i < s.len() && s[i] != 34 {
        text_end(s, i + 1)
    } else {
        i
    }
}

/// Parses the raw text at `i` up to the next quote; fails when no quote
/// follows.
pub open spec fn parse_text_at(s: Seq<u8>, i: int) -> Option<(Seq<u8>, int)>
    recommends
        0 <= i <= s.len(),
{
    let e = text_end(s, i);
    if e < s.len() {
        Some((s.subrange(i, e), e))
    } else {
        None
    }
}

/// Parses a trade-direction word at `i`.
pub open spec fn parse_kind_at(s: Seq<u8>, i: int) -> Option<(OrderKind, int)> {
    if lit_at(s, i, kind_word(OrderKind::Buy)) {
        Some((OrderKind::Buy, i + kind_word(OrderKind::Buy).len()))
    } else if lit_at(s, i, kind_word(OrderKind::Sell)) {
        Some((OrderKind::Sell, i + kind_word(OrderKind::Sell).len()))
    } else {
        None
    }
}

/// Parses a lifecycle-state word at `i`.
pub open spec fn parse_status_at(s: Seq<u8>, i: int) -> Option<(Status, int)> {
    if lit_at(s, i, status_word(Status::Pending)) {
        Some((Status::Pending, i + status_word(Status::Pending).len()))
    } else if lit_at(s, i, status_word(Status::Active)) {
        Some((Status::Active, i + status_word(Status::Active).len()))
    } else if lit_at(s, i, status_word(Status::Success)) {
        Some((Status::Success, i + status_word(Status::Success).len()))
    } else if lit_at(s, i, status_word(Status::Canceled)) {
        Some((Status::Canceled, i + status_word(Status::Canceled).len()))
    } else if lit_at(s, i, status_word(Status::Disputed)) {
        Some((Status::Disputed, i + status_word(Status::Disputed).len()))
    } else {
        None
    }
}

/// The exact meaning of decoding: the unique snapshot whose canonical form
/// the whole of `s` is, when there is one.
pub open spec fn decode_spec(s: Seq<u8>) -> Option<OrderV> {
    if !lit_at(s, 0, lit_obj_id()) {
        None
    } else {
        match parse_u64_at(s, lit_obj_id().len() as int) {
            None => None,
            Some((id, i1)) => if !lit_at(s, i1, lit_kind()) {
                None
            } else {
                match parse_kind_at(s, i1 + lit_kind().len()) {
                    None => None,
                    Some((kind, i2)) => if !lit_at(s, i2, lit_status()) {
                        None
                    } else {
                        match parse_status_at(s, i2 + lit_status().len()) {
                            None => None,
                            Some((status, i3)) => if !lit_at(s, i3, lit_amount()) {
                                None
                            } else {
                                match parse_u64_at(s, i3 + lit_amount().len()) {
                                    None => None,
                                    Some((amount, i4)) => if !lit_at(s, i4, lit_fiat_code()) {
                                        None
                                    } else {
                                        decode_spec_tail(s, id, kind, status, amount, i4)
                                    },
                                }
                            },
                        }
                    },
                }
            },
        }
    }
}

/// The meaning of decoding from the `fiat_code` value on; `i4` stands on the
/// `,"fiat_code":"` key.
pub open spec fn decode_spec_tail(
    s: Seq<u8>,
    id: u64,
    kind: OrderKind,
    status: Status,
    amount: u64,
    i4: int,
) -> Option<OrderV> {
    match parse_text_at(s, i4 + lit_fiat_code().len()) {
        None => None,
        Some((fiat_code, i5)) => if !lit_at(s, i5, lit_fiat_amount()) {
            None
        } else {
            match parse_u64_at(s, i5 + lit_fiat_amount().len()) {
                None => None,
                Some((fiat_amount, i6)) => if !lit_at(s, i6, lit_payment()) {
                    None
                } else {
                    match parse_text_at(s, i6 + lit_payment().len()) {
                        None => None,
                        Some((payment_method, i7)) => if !lit_at(s, i7, lit_premium()) {
                            None
                        } else {
                            match parse_i64_at(s, i7 + lit_premium().len()) {
                                None => None,
                                Some((premium, i8)) => if !lit_at(s, i8, lit_created()) {
                                    None
                                } else {
                                    match parse_u64_at(s, i8 + lit_created().len()) {
                                        None => None,
                                        Some((created_at, i9)) => if lit_at(s, i9, lit_close())
                                            && i9 + lit_close().len() == s.len() {
                                            Some(OrderV {
                                                id,
                                                kind,
                                                status,
                                                amount,
                                                fiat_code,
                                                fiat_amount,
                                                payment_method,
                                                premium,
                                                created_at,
                                            })
                                        } else {
                                            None
                                        },
                                    }
                                },
                            }
                        },
                    }
                },
            }
        },
    }
}

// ---------------------------------------------------------------------------
// Facts about digit runs and digit folding.
// ---------------------------------------------------------------------------

/// The digit run from `i` ends within bounds, covers only digits, and stops
/// at the first non-digit.
pub proof fn lemma_run_end(s: Seq<u8>, i: int)
    requires
        0 <= i <= s.len(),
    ensures
        i <= run_end(s, i) <= s.len(),
        forall|k: int| i <= k < run_end(s, i) ==> is_digit_byte(s[k]),
        run_end(s, i) < s.len() ==> !is_digit_byte(s[run_end(s, i)]),
    decreases s.len() - i,
{
    if i < s.len() && is_digit_byte(s[i]) {
        lemma_run_end(s, i + 1);
    }
}

/// A stretch of digits followed by a non-digit (or the end) is exactly the
/// digit run.
pub proof fn lemma_run_end_is(s: Seq<u8>, i: int, j: int)
    requires
        0 <= i <= j <= s.len(),
        forall|k: int| i <= k < j ==> is_digit_byte(s[k]),
        j == s.len() || !is_digit_byte(s[j]),
    ensures
        run_end(s, i) == j,
    decreases j - i,
{
    if i < j {
        assert(is_digit_byte(s[i]));
        lemma_run_end_is(s, i + 1, j);
    }
}

/// The stretch of non-quote bytes followed by a quote (or the end) is exactly
/// the text run.
pub proof fn lemma_text_end_is(s: Seq<u8>, i: int, j: int)
    requires
        0 <= i <= j <= s.len(),
        forall|k: int| i <= k < j ==> s[k] != 34,
        j == s.len() || s[j] == 34,
    ensures
        text_end(s, i) == j,
    decreases j - i,
{
    if i < j {
        lemma_text_end_is(s, i + 1, j);
    }
}

/// The text run from `i` ends within bounds, covers no quote, and stops at
/// the first quote.
pub proof fn lemma_text_end(s: Seq<u8>, i: int)
    requires
        0 <= i <= s.len(),
    ensures
        i <= text_end(s, i) <= s.len(),
        forall|k: int| i <= k < text_end(s, i) ==> s[k] != 34,
        text_end(s, i) < s.len() ==> s[text_end(s, i)] == 34,
    decreases s.len() - i,
{
    if i < s.len() && s[i] != 34 {
        lemma_text_end(s, i + 1);
    }
}

/// Folding a digit string never goes negative.
pub proof fn lemma_fold_nonneg(t: Seq<u8>)
    requires
        forall|m: int| 0 <= m < t.len() ==> is_digit_byte(t[m]),
    ensures
        fold_digits(t) >= 0,
    decreases t.len(),
{
    if t.len() > 0 {
        lemma_fold_nonneg(t.drop_last());
    }
}

/// Folding a prefix of a digit string never exceeds folding the whole.
pub proof fn lemma_fold_prefix_le(t: Seq<u8>, k: int)
    requires
        0 <= k <= t.len(),
        forall|m: int| 0 <= m < t.len() ==> is_digit_byte(t[m]),
    ensures
        fold_digits(t.subrange(0, k)) <= fold_digits(t),
    decreases t.len() - k,
{
    if k == t.len() {
        assert(t.subrange(0, k) =~= t);
    } else {
        lemma_fold_prefix_le(t, k + 1);
        assert(t.subrange(0, k + 1).drop_last() =~= t.subrange(0, k));
        assert(t.subrange(0, k + 1).last() == t[k]);
        lemma_fold_nonneg(t.subrange(0, k));
    }
}

/// The canonical numeral of `v` is nonempty, all digits, and folds back
/// to `v`.
pub proof fn lemma_u64_digits(v: nat)
    ensures
        u64_digits(v).len() >= 1,
        forall|k: int| 0 <= k < u64_digits(v).len() ==> is_digit_byte(u64_digits(v)[k]),
        fold_digits(u64_digits(v)) == v,
    decreases v,
{
    if v < 10 {
        let d = u64_digits(v);
        assert(d.drop_last() =~= Seq::<u8>::empty());
        assert(d.last() == digit_byte(v as int));
        assert(digit_byte(v as int) == 48 + v);
        assert(fold_digits(d) == fold_digits(d.drop_last()) * 10 + (d.last() - 48));
        assert(fold_digits(d.drop_last()) == 0);
    } else {
        lemma_u64_digits(v / 10);
        let d = u64_digits(v);
        assert(d.drop_last() =~= u64_digits(v / 10));
        assert(d.last() == digit_byte((v % 10) as int));
        assert(fold_digits(d) == fold_digits(u64_digits(v / 10)) * 10 + (v % 10));
        assert(forall|k: int| 0 <= k < d.len() - 1 ==> d[k] == u64_digits(v / 10)[k]);
    }
}

// ---------------------------------------------------------------------------
// Executable parsing.
// ---------------------------------------------------------------------------

/// Checks that the bytes of `w` stand at position `i` of `s` and steps
/// past them.
pub fn expect_lit(s: &Vec<u8>, i: usize, w: &Vec<u8>) -> (r: Option<usize>)
    requires
        i <= s@.len(),
    ensures
        r matches Some(j) ==> lit_at(s@, i as int, w@) && j as int == i + w@.len(),
        r is None ==> !lit_at(s@, i as int, w@),
{
    if s.len() - i < w.len() {
        return None;
    }
    let mut k: usize = 0;
    while k < w.len()
        invariant
            i + w@.len() <= s@.len(),
            i + w@.len() <= usize::MAX,
            k <= w@.len(),
            forall|m: int| 0 <= m < k ==> s@[i + m] == w@[m],
        decreases w@.len() - k,
    {
        if s[i + k] != w[k] {
            proof {
                if lit_at(s@, i as int, w@) {
                    assert(s@.subrange(i as int, i + w@.len())[k as int] == w@[k as int]);
                }
            }
            return None;
        }
        k = k + 1;
    }
    proof {
        assert(s@.subrange(i as int, i + w@.len()) =~= w@);
    }
    Some(i + w.len())
}

/// Parses the maximal digit run at `i` as a `u64`.
pub fn parse_u64(s: &Vec<u8>, i: usize) -> (r: Option<(u64, usize)>)
    requires
        i <= s@.len(),
    ensures
        parse_u64_at(s@, i as int) matches Some(p) ==> (r matches Some(q) && q.0 == p.0
            && q.1 as int == p.1),
        parse_u64_at(s@, i as int) is None ==> r is None,
        r matches Some(q) ==> i <= q.1 <= s@.len(),
{
    proof {
        lemma_run_end(s@, i as int);
    }
    let ghost e = run_end(s@, i as int);
    let mut j: usize = i;
    let mut acc: u64 = 0;
    while j < s.len() && 48 <= s[j] && s[j] <= 57
        invariant
            i <= j <= e <= s@.len(),
            e == run_end(s@, i as int),
            forall|k: int| i <= k < e ==> is_digit_byte(s@[k]),
            e < s@.len() ==> !is_digit_byte(s@[e as int]),
            acc as int == fold_digits(s@.subrange(i as int, j as int)),
        decreases s@.len() - j,
    {
        proof {
            if j == e {
                assert(is_digit_byte(s@[j as int]));
            }
        }
        let d: u8 = s[j] - 48;
        proof {
            assert(s@.subrange(i as int, j as int + 1).drop_last() =~= s@.subrange(
                i as int,
                j as int,
            ));
            assert(s@.subrange(i as int, j as int + 1).last() == s@[j as int]);
        }
        if acc > (u64::MAX - (d as u64)) / 10 {
            proof {
                let full = s@.subrange(i as int, e as int);
                let partial = s@.subrange(i as int, j as int + 1);
                assert(fold_digits(partial) == acc * 10 + d);
                assert(acc * 10 + d > u64::MAX) by {
                    assert(acc >= (u64::MAX - (d as u64)) / 10 + 1);
                };
                assert(forall|m: int| 0 <= m < full.len() ==> is_digit_byte(full[m]));
                lemma_fold_prefix_le(full, j as int + 1 - i);
                assert(full.subrange(0, j as int + 1 - i) =~= partial);
            }
            return None;
        }
        acc = acc * 10 + (d as u64);
        j = j + 1;
    }
    proof {
        if j < s@.len() && j < e {
            assert(is_digit_byte(s@[j as int]));
        }
        assert(j == e);
    }
    if j == i {
        None
    } else {
        Some((acc, j))
    }
}

/// Parses an optionally signed decimal at `i` as an `i64`.
pub fn parse_i64(s: &Vec<u8>, i: usize) -> (r: Option<(i64, usize)>)
    requires
        i <= s@.len(),
    ensures
        parse_i64_at(s@, i as int) matches Some(p) ==> (r matches Some(q) && q.0 == p.0
            && q.1 as int == p.1),
        parse_i64_at(s@, i as int) is None ==> r is None,
        r matches Some(q) ==> i <= q.1 <= s@.len(),
{
    if i < s.len() && s[i] == 45 {
        match parse_u64(s, i + 1) {
            Some((m, e)) => {
                if 1 <= m && m <= 9223372036854775808u64 {
                    let v: i64 = if m == 9223372036854775808u64 {
                        i64::MIN
                    } else {
                        -(m as i64)
                    };
                    Some((v, e))
                } else {
                    None
                }
            },
            None => None,
        }
    } else {
        match parse_u64(s, i) {
            Some((m, e)) => {
                if m <= 9223372036854775807u64 {
                    Some((m as i64, e))
                } else {
                    None
                }
            },
            None => None,
        }
    }
}

/// Parses the raw text at `i` up to the next quote.
pub fn parse_text(s: &Vec<u8>, i: usize) -> (r: Option<(Vec<u8>, usize)>)
    requires
        i <= s@.len(),
    ensures
        parse_text_at(s@, i as int) matches Some(p) ==> (r matches Some(q) && q.0@ == p.0
            && q.1 as int == p.1),
        parse_text_at(s@, i as int) is None ==> r is None,
        r matches Some(q) ==> i <= q.1 <= s@.len(),
{
    proof {
        lemma_text_end(s@, i as int);
    }
    let ghost e = text_end(s@, i as int);
    let mut j: usize = i;
    let mut out: Vec<u8> = Vec::new();
    while j < s.len() && s[j] != 34
        invariant
            i <= j <= e <= s@.len(),
            e == text_end(s@, i as int),
            forall|k: int| i <= k < e ==> s@[k] != 34,
            e < s@.len() ==> s@[e as int] == 34,
            out@ == s@.subrange(i as int, j as int),
        decreases s@.len() - j,
    {
        proof {
            if j == e {
                assert(s@[j as int] != 34);
            }
        }
        out.push(s[j]);
        j = j + 1;
        proof {
            assert(out@ =~= s@.subrange(i as int, j as int));
        }
    }
    proof {
        if j < s@.len() && j < e {
            assert(s@[j as int] != 34);
        }
        assert(j == e);
    }
    if j == s.len() {
        None
    } else {
        Some((out, j))
    }
}

/// Parses a trade-direction word at `i`.
pub fn parse_kind(s: &Vec<u8>, i: usize) -> (r: Option<(OrderKind, usize)>)
    requires
        i <= s@.len(),
    ensures
        parse_kind_at(s@, i as int) matches Some(p) ==> (r matches Some(q) && q.0 == p.0
            && q.1 as int == p.1),
        parse_kind_at(s@, i as int) is None ==> r is None,
        r matches Some(q) ==> i <= q.1 <= s@.len(),
{
    if let Some(j) = expect_lit(s, i, &kind_word_vec(OrderKind::Buy)) {
        Some((OrderKind::Buy, j))
    } else if let Some(j) = expect_lit(s, i, &kind_word_vec(OrderKind::Sell)) {
        Some((OrderKind::Sell, j))
    } else {
        None
    }
}

/// Parses a lifecycle-state word at `i`.
pub fn parse_status(s: &Vec<u8>, i: usize) -> (r: Option<(Status, usize)>)
    requires
        i <= s@.len(),
    ensures
        parse_status_at(s@, i as int) matches Some(p) ==> (r matches Some(q) && q.0 == p.0
            && q.1 as int == p.1),
        parse_status_at(s@, i as int) is None ==> r is None,
        r matches Some(q) ==> i <= q.1 <= s@.len(),
{
    if let Some(j) = expect_lit(s, i, &status_word_vec(Status::Pending)) {
        Some((Status::Pending, j))
    } else if let Some(j) = expect_lit(s, i, &status_word_vec(Status::Active)) {
        Some((Status::Active, j))
    } else if let Some(j) = expect_lit(s, i, &status_word_vec(Status::Success)) {
        Some((Status::Success, j))
    } else if let Some(j) = expect_lit(s, i, &status_word_vec(Status::Canceled)) {
        Some((Status::Canceled, j))
    } else if let Some(j) = expect_lit(s, i, &status_word_vec(Status::Disputed)) {
        Some((Status::Disputed, j))
    } else {
        None
    }
}

/// Parses the content from the `fiat_code` value on; `i4` stands on the
/// `,"fiat_code":"` key, which the caller has already seen.
fn decode_tail(s: &Vec<u8>, id: u64, kind: OrderKind, status: Status, amount: u64, i4: usize, p5:
    usize) -> (r: Result<Order, CodecError>)
    requires
        p5 as int == i4 + lit_fiat_code().len(),
        p5 <= s@.len(),
        lit_at(s@, i4 as int, lit_fiat_code()),
    ensures
        match r {
            Ok(o) => decode_spec_tail(s@, id, kind, status, amount, i4 as int) == Some(o@),
            Err(e) => decode_spec_tail(s@, id, kind, status, amount, i4 as int) is None && e
                == CodecError::Malformed,
        },
{
    let (fiat_code, i5) = match parse_text(s, p5) {
        Some(q) => q,
        None => { return Err(CodecError::Malformed) },
    };
    let i5b = match expect_lit(s, i5, &lit_fiat_amount_vec()) {
        Some(j) => j,
        None => { return Err(CodecError::Malformed) },
    };
    let (fiat_amount, i6) = match parse_u64(s, i5b) {
        Some(q) => q,
        None => { return Err(CodecError::Malformed) },
    };
    let i6b = match expect_lit(s, i6, &lit_payment_vec()) {
        Some(j) => j,
        None => { return Err(CodecError::Malformed) },
    };
    let (payment_method, i7) = match parse_text(s, i6b) {
        Some(q) => q,
        None => { return Err(CodecError::Malformed) },
    };
    let i7b = match expect_lit(s, i7, &lit_premium_vec()) {
        Some(j) => j,
        None => { return Err(CodecError::Malformed) },
    };
    let (premium, i8) = match parse_i64(s, i7b) {
        Some(q) => q,
        None => { return Err(CodecError::Malformed) },
    };
    let i8b = match expect_lit(s, i8, &lit_created_vec()) {
        Some(j) => j,
        None => { return Err(CodecError::Malformed) },
    };
    let (created_at, i9) = match parse_u64(s, i8b) {
        Some(q) => q,
        None => { return Err(CodecError::Malformed) },
    };
    let i10 = match expect_lit(s, i9, &lit_close_vec()) {
        Some(j) => j,
        None => { return Err(CodecError::Malformed) },
    };
    if i10 != s.len() {
        return Err(CodecError::Malformed);
    }
    let o = Order { id, kind, status, amount, fiat_code, fiat_amount, payment_method, premium,
        created_at };
    proof {
        let sv = decode_spec_tail(s@, id, kind, status, amount, i4 as int);
        assert(sv matches Some(ov) && ov =~= o@);
    }
    Ok(o)
}

/// Parses canonical JSON content bytes back into the order snapshot they
/// encode; fails on anything that is not the canonical form of a snapshot.
pub fn decode(s: &Vec<u8>) -> (r: Result<Order, CodecError>)
    ensures
        match r {
            Ok(o) => decode_spec(s@) == Some(o@),
            Err(e) => decode_spec(s@) is None && e == CodecError::Malformed,
        },
{
    let p1 = match expect_lit(s, 0, &lit_obj_id_vec()) {
        Some(j) => j,
        None => { return Err(CodecError::Malformed) },
    };
    let (id, i1) = match parse_u64(s, p1) {
        Some(q) => q,
        None => { return Err(CodecError::Malformed) },
    };
    let i1b = match expect_lit(s, i1, &lit_kind_vec()) {
        Some(j) => j,
        None => { return Err(CodecError::Malformed) },
    };
    let (kind, i2) = match parse_kind(s, i1b) {
        Some(q) => q,
        None => { return Err(CodecError::Malformed) },
    };
    let i2b = match expect_lit(s, i2, &lit_status_vec()) {
        Some(j) => j,
        None => { return Err(CodecError::Malformed) },
    };
    let (status, i3) = match parse_status(s, i2b) {
        Some(q) => q,
        None => { return Err(CodecError::Malformed) },
    };
    let i3b = match expect_lit(s, i3, &lit_amount_vec()) {
        Some(j) => j,
        None => { return Err(CodecError::Malformed) },
    };
    let (amount, i4) = match parse_u64(s, i3b) {
        Some(q) => q,
        None => { return Err(CodecError::Malformed) },
    };
    match expect_lit(s, i4, &lit_fiat_code_vec()) {
        Some(j) => decode_tail(s, id, kind, status, amount, i4, j),
        None => Err(CodecError::Malformed),
    }
}

// ---------------------------------------------------------------------------
// The round trip: decoding undoes encoding.
// ---------------------------------------------------------------------------

/// Concatenation is associative.
proof fn lemma_assoc(a: Seq<u8>, b: Seq<u8>, c: Seq<u8>)
    ensures
        (a + b) + c == a + (b + c),
{
    assert((a + b) + c =~= a + (b + c));
}

/// Splits a known suffix of `s` into its first piece and the rest.
proof fn lemma_split(s: Seq<u8>, i: int, a: Seq<u8>, b: Seq<u8>)
    requires
        0 <= i <= s.len(),
        s.subrange(i, s.len() as int) == a + b,
    ensures
        i + a.len() + b.len() == s.len(),
        s.subrange(i, i + a.len()) == a,
        s.subrange(i + a.len(), s.len() as int) == b,
{
    assert(s.subrange(i, s.len() as int).len() == a.len() + b.len());
    assert forall|k: int| 0 <= k < a.len() implies s.subrange(i, i + a.len())[k] == a[k] by {
        assert(s.subrange(i, i + a.len())[k] == s[i + k]);
        assert(s.subrange(i, s.len() as int)[k] == s[i + k]);
        assert((a + b)[k] == a[k]);
    };
    assert(s.subrange(i, i + a.len()) =~= a);
    assert forall|k: int| 0 <= k < b.len() implies s.subrange(i + a.len(), s.len() as int)[k]
        == b[k] by {
        assert(s.subrange(i + a.len(), s.len() as int)[k] == s[i + a.len() + k]);
        assert(s.subrange(i, s.len() as int)[a.len() + k] == s[i + a.len() + k]);
        assert((a + b)[a.len() + k] == b[k]);
    };
    assert(s.subrange(i + a.len(), s.len() as int) =~= b);
}

/// A word with a different first byte does not stand at `i`.
proof fn lemma_not_lit(s: Seq<u8>, i: int, w: Seq<u8>, b: u8)
    requires
        0 <= i < s.len(),
        w.len() > 0,
        s[i] == b,
        w[0] != b,
    ensures
        !lit_at(s, i, w),
{
    if lit_at(s, i, w) {
        assert(s.subrange(i, i + w.len())[0] == w[0]);
    }
}

/// The canonical numeral of `v` standing at `i`, followed by a non-digit,
/// parses back to `v`.
proof fn lemma_parse_u64_digits(s: Seq<u8>, i: int, v: u64)
    requires
        0 <= i,
        i + u64_digits(v as nat).len() < s.len(),
        s.subrange(i, i + u64_digits(v as nat).len()) == u64_digits(v as nat),
        !is_digit_byte(s[i + u64_digits(v as nat).len()]),
    ensures
        parse_u64_at(s, i) == Some((v, i + u64_digits(v as nat).len())),
{
    let d = u64_digits(v as nat);
    lemma_u64_digits(v as nat);
    let e = i + d.len();
    assert(forall|k: int| i <= k < e ==> is_digit_byte(s[k])) by {
        assert(forall|k: int| i <= k < e ==> s.subrange(i, e)[k - i] == s[k]);
    };
    lemma_run_end_is(s, i, e);
    assert(fold_digits(s.subrange(i, e)) == v);
}

/// The canonical signed numeral of `v` standing at `i`, followed by a
/// non-digit, parses back to `v`.
proof fn lemma_parse_i64_digits(s: Seq<u8>, i: int, v: i64)
    requires
        0 <= i,
        i + i64_digits(v as int).len() < s.len(),
        s.subrange(i, i + i64_digits(v as int).len()) == i64_digits(v as int),
        !is_digit_byte(s[i + i64_digits(v as int).len()]),
    ensures
        parse_i64_at(s, i) == Some((v, i + i64_digits(v as int).len())),
{
    let d = i64_digits(v as int);
    if v < 0 {
        let m = (-(v as int)) as nat;
        let md = u64_digits(m);
        assert(d == seq![45u8] + md);
        assert(s[i] == d[0]) by {
            assert(s.subrange(i, i + d.len())[0] == d[0]);
        };
        assert(s[i] == 45);
        assert forall|k: int| 0 <= k < md.len() implies s.subrange(i + 1, i + 1 + md.len())[k]
            == md[k] by {
            assert(s.subrange(i + 1, i + 1 + md.len())[k] == s[i + 1 + k]);
            assert(s.subrange(i, i + d.len())[k + 1] == s[i + 1 + k]);
            assert(d[k + 1] == md[k]);
        };
        assert(s.subrange(i + 1, i + 1 + md.len()) =~= md);
        let mu = m as u64;
        assert(u64_digits(mu as nat) == md);
        lemma_parse_u64_digits(s, i + 1, mu);
        assert(1 <= mu <= 9223372036854775808u64);
        assert((-(mu as int)) as i64 == v);
    } else {
        assert(d == u64_digits(v as nat));
        lemma_parse_u64_digits(s, i, v as u64);
        assert(s[i] == d[0]) by {
            assert(s.subrange(i, i + d.len())[0] == d[0]);
        };
        lemma_u64_digits(v as nat);
        assert(is_digit_byte(s[i]));
        assert(s[i] != 45);
        assert(v as u64 <= i64::MAX as u64);
    }
}

/// Plain text standing at `i`, followed by a quote, parses back unchanged.
proof fn lemma_parse_text_plain(s: Seq<u8>, i: int, t: Seq<u8>)
    requires
        0 <= i,
        i + t.len() < s.len(),
        s.subrange(i, i + t.len()) == t,
        crate::order::plain_text(t),
        s[i + t.len()] == 34,
    ensures
        parse_text_at(s, i) == Some((t, i + t.len())),
{
    let e = i + t.len();
    assert(forall|k: int| i <= k < e ==> s[k] != 34) by {
        assert(forall|k: int| i <= k < e ==> s.subrange(i, e)[k - i] == s[k]);
    };
    lemma_text_end_is(s, i, e);
    assert(s.subrange(i, e) == t);
}

/// A trade-direction word standing at `i` parses back to its direction.
proof fn lemma_parse_kind_word(s: Seq<u8>, i: int, k: OrderKind)
    requires
        0 <= i,
        i + kind_word(k).len() <= s.len(),
        s.subrange(i, i + kind_word(k).len()) == kind_word(k),
    ensures
        parse_kind_at(s, i) == Some((k, i + kind_word(k).len())),
{
    assert(s[i] == kind_word(k)[0]) by {
        assert(s.subrange(i, i + kind_word(k).len())[0] == kind_word(k)[0]);
    };
    match k {
        OrderKind::Buy => {
        },
        OrderKind::Sell => {
            lemma_not_lit(s, i, kind_word(OrderKind::Buy), 83);
        },
    }
}

/// A lifecycle-state word standing at `i` parses back to its state.
proof fn lemma_parse_status_word(s: Seq<u8>, i: int, st: Status)
    requires
        0 <= i,
        i + status_word(st).len() <= s.len(),
        s.subrange(i, i + status_word(st).len()) == status_word(st),
    ensures
        parse_status_at(s, i) == Some((st, i + status_word(st).len())),
{
    let b = status_word(st)[0];
    assert(s[i] == b) by {
        assert(s.subrange(i, i + status_word(st).len())[0] == status_word(st)[0]);
    };
    match st {
        Status::Pending => {
        },
        Status::Active => {
            lemma_not_lit(s, i, status_word(Status::Pending), 65);
        },
        Status::Success => {
            lemma_not_lit(s, i, status_word(Status::Pending), 83);
            lemma_not_lit(s, i, status_word(Status::Active), 83);
        },
        Status::Canceled => {
            lemma_not_lit(s, i, status_word(Status::Pending), 67);
            lemma_not_lit(s, i, status_word(Status::Active), 67);
            lemma_not_lit(s, i, status_word(Status::Success), 67);
        },
        Status::Disputed => {
            lemma_not_lit(s, i, status_word(Status::Pending), 68);
            lemma_not_lit(s, i, status_word(Status::Active), 68);
            lemma_not_lit(s, i, status_word(Status::Success), 68);
            lemma_not_lit(s, i, status_word(Status::Canceled), 68);
        },
    }
}

/// Decoding the tail of a canonical encoding, from the `fiat_code` key on,
/// recovers the snapshot's remaining fields.
#[verifier::rlimit(100)]
proof fn lemma_round_trip_tail(s: Seq<u8>, i4: int, o: OrderV)
    requires
        o.valid(),
        0 <= i4 <= s.len(),
        s.subrange(i4, s.len() as int) == enc_from_fiat_code(o),
    ensures
        decode_spec_tail(s, o.id, o.kind, o.status, o.amount, i4) == Some(o),
{
    let d_fa = u64_digits(o.fiat_amount as nat);
    let d_pr = i64_digits(o.premium as int);
    let d_ca = u64_digits(o.created_at as nat);
    lemma_u64_digits(o.fiat_amount as nat);
    lemma_u64_digits(o.created_at as nat);

    lemma_assoc(lit_fiat_code(), o.fiat_code, enc_from_fiat_amount(o));
    lemma_split(s, i4, lit_fiat_code(), o.fiat_code + enc_from_fiat_amount(o));
    let p5 = i4 + lit_fiat_code().len();
    lemma_split(s, p5, o.fiat_code, enc_from_fiat_amount(o));
    let i5 = p5 + o.fiat_code.len();
    assert(s[i5] == 34) by {
        assert(s.subrange(i5, s.len() as int)[0] == enc_from_fiat_amount(o)[0]);
    };
    lemma_parse_text_plain(s, p5, o.fiat_code);

    lemma_assoc(lit_fiat_amount(), d_fa, enc_from_payment(o));
    lemma_split(s, i5, lit_fiat_amount(), d_fa + enc_from_payment(o));
    let p6 = i5 + lit_fiat_amount().len();
    lemma_split(s, p6, d_fa, enc_from_payment(o));
    let i6 = p6 + d_fa.len();
    assert(s[i6] == 44) by {
        assert(s.subrange(i6, s.len() as int)[0] == enc_from_payment(o)[0]);
    };
    lemma_parse_u64_digits(s, p6, o.fiat_amount);

    lemma_assoc(lit_payment(), o.payment_method, enc_from_premium(o));
    lemma_split(s, i6, lit_payment(), o.payment_method + enc_from_premium(o));
    let p7 = i6 + lit_payment().len();
    lemma_split(s, p7, o.payment_method, enc_from_premium(o));
    let i7 = p7 + o.payment_method.len();
    assert(s[i7] == 34) by {
        assert(s.subrange(i7, s.len() as int)[0] == enc_from_premium(o)[0]);
    };
    lemma_parse_text_plain(s, p7, o.payment_method);

    lemma_assoc(lit_created(), d_ca, lit_close());
    lemma_assoc(lit_premium(), d_pr, lit_created() + (d_ca + lit_close()));
    lemma_split(s, i7, lit_premium(), d_pr + (lit_created() + (d_ca + lit_close())));
    let p8 = i7 + lit_premium().len();
    lemma_split(s, p8, d_pr, lit_created() + (d_ca + lit_close()));
    let i8 = p8 + d_pr.len();
    assert(s[i8] == 44) by {
        assert(s.subrange(i8, s.len() as int)[0] == (lit_created() + (d_ca + lit_close()))[0]);
    };
    lemma_parse_i64_digits(s, p8, o.premium);

    lemma_split(s, i8, lit_created(), d_ca + lit_close());
    let p9 = i8 + lit_created().len();
    lemma_split(s, p9, d_ca, lit_close());
    let i9 = p9 + d_ca.len();
    assert(s[i9] == 125) by {
        assert(s.subrange(i9, s.len() as int)[0] == lit_close()[0]);
    };
    lemma_parse_u64_digits(s, p9, o.created_at);

    assert(lit_at(s, i9, lit_close()));
    assert(i9 + lit_close().len() == s.len());
    assert(decode_spec_tail(s, o.id, o.kind, o.status, o.amount, i4) matches Some(ov) && ov =~= o);
}

/// Assembles the decoding of a content string from the parse facts of its
/// successive fields.
proof fn lemma_decode_assemble(s: Seq<u8>, o: OrderV, i1: int, i2: int, i3: int, i4: int)
    requires
        lit_at(s, 0, lit_obj_id()),
        parse_u64_at(s, lit_obj_id().len() as int) == Some((o.id, i1)),
        lit_at(s, i1, lit_kind()),
        parse_kind_at(s, i1 + lit_kind().len()) == Some((o.kind, i2)),
        lit_at(s, i2, lit_status()),
        parse_status_at(s, i2 + lit_status().len()) == Some((o.status, i3)),
        lit_at(s, i3, lit_amount()),
        parse_u64_at(s, i3 + lit_amount().len()) == Some((o.amount, i4)),
        lit_at(s, i4, lit_fiat_code()),
        decode_spec_tail(s, o.id, o.kind, o.status, o.amount, i4) == Some(o),
    ensures
        decode_spec(s) == Some(o),
{
}

/// Peels the object head and the `id` numeral off a canonical encoding.
#[verifier::rlimit(100)]
proof fn lemma_peel_id(s: Seq<u8>, o: OrderV)
    requires
        s == encode_spec(o),
    ensures
        lit_at(s, 0, lit_obj_id()),
        parse_u64_at(s, lit_obj_id().len() as int) == Some(
            (o.id, (lit_obj_id().len() + u64_digits(o.id as nat).len()) as int),
        ),
        s.subrange(
            lit_obj_id().len() + u64_digits(o.id as nat).len() as int,
            s.len() as int,
        ) == enc_from_kind(o),
{
    let d_id = u64_digits(o.id as nat);
    let p1 = lit_obj_id().len() as int;
    let i1 = p1 + d_id.len();
    lemma_u64_digits(o.id as nat);
    assert(s.subrange(0, s.len() as int) =~= s);
    lemma_assoc(lit_obj_id(), d_id, enc_from_kind(o));
    lemma_split(s, 0, lit_obj_id(), d_id + enc_from_kind(o));
    lemma_split(s, p1, d_id, enc_from_kind(o));
    assert(s[i1] == 44) by {
        assert(s.subrange(i1, s.len() as int)[0] == enc_from_kind(o)[0]);
    };
    lemma_parse_u64_digits(s, p1, o.id);
}

/// Peels the `kind` key and word off the remainder of a canonical encoding.
#[verifier::rlimit(100)]
proof fn lemma_peel_kind(s: Seq<u8>, o: OrderV, i1: int)
    requires
        0 <= i1 <= s.len(),
        s.subrange(i1, s.len() as int) == enc_from_kind(o),
    ensures
        lit_at(s, i1, lit_kind()),
        parse_kind_at(s, i1 + lit_kind().len()) == Some(
            (o.kind, (i1 + lit_kind().len() + kind_word(o.kind).len()) as int),
        ),
        s.subrange(
            i1 + lit_kind().len() + kind_word(o.kind).len(),
            s.len() as int,
        ) == enc_from_status(o),
{
    let p2 = i1 + lit_kind().len();
    lemma_assoc(lit_kind(), kind_word(o.kind), enc_from_status(o));
    lemma_split(s, i1, lit_kind(), kind_word(o.kind) + enc_from_status(o));
    lemma_split(s, p2, kind_word(o.kind), enc_from_status(o));
    lemma_parse_kind_word(s, p2, o.kind);
}

/// Peels the `status` key and word off the remainder of a canonical encoding.
#[verifier::rlimit(100)]
proof fn lemma_peel_status(s: Seq<u8>, o: OrderV, i2: int)
    requires
        0 <= i2 <= s.len(),
        s.subrange(i2, s.len() as int) == enc_from_status(o),
    ensures
        lit_at(s, i2, lit_status()),
        parse_status_at(s, i2 + lit_status().len()) == Some(
            (o.status, (i2 + lit_status().len() + status_word(o.status).len()) as int),
        ),
        s.subrange(
            i2 + lit_status().len() + status_word(o.status).len(),
            s.len() as int,
        ) == enc_from_amount(o),
{
    let p3 = i2 + lit_status().len();
    lemma_assoc(lit_status(), status_word(o.status), enc_from_amount(o));
    lemma_split(s, i2, lit_status(), status_word(o.status) + enc_from_amount(o));
    lemma_split(s, p3, status_word(o.status), enc_from_amount(o));
    lemma_parse_status_word(s, p3, o.status);
}

/// Peels the `amount` key and numeral off the remainder of a canonical
/// encoding.
#[verifier::rlimit(100)]
proof fn lemma_peel_amount(s: Seq<u8>, o: OrderV, i3: int)
    requires
        0 <= i3 <= s.len(),
        s.subrange(i3, s.len() as int) == enc_from_amount(o),
    ensures
        lit_at(s, i3, lit_amount()),
        parse_u64_at(s, i3 + lit_amount().len()) == Some(
            (o.amount, (i3 + lit_amount().len() + u64_digits(o.amount as nat).len()) as int),
        ),
        s.subrange(
            i3 + lit_amount().len() + u64_digits(o.amount as nat).len(),
            s.len() as int,
        ) == enc_from_fiat_code(o),
        lit_at(s, i3 + lit_amount().len() + u64_digits(o.amount as nat).len(), lit_fiat_code()),
{
    let d_am = u64_digits(o.amount as nat);
    let p4 = i3 + lit_amount().len();
    let i4 = p4 + d_am.len();
    lemma_u64_digits(o.amount as nat);
    lemma_assoc(lit_amount(), d_am, enc_from_fiat_code(o));
    lemma_split(s, i3, lit_amount(), d_am + enc_from_fiat_code(o));
    lemma_split(s, p4, d_am, enc_from_fiat_code(o));
    assert(s[i4] == 44) by {
        assert(s.subrange(i4, s.len() as int)[0] == enc_from_fiat_code(o)[0]);
    };
    lemma_parse_u64_digits(s, p4, o.amount);
    lemma_assoc(lit_fiat_code(), o.fiat_code, enc_from_fiat_amount(o));
    lemma_split(s, i4, lit_fiat_code(), o.fiat_code + enc_from_fiat_amount(o));
}

/// The round trip: decoding the canonical encoding of any valid snapshot
/// yields that snapshot again.
pub proof fn lemma_round_trip(o: OrderV)
    requires
        o.valid(),
    ensures
        decode_spec(encode_spec(o)) == Some(o),
{
    let s = encode_spec(o);
    let i1 = lit_obj_id().len() + u64_digits(o.id as nat).len() as int;
    let i2 = i1 + lit_kind().len() + kind_word(o.kind).len();
    let i3 = i2 + lit_status().len() + status_word(o.status).len();
    let i4 = i3 + lit_amount().len() + u64_digits(o.amount as nat).len();
    lemma_peel_id(s, o);
    lemma_peel_kind(s, o, i1);
    lemma_peel_status(s, o, i2);
    lemma_peel_amount(s, o, i3);
    lemma_round_trip_tail(s, i4, o);
    lemma_decode_assemble(s, o, i1, i2, i3, i4);
}

} // verus!
