use order_events::codec::{decode, encode, CodecError};
use order_events::order::{Order, OrderKind, Status};

fn sample_order() -> Order {
    Order {
        id: 7,
        kind: OrderKind::Buy,
        status: Status::Pending,
        amount: 100000,
        fiat_code: b"USD".to_vec(),
        fiat_amount: 50,
        payment_method: b"wire".to_vec(),
        premium: 0,
        created_at: 1712345678,
    }
}

#[test]
fn encode_produces_canonical_json() {
    let bytes = encode(&sample_order());
    let expected = "{\"id\":7,\"kind\":\"Buy\",\"status\":\"Pending\",\"amount\":100000,\"fiat_code\":\"USD\",\"fiat_amount\":50,\"payment_method\":\"wire\",\"premium\":0,\"created_at\":1712345678}";
    assert_eq!(bytes, expected.as_bytes().to_vec());
}

#[test]
fn round_trip_recovers_snapshot() {
    let o = sample_order();
    let bytes = encode(&o);
    let back = decode(&bytes).expect("canonical content must decode");
    assert_eq!(back, sample_order());
}

#[test]
fn round_trip_negative_premium_and_sell() {
    let o = Order {
        id: 18446744073709551615,
        kind: OrderKind::Sell,
        status: Status::Disputed,
        amount: 1,
        fiat_code: b"EUR".to_vec(),
        fiat_amount: 18446744073709551615,
        payment_method: b"cash in person".to_vec(),
        premium: -9223372036854775808,
        created_at: 0,
    };
    let bytes = encode(&o);
    let back = decode(&bytes).expect("canonical content must decode");
    assert_eq!(back.id, 18446744073709551615);
    assert_eq!(back.kind, OrderKind::Sell);
    assert_eq!(back.status, Status::Disputed);
    assert_eq!(back.premium, -9223372036854775808);
    assert_eq!(back.payment_method, b"cash in person".to_vec());
    assert_eq!(back.fiat_amount, 18446744073709551615);
}

#[test]
fn round_trip_every_status() {
    for status in [
        Status::Pending,
        Status::Active,
        Status::Success,
        Status::Canceled,
        Status::Disputed,
    ] {
        let mut o = sample_order();
        o.status = status;
        let back = decode(&encode(&o)).expect("canonical content must decode");
        assert_eq!(back.status, status);
    }
}

#[test]
fn decode_rejects_truncated_content() {
    let mut bytes = encode(&sample_order());
    bytes.pop();
    assert_eq!(decode(&bytes), Err(CodecError::Malformed));
}

#[test]
fn decode_rejects_trailing_bytes() {
    let mut bytes = encode(&sample_order());
    bytes.push(b' ');
    assert_eq!(decode(&bytes), Err(CodecError::Malformed));
}

#[test]
fn decode_rejects_unknown_status_word() {
    let text = "{\"id\":7,\"kind\":\"Buy\",\"status\":\"Paused\",\"amount\":100000,\"fiat_code\":\"USD\",\"fiat_amount\":50,\"payment_method\":\"wire\",\"premium\":0,\"created_at\":1712345678}";
    assert_eq!(decode(&text.as_bytes().to_vec()), Err(CodecError::Malformed));
}

#[test]
fn decode_rejects_amount_overflow() {
    let text = "{\"id\":7,\"kind\":\"Buy\",\"status\":\"Pending\",\"amount\":18446744073709551616,\"fiat_code\":\"USD\",\"fiat_amount\":50,\"payment_method\":\"wire\",\"premium\":0,\"created_at\":1712345678}";
    assert_eq!(decode(&text.as_bytes().to_vec()), Err(CodecError::Malformed));
}

#[test]
fn decode_rejects_empty_content() {
    assert_eq!(decode(&Vec::new()), Err(CodecError::Malformed));
}

#[test]
fn round_trip_empty_text_fields() {
    let o = Order {
        id: 0,
        kind: OrderKind::Buy,
        status: Status::Active,
        amount: 0,
        fiat_code: Vec::new(),
        fiat_amount: 0,
        payment_method: Vec::new(),
        premium: -1,
        created_at: 0,
    };
    let back = decode(&encode(&o)).expect("canonical content must decode");
    assert_eq!(back, o);
}
