use matching_engine::config::Config;
use matching_engine::decimal::{parse_u128, parse_u64};
use matching_engine::encoding::{hex_of_bytes, to_decimal};
use matching_engine::error::AppError;
use matching_engine::models::{OrderStatus, SignedOrder};
use matching_engine::orders::{cancel_decision, check_admission};
use matching_engine::signature::{
    build_typed_data, build_u256_value, call_failure, compute_order_hash, signature_accepted,
    signature_call, U256Parts,
};
use matching_engine::store::OrderBook;
use matching_engine::webhooks::{constant_time_eq, fill_completes, is_authorized};
use matching_engine::wide::{nonce_less, parse_hex_wide, Wide};

fn s(v: &str) -> String {
    v.to_string()
}

fn order(nonce: &str) -> SignedOrder {
    SignedOrder {
        maker: s("0x0123abc"),
        allowed_taker: s("0x0"),
        inscription_id: s("42"),
        bps: s("5000"),
        deadline: 1_900_000_000,
        nonce: s(nonce),
        min_fill_bps: s("100"),
    }
}

fn felt(v: u8) -> [u8; 32] {
    let mut b = [0u8; 32];
    b[31] = v;
    b
}

#[test]
fn order_hash_is_deterministic_and_distinguishes_terms() {
    let a = compute_order_hash("SN_SEPOLIA", &order("0x1")).unwrap();
    let b = compute_order_hash("SN_SEPOLIA", &order("0x1")).unwrap();
    let c = compute_order_hash("SN_SEPOLIA", &order("0x2")).unwrap();
    let d = compute_order_hash("SN_MAIN", &order("0x1")).unwrap();
    assert_eq!(a, b);
    assert_ne!(a, c);
    assert_ne!(a, d);
    assert_eq!(a.len(), 66);
    assert!(a.starts_with("0x"));
    assert!(a[2..].chars().all(|ch| ch.is_ascii_hexdigit() && !ch.is_ascii_uppercase()));
}

#[test]
fn resubmission_is_a_conflict() {
    let mut book = OrderBook::new();
    let sig = [s("0x1"), s("0x2")];
    let first = book.submit_order("SN_SEPOLIA", &order("0x1"), &sig, true, 1_000).unwrap();
    assert_eq!(first.order_hash, compute_order_hash("SN_SEPOLIA", &order("0x1")).unwrap());
    assert_eq!(first.deadline, 1_900_000_000);
    let again = book.submit_order("SN_SEPOLIA", &order("0x1"), &sig, true, 1_001);
    assert!(matches!(again, Err(AppError::Conflict(_))));
    assert_eq!(book.len(), 1);
}

#[test]
fn submission_checks_signature_then_expiry() {
    let mut book = OrderBook::new();
    let sig = [s("0x1"), s("0x2")];
    assert!(matches!(
        book.submit_order("SN_SEPOLIA", &order("0x1"), &sig, false, 1_000),
        Err(AppError::InvalidSignature)
    ));
    assert!(matches!(
        book.submit_order("SN_SEPOLIA", &order("0x1"), &sig, true, 1_900_000_000),
        Err(AppError::OrderExpired)
    ));
    assert_eq!(book.len(), 0);
}

#[test]
fn invalid_maker_is_bad_request() {
    let mut o = order("0x1");
    o.maker = s("not hex");
    match compute_order_hash("SN_SEPOLIA", &o) {
        Err(AppError::BadRequest(m)) => assert!(m.starts_with("Invalid maker address: ")),
        other => panic!("unexpected {other:?}"),
    }
}

#[test]
fn u256_values_split_into_halves() {
    assert_eq!(build_u256_value("340282366920938463463374607431768211455").unwrap(), U256Parts { low: u128::MAX, high: 0 });
    assert_eq!(build_u256_value("+7").unwrap(), U256Parts { low: 7, high: 0 });
    assert_eq!(build_u256_value("340282366920938463463374607431768211456").unwrap(), U256Parts { low: 0, high: 1 });
    assert_eq!(build_u256_value("340282366920938463463374607431768211459").unwrap(), U256Parts { low: 3, high: 1 });
    assert_eq!(
        build_u256_value("115792089237316195423570985008687907853269984665640564039457584007913129639935").unwrap(),
        U256Parts { low: u128::MAX, high: u128::MAX }
    );
    match build_u256_value("115792089237316195423570985008687907853269984665640564039457584007913129639936") {
        Err(AppError::BadRequest(m)) => assert_eq!(m, "Invalid u256 value '115792089237316195423570985008687907853269984665640564039457584007913129639936': number too large to fit in target type"),
        other => panic!("unexpected {other:?}"),
    }
    match build_u256_value("12a") {
        Err(AppError::BadRequest(m)) => assert_eq!(m, "Invalid u256 value '12a': invalid digit found in string"),
        other => panic!("unexpected {other:?}"),
    }
    match build_u256_value("") {
        Err(AppError::BadRequest(m)) => assert_eq!(m, "Invalid u256 value '': cannot parse integer from empty string"),
        other => panic!("unexpected {other:?}"),
    }
}

#[test]
fn typed_data_document_has_fixed_layout() {
    let mut o = order("0x1");
    o.maker = s("a\"b");
    let t = build_typed_data("SN_SEPOLIA", &o).unwrap();
    assert!(t.contains(r#""domain":{"name":"Stela","version":"1","chainId":"SN_SEPOLIA","revision":"1"}"#));
    assert!(t.contains(r#""maker":"a\"b""#));
    assert!(t.contains(r#""inscription_id":{"low":"42","high":"0"}"#));
    assert!(t.contains(r#""deadline":"1900000000""#));
    let v: serde_json::Value = serde_json::from_str(&t).unwrap();
    assert_eq!(v["message"]["maker"], serde_json::Value::String(s("a\"b")));
    assert!(matches!(build_typed_data("SN_SEPOLIA", &{ let mut x = order("0x1"); x.bps = s("-1"); x }), Err(AppError::BadRequest(_))));
    let mut big = order("0x1");
    big.inscription_id = s("340282366920938463463374607431768211458");
    let t = build_typed_data("SN_SEPOLIA", &big).unwrap();
    assert!(t.contains(r#""inscription_id":{"low":"2","high":"1"}"#));
    assert!(compute_order_hash("SN_SEPOLIA", &big).is_ok());
}

#[test]
fn signature_call_layout() {
    let call = signature_call("SN_SEPOLIA", &order("0x1"), &[s("0x5"), s("0x06")]).unwrap();
    assert_eq!(call.calldata.len(), 4);
    assert_eq!(call.calldata[1], felt(2));
    assert_eq!(call.calldata[2], felt(5));
    assert_eq!(call.calldata[3], felt(6));
    let mut expected = [0u8; 32];
    expected[29] = 0x12;
    expected[30] = 0x3a;
    expected[31] = 0xbc;
    assert_eq!(call.contract_address, expected);
    let hash = compute_order_hash("SN_SEPOLIA", &order("0x1")).unwrap();
    assert_eq!(hex_of_bytes(&call.calldata[0]), hash);
    assert!(matches!(
        signature_call("SN_SEPOLIA", &order("0x1"), &[s("zz"), s("0x06")]),
        Err(AppError::InvalidSignature)
    ));
    let mut bad_maker = order("0x1");
    bad_maker.maker = s("maker");
    assert!(matches!(
        signature_call("SN_SEPOLIA", &bad_maker, &[s("0x5"), s("0x06")]),
        Err(AppError::BadRequest(_))
    ));
}

#[test]
fn validation_answers() {
    let mut valid = [0u8; 32];
    valid[27..].copy_from_slice(b"VALID");
    assert!(signature_accepted(&vec![valid]));
    assert!(signature_accepted(&vec![felt(1), felt(0)]));
    assert!(!signature_accepted(&vec![felt(0)]));
    assert!(!signature_accepted(&vec![]));
}

#[test]
fn call_failures_are_classified() {
    match call_failure("JSON-RPC error: ContractNotFound", "0xabc") {
        AppError::UndeployedAccount(a) => assert_eq!(a, "0xabc"),
        other => panic!("unexpected {other:?}"),
    }
    assert!(matches!(call_failure("the contract not found here", "0xabc"), AppError::UndeployedAccount(_)));
    match call_failure("timeout", "0xabc") {
        AppError::StarknetRpc(m) => assert_eq!(m, "timeout"),
        other => panic!("unexpected {other:?}"),
    }
}

#[test]
fn error_statuses_and_messages() {
    let cases: Vec<(AppError, u16, &str)> = vec![
        (AppError::InvalidSignature, 422, "Invalid signature"),
        (AppError::NotFound, 404, "Resource not found"),
        (AppError::Conflict(s("dup")), 409, "dup"),
        (AppError::OrderExpired, 422, "Order expired"),
        (AppError::UndeployedAccount(s("0x1")), 422, "Account not deployed: 0x1"),
        (AppError::Unauthorized, 401, "Unauthorized"),
        (AppError::Database(s("boom")), 500, "Internal server error"),
        (AppError::StarknetRpc(s("down")), 502, "StarkNet RPC error"),
        (AppError::Internal(s("bug")), 500, "Internal server error"),
        (AppError::BadRequest(s("bad")), 400, "bad"),
    ];
    for (e, code, msg) in cases {
        assert_eq!(e.status_code(), code);
        assert_eq!(e.public_message(), msg);
    }
    assert_eq!(AppError::Database(s("boom")).to_string(), "Database error: boom");
    assert!(AppError::Internal(s("x")).is_internal());
    assert!(!AppError::NotFound.is_internal());
}

#[test]
fn status_text_round_trip() {
    for st in [OrderStatus::Open, OrderStatus::Reserved, OrderStatus::SoftCancelled, OrderStatus::Cancelled, OrderStatus::Filled, OrderStatus::Expired] {
        assert_eq!(OrderStatus::from_str(&st.to_string()), Ok(st));
    }
    assert_eq!(OrderStatus::SoftCancelled.to_string(), "soft_cancelled");
    assert_eq!(OrderStatus::from_str("closed"), Err(s("Unknown order status: closed")));
}

#[test]
fn webhook_secret_comparison() {
    assert!(constant_time_eq(b"abc", b"abc"));
    assert!(!constant_time_eq(b"abc", b"abd"));
    assert!(!constant_time_eq(b"abc", b"abcd"));
    assert!(is_authorized("Bearer s3cret", "s3cret"));
    assert!(!is_authorized("Bearer s3cre", "s3cret"));
    assert!(!is_authorized("s3cret", "s3cret"));
    assert!(fill_completes("5000", "5000"));
    assert!(!fill_completes("5000", "05000"));
}

#[test]
fn admission_and_cancel_decisions() {
    assert!(matches!(check_admission(false, 10, 5), Err(AppError::InvalidSignature)));
    assert!(matches!(check_admission(true, 5, 5), Err(AppError::OrderExpired)));
    assert!(check_admission(true, 6, 5).is_ok());
    let mut book = OrderBook::new();
    let rec = book.submit_order("SN_SEPOLIA", &order("0x1"), &[s("0x1"), s("0x2")], true, 1_000).unwrap();
    assert!(matches!(cancel_decision(&rec, "0xother"), Err(AppError::Unauthorized)));
    assert!(cancel_decision(&rec, "0x0123abc").is_ok());
}

#[test]
fn decimal_reading_and_writing() {
    assert_eq!(parse_u64("18446744073709551615"), Some(u64::MAX));
    assert_eq!(parse_u64("18446744073709551616"), None);
    assert_eq!(parse_u64("+12"), Some(12));
    assert_eq!(parse_u64("-1"), None);
    assert_eq!(parse_u64("+"), None);
    assert_eq!(parse_u64(""), None);
    assert_eq!(parse_u128("007"), Some(7));
    assert_eq!(to_decimal(0), "0");
    assert_eq!(to_decimal(u128::MAX), u128::MAX.to_string());
    let mut b = [0u8; 32];
    b[0] = 0xab;
    b[31] = 0x0f;
    let h = hex_of_bytes(&b);
    assert_eq!(h, format!("0xab{}0f", "0".repeat(60)));
}

#[test]
fn config_defaults_and_errors() {
    let c = Config::from_values(Some(s("postgres://x")), Some(s("http://rpc")), None, None, Some(s("k")), None).unwrap();
    assert_eq!(c.chain_id, "SN_SEPOLIA");
    assert_eq!(c.port, 3001);
    assert_eq!(c.reservation_ttl_secs, 120);
    let c = Config::from_values(Some(s("d")), Some(s("r")), Some(s("SN_MAIN")), Some(s("8080")), Some(s("k")), Some(s("30"))).unwrap();
    assert_eq!((c.chain_id.as_str(), c.port, c.reservation_ttl_secs), ("SN_MAIN", 8080, 30));
    assert_eq!(Config::from_values(None, None, None, None, None, None).unwrap_err(), "DATABASE_URL must be set");
    assert_eq!(Config::from_values(Some(s("d")), Some(s("r")), None, Some(s("70000")), Some(s("k")), None).unwrap_err(), "PORT must be a valid u16");
    assert_eq!(Config::from_values(Some(s("d")), None, None, None, Some(s("k")), None).unwrap_err(), "RPC_URL must be set");
    assert_eq!(Config::from_values(Some(s("d")), Some(s("r")), None, None, None, None).unwrap_err(), "WEBHOOK_SECRET must be set");
    assert_eq!(Config::from_values(Some(s("d")), Some(s("r")), None, None, Some(s("k")), Some(s("x"))).unwrap_err(), "RESERVATION_TTL_SECS must be a valid u64");
}

#[test]
fn wide_numbers_read_and_compare() {
    assert_eq!(parse_hex_wide("0x10"), Some(Wide { w0: 16, w1: 0, w2: 0, w3: 0 }));
    assert_eq!(parse_hex_wide("ffffffffffffffff1"), Some(Wide { w0: 0xffff_ffff_ffff_fff1, w1: 0xf, w2: 0, w3: 0 }));
    assert_eq!(parse_hex_wide("0x"), None);
    assert_eq!(parse_hex_wide("0xg"), None);
    assert!(nonce_less("0x9", "0x10"));
    assert!(!nonce_less("0x10", "0x9"));
    assert!(!nonce_less("0x10", "0x10"));
    assert!(nonce_less("0x7fffffffffffffffffffffffffffffff", "0x100000000000000000000000000000000"));
    assert!(!nonce_less("x", "0x10"));
}
