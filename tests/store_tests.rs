use matching_engine::error::AppError;
use matching_engine::matching::{build_matches, chosen_ids, score_candidates};
use matching_engine::models::{ActionType, OrderRecord, OrderStatus, TakerIntent};
use matching_engine::scoring::aggregate_orders;
use matching_engine::store::OrderBook;
use matching_engine::webhooks::{WebhookEvent, WebhookResponse};

fn s(v: &str) -> String {
    v.to_string()
}

fn add(book: &mut OrderBook, hash: &str, maker: &str, inscription: &str, bps: &str, deadline: i64, nonce: &str, now: i64) -> OrderRecord {
    book.insert_order(
        s(hash),
        s(maker),
        s("0x0"),
        s(inscription),
        s(bps),
        deadline,
        s(nonce),
        s("0"),
        s("0x1"),
        s("0x2"),
        now,
    )
    .unwrap()
}

fn intent(action: ActionType, bps: u64, inscription: &str) -> TakerIntent {
    TakerIntent { action, bps, inscription_id: s(inscription) }
}

fn event(kind: &str, hash: Option<&str>, total: Option<&str>) -> WebhookEvent {
    WebhookEvent {
        event_type: s(kind),
        order_hash: hash.map(s),
        maker: None,
        fill_bps: None,
        total_filled: total.map(s),
        min_nonce: None,
    }
}

fn snapshot(book: &OrderBook, id: u128) -> (OrderStatus, String, Option<i64>) {
    let r = book.get_order(id).unwrap();
    (r.status, r.filled_bps.clone(), r.reserved_until)
}

#[test]
fn insert_assigns_ids_and_rejects_duplicate_hash() {
    let mut book = OrderBook::new();
    let a = add(&mut book, "0xaa", "0xm", "7", "5000", 2_000, "0x1", 100);
    assert_eq!(a.id, 1);
    assert_eq!(a.status, OrderStatus::Open);
    assert_eq!(a.filled_bps, "0");
    assert_eq!(a.created_at, 100);
    let dup = book.insert_order(s("0xaa"), s("0xm"), s("0x0"), s("7"), s("1"), 2_000, s("0x2"), s("0"), s("0x1"), s("0x2"), 101);
    assert!(matches!(dup, Err(AppError::Conflict(_))));
    assert_eq!(book.len(), 1);
    let b = add(&mut book, "0xbb", "0xm", "7", "5000", 2_000, "0x2", 102);
    assert_eq!(b.id, 2);
    assert_eq!(book.get_order_by_hash("0xbb").unwrap().id, 2);
    assert!(book.get_order_by_hash("0xcc").is_none());
    assert!(matches!(book.get_order(3), Err(AppError::NotFound)));
}

#[test]
fn match_with_no_eligible_orders_is_empty() {
    let mut book = OrderBook::new();
    add(&mut book, "0xaa", "0xm", "other", "5000", 2_000, "0x1", 100);
    let resp = book.match_intent(&intent(ActionType::Borrow, 5_000, "7"), 120, 200).unwrap();
    assert!(resp.matches.is_empty());
    assert_eq!(resp.total_available_bps, 0);
    assert!(!resp.fully_covered);
}

#[test]
fn match_rejects_bad_intents() {
    let mut book = OrderBook::new();
    match book.match_intent(&intent(ActionType::Lend, 0, "7"), 120, 200) {
        Err(AppError::BadRequest(m)) => assert_eq!(m, "bps must be > 0"),
        other => panic!("unexpected {other:?}"),
    }
    match book.match_intent(&intent(ActionType::Lend, 10, ""), 120, 200) {
        Err(AppError::BadRequest(m)) => assert_eq!(m, "inscription_id must be non-empty"),
        other => panic!("unexpected {other:?}"),
    }
}

#[test]
fn match_reserves_and_reports_fills() {
    let mut book = OrderBook::new();
    add(&mut book, "0xaa", "0xm", "7", "3000", 2_000, "0x1", 100);
    add(&mut book, "0xbb", "0xm", "7", "4000", 2_000, "0x2", 101);
    // Lend prefers the larger figure: 4000 first, then 3000.
    let resp = book.match_intent(&intent(ActionType::Lend, 5_000, "7"), 120, 200).unwrap();
    assert_eq!(resp.matches.len(), 2);
    assert_eq!(resp.matches[0].order.id, 2);
    assert_eq!(resp.matches[0].fill_bps, 4_000);
    assert_eq!(resp.matches[1].order.id, 1);
    assert_eq!(resp.matches[1].fill_bps, 1_000);
    assert_eq!(resp.total_available_bps, 7_000);
    assert!(resp.fully_covered);
    assert_eq!(snapshot(&book, 1).0, OrderStatus::Reserved);
    assert_eq!(snapshot(&book, 1).2, Some(320));
    // While reserved, a second request finds nothing.
    let again = book.match_intent(&intent(ActionType::Lend, 5_000, "7"), 120, 300).unwrap();
    assert!(again.matches.is_empty());
    assert!(!again.fully_covered);
}

#[test]
fn expired_deadline_is_not_eligible() {
    let mut book = OrderBook::new();
    add(&mut book, "0xaa", "0xm", "7", "3000", 150, "0x1", 100);
    assert!(book.query_open_orders("7", 149).len() == 1);
    assert!(book.query_open_orders("7", 150).is_empty());
}

#[test]
fn concurrent_matches_reserve_single_order_once() {
    let mut book = OrderBook::new();
    add(&mut book, "0xaa", "0xm", "7", "5000", 2_000, "0x1", 100);
    let want = intent(ActionType::Borrow, 5_000, "7");
    // Both requests read and choose before either reserves.
    let cands_a = book.query_open_orders("7", 200);
    let cands_b = book.query_open_orders("7", 200);
    let agg_a = aggregate_orders(score_candidates(&cands_a, want.action, want.bps), want.bps);
    let agg_b = aggregate_orders(score_candidates(&cands_b, want.action, want.bps), want.bps);
    let ids_a = chosen_ids(&cands_a, &agg_a);
    let ids_b = chosen_ids(&cands_b, &agg_b);
    assert_eq!(ids_a, vec![1]);
    assert_eq!(ids_b, vec![1]);
    let got_a = book.reserve_orders(&ids_a, 120, 200);
    let got_b = book.reserve_orders(&ids_b, 120, 200);
    assert_eq!(got_a, vec![1]);
    assert!(got_b.is_empty());
    let resp_a = build_matches(&cands_a, &agg_a, &got_a, want.bps);
    let resp_b = build_matches(&cands_b, &agg_b, &got_b, want.bps);
    assert_eq!(resp_a.matches.len(), 1);
    assert!(resp_a.fully_covered);
    assert!(resp_b.matches.is_empty());
    assert_eq!(resp_b.total_available_bps, 0);
    assert!(!resp_b.fully_covered);
}

#[test]
fn overlapping_reservations_are_disjoint() {
    let mut book = OrderBook::new();
    for (h, n) in [("0x1a", "0x1"), ("0x2a", "0x2"), ("0x3a", "0x3")] {
        add(&mut book, h, "0xm", "7", "100", 2_000, n, 100);
    }
    let first = book.reserve_orders(&vec![1, 2], 60, 200);
    let second = book.reserve_orders(&vec![2, 3, 9], 60, 200);
    assert_eq!(first, vec![1, 2]);
    assert_eq!(second, vec![3]);
}

#[test]
fn lapsed_reservation_is_eligible_again() {
    let mut book = OrderBook::new();
    add(&mut book, "0xaa", "0xm", "7", "100", 2_000, "0x1", 100);
    assert_eq!(book.reserve_orders(&vec![1], 60, 200), vec![1]);
    assert!(book.query_open_orders("7", 260).is_empty());
    let later = book.query_open_orders("7", 261);
    assert_eq!(later.len(), 1);
    assert_eq!(later[0].status, OrderStatus::Reserved);
    // A lapsed reservation is logically open: it can be reserved again.
    assert_eq!(book.reserve_orders(&vec![1], 60, 261), vec![1]);
    assert_eq!(snapshot(&book, 1).2, Some(321));
    // A reservation that still holds cannot be taken.
    assert!(book.reserve_orders(&vec![1], 60, 300).is_empty());
}

#[test]
fn reservation_end_saturates() {
    let mut book = OrderBook::new();
    add(&mut book, "0xaa", "0xm", "7", "100", i64::MAX, "0x1", 100);
    book.reserve_orders(&vec![1], u64::MAX, 5);
    assert_eq!(snapshot(&book, 1).2, Some(i64::MAX));
}

#[test]
fn soft_cancel_rules() {
    let mut book = OrderBook::new();
    add(&mut book, "0xaa", "0xm", "7", "100", 2_000, "0x1", 100);
    assert!(matches!(book.cancel_order(5, "0xm", 110), Err(AppError::NotFound)));
    assert!(matches!(book.cancel_order(1, "0xother", 110), Err(AppError::Unauthorized)));
    assert!(book.cancel_order(1, "0xm", 110).is_ok());
    assert_eq!(snapshot(&book, 1).0, OrderStatus::SoftCancelled);
    match book.cancel_order(1, "0xm", 111) {
        Err(AppError::Conflict(m)) => assert_eq!(m, "Order is not open (current status: soft_cancelled)"),
        other => panic!("unexpected {other:?}"),
    }
    assert!(!book.soft_cancel_order(1, "0xm", 112));
}

#[test]
fn fill_event_replay_is_idempotent() {
    let mut book = OrderBook::new();
    add(&mut book, "0xaa", "0xm", "7", "5000", 2_000, "0x1", 100);
    let events = vec![event("order_filled", Some("0xaa"), Some("2000"))];
    let r1: WebhookResponse = book.handle_events(&events, 200);
    let after_first = snapshot(&book, 1);
    let r2 = book.handle_events(&events, 200);
    assert_eq!(snapshot(&book, 1), after_first);
    assert_eq!(after_first, (OrderStatus::Open, s("2000"), None));
    assert!(r1.ok && r2.ok);
    assert_eq!((r1.processed, r2.processed), (1, 1));
}

#[test]
fn full_fill_marks_filled() {
    let mut book = OrderBook::new();
    add(&mut book, "0xaa", "0xm", "7", "5000", 2_000, "0x1", 100);
    let events = vec![event("order_filled", Some("0xaa"), Some("5000"))];
    book.handle_events(&events, 200);
    assert_eq!(snapshot(&book, 1).0, OrderStatus::Filled);
    book.handle_events(&events, 201);
    assert_eq!(snapshot(&book, 1), (OrderStatus::Filled, s("5000"), None));
}

#[test]
fn batch_skips_bad_and_unknown_events() {
    let mut book = OrderBook::new();
    add(&mut book, "0xaa", "0xm", "7", "5000", 2_000, "0x05", 100);
    add(&mut book, "0xbb", "0xm", "7", "5000", 2_000, "0x09", 100);
    add(&mut book, "0xcc", "0xn", "7", "5000", 2_000, "0x01", 100);
    let mut bulk = event("orders_bulk_cancelled", None, None);
    bulk.maker = Some(s("0xm"));
    bulk.min_nonce = Some(s("0x07"));
    let events = vec![
        event("order_filled", Some("0xaa"), None),
        event("something_else", Some("0xaa"), Some("1")),
        event("order_cancelled", None, None),
        event("order_cancelled", Some("0xcc"), None),
        event("order_filled", Some("0xmissing"), Some("1")),
        bulk,
    ];
    let resp = book.handle_events(&events, 300);
    assert!(resp.ok);
    assert_eq!(resp.processed, 3);
    assert_eq!(snapshot(&book, 1).0, OrderStatus::Cancelled);
    assert_eq!(snapshot(&book, 2).0, OrderStatus::Open);
    assert_eq!(snapshot(&book, 3).0, OrderStatus::Cancelled);
}

#[test]
fn bulk_cancel_counts_open_orders_below_nonce() {
    let mut book = OrderBook::new();
    add(&mut book, "0xaa", "0xm", "7", "5000", 2_000, "0x05", 100);
    add(&mut book, "0xbb", "0xm", "7", "5000", 2_000, "0x06", 100);
    add(&mut book, "0xcc", "0xm", "7", "5000", 2_000, "0x08", 100);
    book.update_order_status("0xbb", OrderStatus::Filled, 150);
    assert_eq!(book.bulk_cancel_by_maker_nonce("0xm", "0x07", 200), 1);
    assert_eq!(book.bulk_cancel_by_maker_nonce("0xm", "0x07", 201), 0);
    assert_eq!(snapshot(&book, 2).0, OrderStatus::Filled);
    assert_eq!(snapshot(&book, 3).0, OrderStatus::Open);
}

#[test]
fn update_filled_reports_missing_order() {
    let mut book = OrderBook::new();
    assert!(!book.update_filled_bps("0xaa", &s("1"), 5));
    assert!(!book.update_order_status("0xaa", OrderStatus::Cancelled, 5));
}

#[test]
fn lapsed_order_is_matched_again() {
    let mut book = OrderBook::new();
    add(&mut book, "0xaa", "0xm", "7", "5000", 2_000, "0x1", 100);
    let first = book.match_intent(&intent(ActionType::Borrow, 5_000, "7"), 60, 200).unwrap();
    assert_eq!(first.matches.len(), 1);
    let second = book.match_intent(&intent(ActionType::Borrow, 5_000, "7"), 60, 261).unwrap();
    assert_eq!(second.matches.len(), 1);
    assert_eq!(second.matches[0].order.id, 1);
    assert_eq!(snapshot(&book, 1).2, Some(321));
}

#[test]
fn bulk_cancel_compares_nonces_by_value() {
    let mut book = OrderBook::new();
    add(&mut book, "0xaa", "0xm", "7", "5000", 2_000, "0x9", 100);
    add(&mut book, "0xbb", "0xm", "7", "5000", 2_000, "0x10", 100);
    add(&mut book, "0xcc", "0xm", "7", "5000", 2_000, "0xA", 100);
    add(&mut book, "0xdd", "0xm", "7", "5000", 2_000, "nonce", 100);
    assert_eq!(book.bulk_cancel_by_maker_nonce("0xm", "0x10", 200), 2);
    assert_eq!(snapshot(&book, 1).0, OrderStatus::Cancelled);
    assert_eq!(snapshot(&book, 2).0, OrderStatus::Open);
    assert_eq!(snapshot(&book, 3).0, OrderStatus::Cancelled);
    assert_eq!(snapshot(&book, 4).0, OrderStatus::Open);
}

#[test]
fn creation_times_never_run_backwards() {
    let mut book = OrderBook::new();
    add(&mut book, "0xaa", "0xm", "7", "5000", 2_000, "0x1", 100);
    let b = add(&mut book, "0xbb", "0xm", "7", "5000", 2_000, "0x2", 90);
    assert_eq!(b.created_at, 100);
    let c = add(&mut book, "0xcc", "0xm", "7", "5000", 2_000, "0x3", 150);
    assert_eq!(c.created_at, 150);
    let rows = book.query_open_orders("7", 160);
    let times: Vec<i64> = rows.iter().map(|r| r.created_at).collect();
    assert_eq!(times, vec![100, 100, 150]);
}
