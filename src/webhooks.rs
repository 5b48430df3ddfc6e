//! Settlement notifications: authentication of the sender, what each
//! notification asks of the store, and folding a batch into the store.

use vstd::prelude::*;
use vstd::string::*;
use crate::models::OrderStatus;
use crate::store::{after_bulk_cancel, after_fill, after_status, book_wf, OrderBook};
use crate::text::{joined, text_is};

verus! {

/// A batch of settlement notifications.
#[derive(Debug)]
pub struct WebhookPayload {
    pub events: Vec<WebhookEvent>,
}

/// A single settlement notification.
#[derive(Debug)]
pub struct WebhookEvent {
    pub event_type: String,
    pub order_hash: Option<String>,
    pub maker: Option<String>,
    pub fill_bps: Option<String>,
    pub total_filled: Option<String>,
    pub min_nonce: Option<String>,
}

/// Response for a processed batch.
#[derive(Debug)]
pub struct WebhookResponse {
    pub ok: bool,
    pub processed: usize,
}

/// What a notification asks of the store.
#[derive(Debug)]
pub enum EventAction {
    /// Overwrite the cumulative filled quantity of an order.
    Filled { order_hash: String, total_filled: String },
    /// Mark an order cancelled.
    Cancelled { order_hash: String },
    /// Cancel a maker's open orders below a nonce.
    BulkCancelled { maker: String, min_nonce: String },
    /// A known kind of notification without the fields it needs.
    MissingFields,
    /// A kind of notification the engine does not know.
    Unknown,
}

/// What notification `e` asks of the store.
pub open spec fn action_of(e: WebhookEvent) -> EventAction {
    if e.event_type@ == "order_filled"@ {
        match (e.order_hash, e.total_filled) {
            (Some(h), Some(t)) => EventAction::Filled { order_hash: h, total_filled: t },
            _ => EventAction::MissingFields,
        }
    } else if e.event_type@ == "order_cancelled"@ {
        match e.order_hash {
            Some(h) => EventAction::Cancelled { order_hash: h },
            None => EventAction::MissingFields,
        }
    } else if e.event_type@ == "orders_bulk_cancelled"@ {
        match (e.maker, e.min_nonce) {
            (Some(m), Some(n)) => EventAction::BulkCancelled { maker: m, min_nonce: n },
            _ => EventAction::MissingFields,
        }
    } else {
        EventAction::Unknown
    }
}

/// Whether an action is applied (and counted) rather than skipped.
pub open spec fn is_applied(a: EventAction) -> bool {
    match a {
        EventAction::MissingFields | EventAction::Unknown => false,
        _ => true,
    }
}

/// Reads what a notification asks of the store.
pub fn classify_event(e: &WebhookEvent) -> (r: EventAction)
    ensures
        r == action_of(*e),
{
    let kind = e.event_type.as_str();
    if text_is(kind, "order_filled") {
        match (&e.order_hash, &e.total_filled) {
            (Some(h), Some(t)) => EventAction::Filled { order_hash: h.clone(), total_filled: t.clone() },
            _ => EventAction::MissingFields,
        }
    } else if text_is(kind, "order_cancelled") {
        match &e.order_hash {
            Some(h) => EventAction::Cancelled { order_hash: h.clone() },
            None => EventAction::MissingFields,
        }
    } else if text_is(kind, "orders_bulk_cancelled") {
        match (&e.maker, &e.min_nonce) {
            (Some(m), Some(n)) => EventAction::BulkCancelled { maker: m.clone(), min_nonce: n.clone() },
            _ => EventAction::MissingFields,
        }
    } else {
        EventAction::Unknown
    }
}

/// Whether a delivered cumulative filled quantity completes an order of
/// size `order_bps` (the two texts are equal).
pub fn fill_completes(total_filled: &str, order_bps: &str) -> (r: bool)
    ensures
        r == (total_filled@ == order_bps@),
{
    text_is(total_filled, order_bps)
}

/// Compare two byte strings in time that depends on their lengths only.
pub fn constant_time_eq(a: &[u8], b: &[u8]) -> (r: bool)
    ensures
        r == (a@ == b@),
{
    if a.len() != b.len() {
        return false;
    }
    let mut result: u8 = 0;
    let mut i: usize = 0;
    while i < a.len()
        invariant
            a@.len() == b@.len(),
            i <= a@.len(),
            (result == 0) == (forall|k: int| 0 <= k < i ==> a@[k] == b@[k]),
        decreases a@.len() - i,
    {
        let x = a[i];
        let y = b[i];
        let next = result | (x ^ y);
        assert((next == 0) == (result == 0 && x == y)) by (bit_vector)
            requires
                next == result | (x ^ y),
        ;
        proof {
            if next == 0 {
                assert forall|k: int| 0 <= k < i + 1 implies a@[k] == b@[k] by {}
            }
        }
        result = next;
        i = i + 1;
    }
    proof {
        if result == 0 {
            assert(a@ =~= b@);
        }
    }
    result == 0
}

/// Whether an `Authorization` header value carries the shared secret as a
/// bearer token. The comparison takes the same time wherever the texts
/// differ.
pub fn is_authorized(header: &str, secret: &str) -> (r: bool)
    ensures
        r == (header@ == "Bearer "@ + secret@),
{
    let expected = joined("Bearer ", secret);
    let r = constant_time_eq(header.as_bytes(), expected.as_str().as_bytes());
    proof {
        vstd::utf8::encode_utf8_decode_utf8(header@);
        vstd::utf8::encode_utf8_decode_utf8(expected@);
    }
    r
}

/// The store after one notification at `now`.
pub open spec fn after_event(s: Seq<crate::models::OrderRecord>, e: WebhookEvent, now: i64) -> Seq<
    crate::models::OrderRecord,
> {
    match action_of(e) {
        EventAction::Filled { order_hash, total_filled } => after_fill(
            s,
            order_hash@,
            total_filled,
            now,
        ),
        EventAction::Cancelled { order_hash } => after_status(
            s,
            order_hash@,
            OrderStatus::Cancelled,
            now,
        ),
        EventAction::BulkCancelled { maker, min_nonce } => after_bulk_cancel(
            s,
            maker@,
            min_nonce@,
            now,
        ),
        _ => s,
    }
}

/// The store after a batch of notifications, each applied in turn.
pub open spec fn after_events(
    s: Seq<crate::models::OrderRecord>,
    events: Seq<WebhookEvent>,
    now: i64,
) -> Seq<crate::models::OrderRecord>
    decreases events.len(),
{
    if events.len() == 0 {
        s
    } else {
        after_event(after_events(s, events.drop_last(), now), events.last(), now)
    }
}

/// How many notifications of a batch are applied.
pub open spec fn applied_count(events: Seq<WebhookEvent>) -> nat
    decreases events.len(),
{
    if events.len() == 0 {
        0
    } else {
        applied_count(events.drop_last()) + if is_applied(action_of(events.last())) {
            1nat
        } else {
            0nat
        }
    }
}

/// Delivering the same "order filled" notification twice leaves the store as
/// one delivery does (apart from the time of the last update).
pub proof fn lemma_filled_event_replay(
    s: Seq<crate::models::OrderRecord>,
    e: WebhookEvent,
    first_now: i64,
    second_now: i64,
)
    requires
        action_of(e) is Filled,
    ensures
        after_event(after_event(s, e, first_now), e, second_now) == after_event(s, e, second_now),
        after_event(after_event(s, e, first_now), e, first_now) == after_event(s, e, first_now),
{
    if let EventAction::Filled { order_hash, total_filled } = action_of(e) {
        crate::store::lemma_fill_replay_idempotent(
            s,
            order_hash@,
            total_filled,
            first_now,
            second_now,
        );
    }
}

impl OrderBook {
    /// Fold an "order filled" notification into the store: overwrite the
    /// filled quantity, then mark the order filled when it equals its size.
    pub fn apply_fill(&mut self, order_hash: &String, total_filled: &String, now: i64)
        requires
            book_wf(old(self)@),
        ensures
            book_wf(final(self)@),
            final(self)@ == after_fill(old(self)@, order_hash@, *total_filled, now),
    {
        let ghost s0 = self@;
        self.update_filled_bps(order_hash.as_str(), total_filled, now);
        let ghost s1 = self@;
        let complete = match self.get_order_by_hash(order_hash.as_str()) {
            Some(rec) => fill_completes(total_filled.as_str(), rec.bps.as_str()),
            None => false,
        };
        if complete {
            self.update_order_status(order_hash.as_str(), OrderStatus::Filled, now);
        }
        proof {
            assert forall|i: int, j: int|
                0 <= i < s1.len() && 0 <= j < s1.len() && s1[i].order_hash@ == order_hash@
                    && s1[j].order_hash@ == order_hash@ implies i == j by {
                if i != j {
                    assert(s1[i].order_hash@ != s1[j].order_hash@);
                }
            }
            assert(self@ =~= after_fill(s0, order_hash@, *total_filled, now));
        }
    }

    /// Fold a batch of notifications into the store, each on its own. Events
    /// without their required fields and unknown kinds are skipped; the
    /// response always reports success with the number applied.
    pub fn handle_events(&mut self, events: &Vec<WebhookEvent>, now: i64) -> (r: WebhookResponse)
        requires
            book_wf(old(self)@),
        ensures
            book_wf(final(self)@),
            final(self)@ == after_events(old(self)@, events@, now),
            r.ok,
            r.processed == applied_count(events@),
    {
        let mut processed: usize = 0;
        let mut i: usize = 0;
        while i < events.len()
            invariant
                book_wf(self@),
                i <= events@.len(),
                self@ == after_events(old(self)@, events@.take(i as int), now),
                processed == applied_count(events@.take(i as int)),
                processed <= i,
            decreases events@.len() - i,
        {
            proof {
                assert(events@.take(i + 1).drop_last() =~= events@.take(i as int));
            }
            let action = classify_event(&events[i]);
            match action {
                EventAction::Filled { order_hash, total_filled } => {
                    self.apply_fill(&order_hash, &total_filled, now);
                    processed = processed + 1;
                },
                EventAction::Cancelled { order_hash } => {
                    self.update_order_status(order_hash.as_str(), OrderStatus::Cancelled, now);
                    processed = processed + 1;
                },
                EventAction::BulkCancelled { maker, min_nonce } => {
                    self.bulk_cancel_by_maker_nonce(maker.as_str(), min_nonce.as_str(), now);
                    processed = processed + 1;
                },
                _ => {},
            }
            i = i + 1;
        }
        proof {
            assert(events@.take(i as int) =~= events@);
        }
        WebhookResponse { ok: true, processed }
    }
}

} // verus!
