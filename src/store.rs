//! The order store: every submitted order with its lifecycle state, and the
//! queries and conditional updates that matching and reconciliation rely on.
//! Each operation is one indivisible step on the store.

use vstd::prelude::*;
use vstd::string::*;
use crate::error::AppError;
use crate::models::{OrderRecord, OrderStatus};
use crate::text::text_is;
use crate::wide::{nonce_below, nonce_less};

verus! {

/// Whether a stored order can be offered to a taker at instant `now`: open,
/// or reserved with a reservation that has lapsed, and not past its deadline.
pub open spec fn is_eligible(r: OrderRecord, now: i64) -> bool {
    &&& (r.status == OrderStatus::Open || (r.status == OrderStatus::Reserved && (
    r.reserved_until matches Some(t) && t < now)))
    &&& r.deadline > now
}

/// The orders of `s` on inscription `inscription` that are eligible at
/// `now`, in store order.
pub open spec fn eligible_rows(s: Seq<OrderRecord>, inscription: Seq<char>, now: i64) -> Seq<
    OrderRecord,
>
    decreases s.len(),
{
    if s.len() == 0 {
        s
    } else {
        let rest = eligible_rows(s.drop_last(), inscription, now);
        if s.last().inscription_id@ == inscription && is_eligible(s.last(), now) {
            rest.push(s.last())
        } else {
            rest
        }
    }
}

/// Eligible rows keep the store's order, hence its order of creation.
pub proof fn lemma_eligible_rows_in_order(s: Seq<OrderRecord>, inscription: Seq<char>, now: i64)
    requires
        created_in_order(s),
    ensures
        created_in_order(eligible_rows(s, inscription, now)),
        forall|k: int|
            0 <= k < eligible_rows(s, inscription, now).len() ==> exists|i: int|
                0 <= i < s.len() && s[i] == #[trigger] eligible_rows(s, inscription, now)[k],
    decreases s.len(),
{
    if s.len() > 0 {
        let t = s.drop_last();
        assert(created_in_order(t)) by {
            assert forall|i: int, j: int| 0 <= i < j < t.len() implies (#[trigger] t[i]).created_at
                <= (#[trigger] t[j]).created_at by {
                assert(s[i].created_at <= s[j].created_at);
            }
        }
        lemma_eligible_rows_in_order(t, inscription, now);
        let rest = eligible_rows(t, inscription, now);
        let e = eligible_rows(s, inscription, now);
        assert forall|k: int| 0 <= k < e.len() implies exists|i: int|
            0 <= i < s.len() && s[i] == #[trigger] e[k] by {
            if k < rest.len() {
                let i = choose|i: int| 0 <= i < t.len() && t[i] == rest[k];
                assert(s[i] == e[k]);
            } else {
                assert(s[s.len() - 1] == e[k]);
            }
        }
        assert forall|a: int, b: int| 0 <= a < b < e.len() implies (#[trigger] e[a]).created_at
            <= (#[trigger] e[b]).created_at by {
            if b < rest.len() {
                assert(rest[a].created_at <= rest[b].created_at);
            } else {
                let i = choose|i: int| 0 <= i < t.len() && t[i] == rest[a];
                assert(s[i].created_at <= s[s.len() - 1].created_at);
            }
        }
    }
}

/// End of a reservation made at `now` for `ttl_secs` seconds, clamped to the
/// largest instant.
pub open spec fn reservation_end(now: i64, ttl_secs: u64) -> i64 {
    if now + ttl_secs > i64::MAX {
        i64::MAX
    } else {
        (now + ttl_secs) as i64
    }
}

/// `r` with a new status, touched at `now`.
pub open spec fn with_status(r: OrderRecord, status: OrderStatus, now: i64) -> OrderRecord {
    OrderRecord { status, updated_at: now, ..r }
}

/// `r` with a new filled quantity, touched at `now`.
pub open spec fn with_filled(r: OrderRecord, filled: String, now: i64) -> OrderRecord {
    OrderRecord { filled_bps: filled, updated_at: now, ..r }
}

/// `r` reserved until `until`, touched at `now`.
pub open spec fn with_reservation(r: OrderRecord, until: i64, now: i64) -> OrderRecord {
    OrderRecord { status: OrderStatus::Reserved, reserved_until: Some(until), updated_at: now, ..r }
}

/// Whether row `r` is logically open at `now`: open, or reserved with a
/// reservation that has lapsed.
pub open spec fn logically_open(r: OrderRecord, now: i64) -> bool {
    r.status == OrderStatus::Open || (r.status == OrderStatus::Reserved && (
    r.reserved_until matches Some(t) && t < now))
}

/// Whether a reservation request for `ids` made at `now` takes row `r`: it
/// is requested and logically open.
pub open spec fn takes_reservation(r: OrderRecord, ids: Seq<u128>, now: i64) -> bool {
    ids.contains(r.id) && logically_open(r, now)
}

/// The ids that a reservation request for `ids` made at `now` takes, in
/// store order.
pub open spec fn reserved_ids(s: Seq<OrderRecord>, ids: Seq<u128>, now: i64) -> Seq<u128>
    decreases s.len(),
{
    if s.len() == 0 {
        Seq::empty()
    } else {
        let rest = reserved_ids(s.drop_last(), ids, now);
        if takes_reservation(s.last(), ids, now) {
            rest.push(s.last().id)
        } else {
            rest
        }
    }
}

/// The store after a reservation request for `ids` made at `now`, held
/// until `until`.
pub open spec fn after_reservation(s: Seq<OrderRecord>, ids: Seq<u128>, until: i64, now: i64) -> Seq<
    OrderRecord,
> {
    Seq::new(
        s.len(),
        |i: int|
            if takes_reservation(s[i], ids, now) {
                with_reservation(s[i], until, now)
            } else {
                s[i]
            },
    )
}

/// The store after an "order filled" notification for `hash` with the
/// cumulative filled quantity `total`: the quantity is overwritten, and the
/// order becomes filled when it equals the order's size.
pub open spec fn after_fill(s: Seq<OrderRecord>, hash: Seq<char>, total: String, now: i64) -> Seq<
    OrderRecord,
> {
    Seq::new(
        s.len(),
        |i: int|
            if s[i].order_hash@ == hash {
                if total@ == s[i].bps@ {
                    with_status(with_filled(s[i], total, now), OrderStatus::Filled, now)
                } else {
                    with_filled(s[i], total, now)
                }
            } else {
                s[i]
            },
    )
}

/// The store after the status of the order with hash `hash` is set to
/// `status` at `now`.
pub open spec fn after_status(s: Seq<OrderRecord>, hash: Seq<char>, status: OrderStatus, now: i64) -> Seq<
    OrderRecord,
> {
    Seq::new(
        s.len(),
        |i: int|
            if s[i].order_hash@ == hash {
                with_status(s[i], status, now)
            } else {
                s[i]
            },
    )
}

/// The store after a bulk cancellation by `maker` below `min_nonce` at
/// `now`.
pub open spec fn after_bulk_cancel(
    s: Seq<OrderRecord>,
    maker: Seq<char>,
    min_nonce: Seq<char>,
    now: i64,
) -> Seq<OrderRecord> {
    Seq::new(
        s.len(),
        |i: int|
            if takes_bulk_cancel(s[i], maker, min_nonce) {
                with_status(s[i], OrderStatus::Cancelled, now)
            } else {
                s[i]
            },
    )
}

/// Whether a bulk cancellation by `maker` below `min_nonce` takes row `r`.
pub open spec fn takes_bulk_cancel(r: OrderRecord, maker: Seq<char>, min_nonce: Seq<char>) -> bool {
    r.maker@ == maker && nonce_below(r.nonce@, min_nonce) && r.status == OrderStatus::Open
}

/// The number of rows of `s` that a bulk cancellation takes.
pub open spec fn bulk_cancel_count(s: Seq<OrderRecord>, maker: Seq<char>, min_nonce: Seq<char>) -> nat
    decreases s.len(),
{
    if s.len() == 0 {
        0
    } else {
        bulk_cancel_count(s.drop_last(), maker, min_nonce) + if takes_bulk_cancel(
            s.last(),
            maker,
            min_nonce,
        ) {
            1nat
        } else {
            0nat
        }
    }
}

/// Whether some row of `s` has hash `hash`.
pub open spec fn has_hash(s: Seq<OrderRecord>, hash: Seq<char>) -> bool {
    exists|i: int| 0 <= i < s.len() && s[i].order_hash@ == hash
}

/// The store, in order of insertion.
pub struct OrderBook {
    rows: Vec<OrderRecord>,
}

impl View for OrderBook {
    type V = Seq<OrderRecord>;

    closed spec fn view(&self) -> Seq<OrderRecord> {
        self.rows@
    }
}

/// Whether rows are in nondecreasing order of creation time.
pub open spec fn created_in_order(s: Seq<OrderRecord>) -> bool {
    forall|i: int, j: int| 0 <= i < j < s.len() ==> (#[trigger] s[i]).created_at <= (
    #[trigger] s[j]).created_at
}

/// The creation time the store gives an order inserted at `now`: its clock
/// never runs backwards, so it is `now` or the latest creation time so far.
pub open spec fn creation_stamp(s: Seq<OrderRecord>, now: i64) -> i64 {
    if s.len() > 0 && s.last().created_at > now {
        s.last().created_at
    } else {
        now
    }
}

/// A well-formed store: the surrogate id of the row at position `i` is
/// `i + 1`, no two rows share an order hash, and rows are in order of
/// creation time.
pub open spec fn book_wf(s: Seq<OrderRecord>) -> bool {
    &&& created_in_order(s)
    &&& forall|i: int| 0 <= i < s.len() ==> (#[trigger] s[i]).id == i + 1
    &&& forall|i: int, j: int|
        0 <= i < s.len() && 0 <= j < s.len() && i != j ==> (#[trigger] s[i]).order_hash@ != (
        #[trigger] s[j]).order_hash@
}

impl OrderBook {
    /// An empty store.
    pub fn new() -> (r: OrderBook)
        ensures
            r@ == Seq::<OrderRecord>::empty(),
    {
        OrderBook { rows: Vec::new() }
    }

    /// Number of stored orders.
    pub fn len(&self) -> (r: usize)
        ensures
            r == self@.len(),
    {
        self.rows.len()
    }

    /// Position of the row with hash `hash`, if any.
    fn find_hash(&self, hash: &str) -> (r: Option<usize>)
        ensures
            r matches Some(i) ==> i < self@.len() && self@[i as int].order_hash@ == hash@,
            r is None ==> !has_hash(self@, hash@),
    {
        let mut i: usize = 0;
        while i < self.rows.len()
            invariant
                i <= self@.len(),
                self@ == self.rows@,
                forall|k: int| 0 <= k < i ==> self@[k].order_hash@ != hash@,
            decreases self@.len() - i,
        {
            if text_is(self.rows[i].order_hash.as_str(), hash) {
                return Some(i);
            }
            i = i + 1;
        }
        None
    }

    /// Store a new order, open and unfilled, created at `now` (or at the
    /// latest creation time so far, if that is later). Fails with `Conflict`
    /// exactly when an order with the same hash is already stored.
    pub fn insert_order(
        &mut self,
        order_hash: String,
        maker: String,
        allowed_taker: String,
        inscription_id: String,
        bps: String,
        deadline: i64,
        nonce: String,
        min_fill_bps: String,
        signature_r: String,
        signature_s: String,
        now: i64,
    ) -> (r: Result<OrderRecord, AppError>)
        requires
            book_wf(old(self)@),
        ensures
            book_wf(final(self)@),
            has_hash(old(self)@, order_hash@) ==> final(self)@ == old(self)@ && r matches Err(
                AppError::Conflict(_),
            ),
            !has_hash(old(self)@, order_hash@) ==> (r matches Ok(rec) && final(self)@ == old(
                self,
            )@.push(rec) && rec == (OrderRecord {
                id: (old(self)@.len() + 1) as u128,
                order_hash,
                maker,
                allowed_taker,
                inscription_id,
                bps,
                deadline,
                nonce,
                min_fill_bps,
                signature_r,
                signature_s,
                status: OrderStatus::Open,
                filled_bps: rec.filled_bps,
                reserved_until: None,
                created_at: creation_stamp(old(self)@, now),
                updated_at: creation_stamp(old(self)@, now),
            }) && rec.filled_bps@ == "0"@),
    {
        if let Some(_) = self.find_hash(order_hash.as_str()) {
            return Err(AppError::Conflict(String::from_str("Order already exists")));
        }
        let id = self.rows.len() as u128 + 1;
        let n = self.rows.len();
        let stamp: i64 = if n > 0 && self.rows[n - 1].created_at > now {
            self.rows[n - 1].created_at
        } else {
            now
        };
        let rec = OrderRecord {
            id,
            order_hash,
            maker,
            allowed_taker,
            inscription_id,
            bps,
            deadline,
            nonce,
            min_fill_bps,
            signature_r,
            signature_s,
            status: OrderStatus::Open,
            filled_bps: String::from_str("0"),
            reserved_until: None,
            created_at: stamp,
            updated_at: stamp,
        };
        let out = rec.duplicate();
        self.rows.push(rec);
        proof {
            assert(book_wf(self@)) by {
                assert forall|i: int, j: int| 0 <= i < j < self@.len() implies (
                #[trigger] self@[i]).created_at <= (#[trigger] self@[j]).created_at by {
                    if j == old(self)@.len() {
                        assert(old(self)@[i].created_at <= old(self)@.last().created_at);
                    }
                }
                assert forall|i: int, j: int|
                    0 <= i < self@.len() && 0 <= j < self@.len() && i != j implies (
                    #[trigger] self@[i]).order_hash@ != (#[trigger] self@[j]).order_hash@ by {
                    if i < old(self)@.len() && j < old(self)@.len() {
                        assert(self@[i] == old(self)@[i] && self@[j] == old(self)@[j]);
                    } else if i < old(self)@.len() {
                        assert(self@[i] == old(self)@[i]);
                    } else {
                        assert(self@[j] == old(self)@[j]);
                    }
                }
            }
        }
        Ok(out)
    }

    /// The order with surrogate id `id`, if stored.
    pub fn get_order_by_id(&self, id: u128) -> (r: Option<&OrderRecord>)
        requires
            book_wf(self@),
        ensures
            r matches Some(rec) ==> rec.id == id && self@.contains(*rec),
            r is None ==> forall|i: int| 0 <= i < self@.len() ==> self@[i].id != id,
    {
        if id >= 1 && id <= self.rows.len() as u128 {
            let i = (id - 1) as usize;
            proof {
                assert(self@[i as int].id == id);
            }
            Some(&self.rows[i])
        } else {
            None
        }
    }

    /// The order with hash `hash`, if stored.
    pub fn get_order_by_hash(&self, hash: &str) -> (r: Option<&OrderRecord>)
        ensures
            r matches Some(rec) ==> rec.order_hash@ == hash@ && self@.contains(*rec),
            r is None ==> !has_hash(self@, hash@),
    {
        match self.find_hash(hash) {
            Some(i) => Some(&self.rows[i]),
            None => None,
        }
    }

    /// The orders on `inscription_id` that are eligible for matching at
    /// `now`, oldest first.
    pub fn query_open_orders(&self, inscription_id: &str, now: i64) -> (r: Vec<OrderRecord>)
        requires
            book_wf(self@),
        ensures
            r@ == eligible_rows(self@, inscription_id@, now),
            created_in_order(r@),
    {
        proof {
            lemma_eligible_rows_in_order(self@, inscription_id@, now);
        }
        let mut out: Vec<OrderRecord> = Vec::new();
        let mut i: usize = 0;
        while i < self.rows.len()
            invariant
                i <= self@.len(),
                self@ == self.rows@,
                out@ == eligible_rows(self@.take(i as int), inscription_id@, now),
            decreases self@.len() - i,
        {
            proof {
                assert(self@.take(i + 1).drop_last() =~= self@.take(i as int));
            }
            let row = &self.rows[i];
            let live = match row.status {
                OrderStatus::Open => true,
                OrderStatus::Reserved => match row.reserved_until {
                    Some(t) => t < now,
                    None => false,
                },
                _ => false,
            };
            if live && row.deadline > now && text_is(row.inscription_id.as_str(), inscription_id) {
                out.push(row.duplicate());
            }
            i = i + 1;
        }
        proof {
            assert(self@.take(i as int) =~= self@);
        }
        out
    }

    /// Soft-cancel the order with id `id` on behalf of `maker`: it changes
    /// only if `maker` made it and it is still open. Returns whether it
    /// changed.
    pub fn soft_cancel_order(&mut self, id: u128, maker: &str, now: i64) -> (r: bool)
        requires
            book_wf(old(self)@),
        ensures
            book_wf(final(self)@),
            final(self)@.len() == old(self)@.len(),
            forall|i: int|
                0 <= i < old(self)@.len() ==> #[trigger] final(self)@[i] == if old(self)@[i].id == id
                    && old(self)@[i].maker@ == maker@ && old(self)@[i].status == OrderStatus::Open {
                    with_status(old(self)@[i], OrderStatus::SoftCancelled, now)
                } else {
                    old(self)@[i]
                },
            r == exists|i: int|
                0 <= i < old(self)@.len() && old(self)@[i].id == id && old(self)@[i].maker@ == maker@
                    && old(self)@[i].status == OrderStatus::Open,
    {
        if id >= 1 && id <= self.rows.len() as u128 {
            let i = (id - 1) as usize;
            if text_is(self.rows[i].maker.as_str(), maker) && self.rows[i].status
                == OrderStatus::Open {
                let mut rec = self.rows[i].duplicate();
                rec.status = OrderStatus::SoftCancelled;
                rec.updated_at = now;
                self.rows.set(i, rec);
                proof {
                    assert forall|k: int|
                        0 <= k < old(self)@.len() && old(self)@[k].id == id implies k == i by {}
                    lemma_same_keys_wf(old(self)@, self@);
                }
                return true;
            }
        }
        false
    }

    /// Set the status of the order with hash `order_hash`, whatever it was.
    /// Returns whether such an order is stored.
    pub fn update_order_status(&mut self, order_hash: &str, new_status: OrderStatus, now: i64) -> (r:
        bool)
        requires
            book_wf(old(self)@),
        ensures
            book_wf(final(self)@),
            final(self)@.len() == old(self)@.len(),
            final(self)@ == after_status(old(self)@, order_hash@, new_status, now),
            r == has_hash(old(self)@, order_hash@),
    {
        match self.find_hash(order_hash) {
            Some(i) => {
                let mut rec = self.rows[i].duplicate();
                rec.status = new_status;
                rec.updated_at = now;
                self.rows.set(i, rec);
                proof {
                    assert forall|k: int|
                        0 <= k < old(self)@.len() && old(self)@[k].order_hash@
                            == order_hash@ implies k == i by {}
                    lemma_same_keys_wf(old(self)@, self@);
                    assert(self@ =~= after_status(old(self)@, order_hash@, new_status, now));
                }
                true
            },
            None => {
                assert(self@ =~= after_status(old(self)@, order_hash@, new_status, now));
                false
            },
        }
    }

    /// Overwrite the filled quantity of the order with hash `order_hash`.
    /// Returns whether such an order is stored.
    pub fn update_filled_bps(&mut self, order_hash: &str, new_filled_bps: &String, now: i64) -> (r:
        bool)
        requires
            book_wf(old(self)@),
        ensures
            book_wf(final(self)@),
            final(self)@.len() == old(self)@.len(),
            forall|i: int|
                0 <= i < old(self)@.len() ==> #[trigger] final(self)@[i] == if old(
                    self,
                )@[i].order_hash@ == order_hash@ {
                    with_filled(old(self)@[i], *new_filled_bps, now)
                } else {
                    old(self)@[i]
                },
            r == has_hash(old(self)@, order_hash@),
    {
        match self.find_hash(order_hash) {
            Some(i) => {
                let mut rec = self.rows[i].duplicate();
                rec.filled_bps = new_filled_bps.clone();
                rec.updated_at = now;
                self.rows.set(i, rec);
                proof {
                    assert forall|k: int|
                        0 <= k < old(self)@.len() && old(self)@[k].order_hash@
                            == order_hash@ implies k == i by {}
                    lemma_same_keys_wf(old(self)@, self@);
                }
                true
            },
            None => false,
        }
    }

    /// Reserve, in one conditional step, every requested order that is still
    /// logically open (open, or with a lapsed reservation): it becomes
    /// reserved until `now + ttl_secs`. Returns exactly the
    /// ids that were reserved, in store order.
    pub fn reserve_orders(&mut self, ids: &Vec<u128>, ttl_secs: u64, now: i64) -> (r: Vec<u128>)
        requires
            book_wf(old(self)@),
        ensures
            book_wf(final(self)@),
            final(self)@.len() == old(self)@.len(),
            final(self)@ == after_reservation(old(self)@, ids@, reservation_end(now, ttl_secs), now),
            r@ == reserved_ids(old(self)@, ids@, now),
    {
        let sum: i128 = now as i128 + ttl_secs as i128;
        let until: i64 = if sum > i64::MAX as i128 {
            i64::MAX
        } else {
            sum as i64
        };
        let ghost before = self@;
        let mut out: Vec<u128> = Vec::new();
        let mut i: usize = 0;
        while i < self.rows.len()
            invariant
                self@ == self.rows@,
                before == old(self)@,
                book_wf(before),
                until == reservation_end(now, ttl_secs),
                self@.len() == before.len(),
                i <= before.len(),
                forall|k: int|
                    0 <= k < i ==> #[trigger] self@[k] == if takes_reservation(before[k], ids@, now) {
                        with_reservation(before[k], until, now)
                    } else {
                        before[k]
                    },
                forall|k: int| i <= k < before.len() ==> #[trigger] self@[k] == before[k],
                out@ == reserved_ids(before.take(i as int), ids@, now),
            decreases before.len() - i,
        {
            proof {
                assert(before.take(i + 1).drop_last() =~= before.take(i as int));
            }
            let open = match self.rows[i].status {
                OrderStatus::Open => true,
                OrderStatus::Reserved => match self.rows[i].reserved_until {
                    Some(t) => t < now,
                    None => false,
                },
                _ => false,
            };
            if open && contains_id(ids, self.rows[i].id) {
                let mut rec = self.rows[i].duplicate();
                rec.status = OrderStatus::Reserved;
                rec.reserved_until = Some(until);
                rec.updated_at = now;
                out.push(rec.id);
                self.rows.set(i, rec);
            }
            i = i + 1;
        }
        proof {
            assert(before.take(i as int) =~= before);
            lemma_same_keys_wf(before, self@);
            assert(self@ =~= after_reservation(before, ids@, until, now));
        }
        out
    }

    /// Cancel, in one conditional step, every open order of `maker` whose
    /// nonce is below `min_nonce` by value (both read as hexadecimal
    /// numerals; a nonce that is no such numeral is below nothing). Returns
    /// how many changed.
    pub fn bulk_cancel_by_maker_nonce(&mut self, maker: &str, min_nonce: &str, now: i64) -> (r:
        u64)
        requires
            book_wf(old(self)@),
        ensures
            book_wf(final(self)@),
            final(self)@.len() == old(self)@.len(),
            final(self)@ == after_bulk_cancel(old(self)@, maker@, min_nonce@, now),
            r == bulk_cancel_count(old(self)@, maker@, min_nonce@),
    {
        let ghost before = self@;
        let mut count: u64 = 0;
        let mut i: usize = 0;
        while i < self.rows.len()
            invariant
                self@ == self.rows@,
                before == old(self)@,
                book_wf(before),
                self@.len() == before.len(),
                i <= before.len(),
                forall|k: int|
                    0 <= k < i ==> #[trigger] self@[k] == if takes_bulk_cancel(
                        before[k],
                        maker@,
                        min_nonce@,
                    ) {
                        with_status(before[k], OrderStatus::Cancelled, now)
                    } else {
                        before[k]
                    },
                forall|k: int| i <= k < before.len() ==> #[trigger] self@[k] == before[k],
                count == bulk_cancel_count(before.take(i as int), maker@, min_nonce@),
                count <= i,
            decreases before.len() - i,
        {
            proof {
                assert(before.take(i + 1).drop_last() =~= before.take(i as int));
            }
            if self.rows[i].status == OrderStatus::Open && text_is(self.rows[i].maker.as_str(), maker)
                && nonce_less(self.rows[i].nonce.as_str(), min_nonce) {
                let mut rec = self.rows[i].duplicate();
                rec.status = OrderStatus::Cancelled;
                rec.updated_at = now;
                self.rows.set(i, rec);
                count = count + 1;
            }
            i = i + 1;
        }
        proof {
            assert(before.take(i as int) =~= before);
            lemma_same_keys_wf(before, self@);
            assert(self@ =~= after_bulk_cancel(before, maker@, min_nonce@, now));
        }
        count
    }
}

pub proof fn lemma_reserved_ids_contains(s: Seq<OrderRecord>, ids: Seq<u128>, now: i64, id: u128)
    ensures
        reserved_ids(s, ids, now).contains(id) <==> exists|i: int|
            0 <= i < s.len() && takes_reservation(s[i], ids, now) && s[i].id == id,
    decreases s.len(),
{
    if s.len() > 0 {
        let t = s.drop_last();
        lemma_reserved_ids_contains(t, ids, now, id);
        let rest = reserved_ids(t, ids, now);
        if takes_reservation(s.last(), ids, now) {
            assert(rest.push(s.last().id).contains(id) <==> rest.contains(id) || s.last().id == id) by {
                if rest.push(s.last().id).contains(id) {
                    let k = choose|k: int| 0 <= k < rest.len() + 1 && rest.push(s.last().id)[k] == id;
                    if k < rest.len() {
                        assert(rest[k] == id);
                    }
                }
                if rest.contains(id) {
                    let k = choose|k: int| 0 <= k < rest.len() && rest[k] == id;
                    assert(rest.push(s.last().id)[k] == id);
                }
                if s.last().id == id {
                    assert(rest.push(s.last().id)[rest.len() as int] == id);
                }
            }
        }
        if exists|i: int| 0 <= i < s.len() && takes_reservation(s[i], ids, now) && s[i].id == id {
            let i = choose|i: int| 0 <= i < s.len() && takes_reservation(s[i], ids, now) && s[i].id == id;
            if i < t.len() {
                assert(t[i] == s[i]);
            }
        }
        if exists|i: int| 0 <= i < t.len() && takes_reservation(t[i], ids, now) && t[i].id == id {
            let i = choose|i: int| 0 <= i < t.len() && takes_reservation(t[i], ids, now) && t[i].id == id;
            assert(s[i] == t[i]);
        }
    }
}

/// Reservation is exactly once per order: when two reservation requests,
/// over any id sets, reach the store one after the other while the first
/// one's reservations still hold, no order id is in both of their results.
pub proof fn lemma_reservation_exactly_once(
    s: Seq<OrderRecord>,
    first_ids: Seq<u128>,
    second_ids: Seq<u128>,
    first_until: i64,
    first_now: i64,
    second_now: i64,
    id: u128,
)
    requires
        book_wf(s),
        second_now <= first_until,
    ensures
        !(reserved_ids(s, first_ids, first_now).contains(id) && reserved_ids(
            after_reservation(s, first_ids, first_until, first_now),
            second_ids,
            second_now,
        ).contains(id)),
{
    let t = after_reservation(s, first_ids, first_until, first_now);
    lemma_reserved_ids_contains(s, first_ids, first_now, id);
    lemma_reserved_ids_contains(t, second_ids, second_now, id);
    if reserved_ids(s, first_ids, first_now).contains(id) && reserved_ids(
        t,
        second_ids,
        second_now,
    ).contains(id) {
        let i = choose|i: int|
            0 <= i < s.len() && takes_reservation(s[i], first_ids, first_now) && s[i].id == id;
        let j = choose|j: int|
            0 <= j < t.len() && takes_reservation(t[j], second_ids, second_now) && t[j].id == id;
        assert(s[i].id == i + 1);
        assert(t[j].id == s[j].id);
        assert(s[j].id == j + 1);
        assert(t[i].reserved_until == Some(first_until));
    }
}

/// A reservation is released by time alone: once it has lapsed, every order
/// is exactly as eligible for matching as it was before the reservation,
/// with no status rewrite; while it holds, no reserved order is eligible.
pub proof fn lemma_lapsed_reservation_eligible(
    s: Seq<OrderRecord>,
    ids: Seq<u128>,
    until: i64,
    now: i64,
    later: i64,
)
    ensures
        now <= until < later ==> forall|i: int|
            0 <= i < s.len() ==> is_eligible(
                #[trigger] after_reservation(s, ids, until, now)[i],
                later,
            ) == is_eligible(s[i], later),
        later <= until ==> forall|i: int|
            0 <= i < s.len() && takes_reservation(s[i], ids, now) ==> !is_eligible(
                #[trigger] after_reservation(s, ids, until, now)[i],
                later,
            ),
        forall|i: int|
            0 <= i < s.len() && takes_reservation(s[i], ids, now) ==> (#[trigger] after_reservation(
                s,
                ids,
                until,
                now,
            )[i]).status == OrderStatus::Reserved,
{
}

/// Replaying an "order filled" notification with the same cumulative
/// quantity changes nothing beyond what the first delivery did (apart from
/// the time of the last update).
pub proof fn lemma_fill_replay_idempotent(
    s: Seq<OrderRecord>,
    hash: Seq<char>,
    total: String,
    first_now: i64,
    second_now: i64,
)
    ensures
        after_fill(after_fill(s, hash, total, first_now), hash, total, second_now) == after_fill(
            s,
            hash,
            total,
            second_now,
        ),
        after_fill(after_fill(s, hash, total, first_now), hash, total, first_now) == after_fill(
            s,
            hash,
            total,
            first_now,
        ),
{
    let a = after_fill(after_fill(s, hash, total, first_now), hash, total, second_now);
    let b = after_fill(s, hash, total, second_now);
    assert(a =~= b);
    let c = after_fill(after_fill(s, hash, total, first_now), hash, total, first_now);
    let d = after_fill(s, hash, total, first_now);
    assert(c =~= d);
}

/// Whether `id` is among `ids`.
fn contains_id(ids: &Vec<u128>, id: u128) -> (r: bool)
    ensures
        r == ids@.contains(id),
{
    let mut i: usize = 0;
    while i < ids.len()
        invariant
            i <= ids@.len(),
            forall|k: int| 0 <= k < i ==> ids@[k] != id,
        decreases ids@.len() - i,
    {
        if ids[i] == id {
            return true;
        }
        i = i + 1;
    }
    false
}

/// Rewriting rows without touching ids or hashes keeps the store well formed.
proof fn lemma_same_keys_wf(a: Seq<OrderRecord>, b: Seq<OrderRecord>)
    requires
        book_wf(a),
        a.len() == b.len(),
        forall|i: int|
            0 <= i < a.len() ==> (#[trigger] b[i]).id == a[i].id && b[i].order_hash == a[i].order_hash
                && b[i].created_at == a[i].created_at,
    ensures
        book_wf(b),
{
    assert forall|i: int, j: int| 0 <= i < j < b.len() implies (#[trigger] b[i]).created_at <= (
    #[trigger] b[j]).created_at by {
        assert(a[i].created_at <= a[j].created_at);
    }
    assert forall|i: int, j: int|
        0 <= i < b.len() && 0 <= j < b.len() && i != j implies (#[trigger] b[i]).order_hash@ != (
        #[trigger] b[j]).order_hash@ by {
        assert(a[i].order_hash@ != a[j].order_hash@);
    }
}

} // verus!
