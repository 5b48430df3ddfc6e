//! Submitting, reading and cancelling orders: the decisions around the
//! store's operations.

use vstd::prelude::*;
use vstd::string::*;
use crate::error::AppError;
use crate::models::{status_text, OrderRecord, OrderStatus, SignedOrder};
use crate::signature::{compute_order_hash, order_hash_of};
use crate::store::{book_wf, has_hash, with_status, OrderBook};
use crate::text::{joined, text_is};

verus! {

/// Whether an order with deadline `deadline` has expired at `now`.
pub open spec fn expired(deadline: u64, now: i64) -> bool {
    deadline <= now
}

/// Admit a verified, unexpired order: a rejected signature is
/// `InvalidSignature`, a deadline not after `now` is `OrderExpired`.
pub fn check_admission(signature_valid: bool, deadline: u64, now: i64) -> (r: Result<(), AppError>)
    ensures
        !signature_valid ==> r == Err::<(), AppError>(AppError::InvalidSignature),
        signature_valid && expired(deadline, now) ==> r == Err::<(), AppError>(
            AppError::OrderExpired,
        ),
        signature_valid && !expired(deadline, now) ==> r is Ok,
{
    if !signature_valid {
        return Err(AppError::InvalidSignature);
    }
    if now >= 0 && deadline <= now as u64 {
        return Err(AppError::OrderExpired);
    }
    Ok(())
}

/// The conflict message for cancelling an order that is not open.
pub open spec fn not_open_message(status: OrderStatus) -> Seq<char> {
    "Order is not open (current status: "@ + status_text(status) + ")"@
}

/// Decide whether `maker` may soft-cancel `record`: only its maker, and only
/// while it is open.
pub fn cancel_decision(record: &OrderRecord, maker: &str) -> (r: Result<(), AppError>)
    ensures
        record.maker@ != maker@ ==> r == Err::<(), AppError>(AppError::Unauthorized),
        record.maker@ == maker@ && record.status != OrderStatus::Open ==> (r matches Err(
            AppError::Conflict(m),
        ) && m@ == not_open_message(record.status)),
        record.maker@ == maker@ && record.status == OrderStatus::Open ==> r is Ok,
{
    if !text_is(record.maker.as_str(), maker) {
        return Err(AppError::Unauthorized);
    }
    if record.status != OrderStatus::Open {
        let status = record.status.to_string();
        let mut m = joined("Order is not open (current status: ", status.as_str());
        m.append(")");
        return Err(AppError::Conflict(m));
    }
    Ok(())
}

/// A deadline as a stored instant, clamped to the largest one.
pub open spec fn stored_deadline(deadline: u64) -> i64 {
    if deadline > i64::MAX {
        i64::MAX
    } else {
        deadline as i64
    }
}

/// Resubmitting an order's terms after it was stored yields the same hash,
/// which the store already holds: `submit_order` then rejects it as a
/// conflict.
pub proof fn lemma_resubmission_conflicts(
    stored: Seq<OrderRecord>,
    rec: OrderRecord,
    chain_id: Seq<char>,
    first: SignedOrder,
    again: SignedOrder,
)
    requires
        order_hash_of(chain_id, first) == Some(rec.order_hash@),
        first.maker@ == again.maker@,
        first.allowed_taker@ == again.allowed_taker@,
        first.inscription_id@ == again.inscription_id@,
        first.bps@ == again.bps@,
        first.deadline == again.deadline,
        first.nonce@ == again.nonce@,
        first.min_fill_bps@ == again.min_fill_bps@,
    ensures
        order_hash_of(chain_id, again) == Some(rec.order_hash@),
        has_hash(stored.push(rec), rec.order_hash@),
{
    crate::signature::lemma_order_hash_deterministic(chain_id, first, chain_id, again);
    assert(stored.push(rec)[stored.len() as int] == rec);
}

impl OrderBook {
    /// Submit a signed order at `now`. `signature_valid` is the maker
    /// account's verdict on the signature. Fails, in this order of checks,
    /// as `compute_order_hash` does; with `Conflict` when an order with the
    /// same hash is stored; with `InvalidSignature`; with `OrderExpired`.
    /// Otherwise the order is stored open and returned.
    pub fn submit_order(
        &mut self,
        chain_id: &str,
        order: &SignedOrder,
        signature: &[String; 2],
        signature_valid: bool,
        now: i64,
    ) -> (r: Result<OrderRecord, AppError>)
        requires
            book_wf(old(self)@),
        ensures
            book_wf(final(self)@),
            r is Err ==> final(self)@ == old(self)@,
            order_hash_of(chain_id@, *order) is None ==> r is Err,
            order_hash_of(chain_id@, *order) matches Some(h) ==> {
                &&& has_hash(old(self)@, h) ==> (r matches Err(AppError::Conflict(_)))
                &&& !has_hash(old(self)@, h) && !signature_valid ==> r == Err::<
                    OrderRecord,
                    AppError,
                >(AppError::InvalidSignature)
                &&& !has_hash(old(self)@, h) && signature_valid && expired(order.deadline, now)
                    ==> r == Err::<OrderRecord, AppError>(AppError::OrderExpired)
                &&& !has_hash(old(self)@, h) && signature_valid && !expired(order.deadline, now)
                    ==> (r matches Ok(rec) && final(self)@ == old(self)@.push(rec)
                    && rec.order_hash@ == h && rec.maker@ == order.maker@
                    && rec.allowed_taker@ == order.allowed_taker@
                    && rec.inscription_id@ == order.inscription_id@ && rec.bps@ == order.bps@
                    && rec.deadline == stored_deadline(order.deadline) && rec.nonce@ == order.nonce@
                    && rec.min_fill_bps@ == order.min_fill_bps@
                    && rec.signature_r@ == signature[0]@ && rec.signature_s@ == signature[1]@
                    && rec.status == OrderStatus::Open && rec.filled_bps@ == "0"@
                    && rec.reserved_until is None && rec.created_at == crate::store::creation_stamp(old(self)@, now))
            },
    {
        let order_hash = compute_order_hash(chain_id, order)?;
        if self.get_order_by_hash(order_hash.as_str()).is_some() {
            return Err(AppError::Conflict(String::from_str("Order already exists")));
        }
        check_admission(signature_valid, order.deadline, now)?;
        let deadline: i64 = if order.deadline > i64::MAX as u64 {
            i64::MAX
        } else {
            order.deadline as i64
        };
        self.insert_order(
            order_hash,
            order.maker.clone(),
            order.allowed_taker.clone(),
            order.inscription_id.clone(),
            order.bps.clone(),
            deadline,
            order.nonce.clone(),
            order.min_fill_bps.clone(),
            signature[0].clone(),
            signature[1].clone(),
            now,
        )
    }

    /// The order with surrogate id `id`, or `NotFound`.
    pub fn get_order(&self, id: u128) -> (r: Result<&OrderRecord, AppError>)
        requires
            book_wf(self@),
        ensures
            r matches Ok(rec) ==> rec.id == id && self@.contains(*rec),
            r is Err ==> r == Err::<&OrderRecord, AppError>(AppError::NotFound) && forall|i: int|
                0 <= i < self@.len() ==> self@[i].id != id,
    {
        match self.get_order_by_id(id) {
            Some(rec) => Ok(rec),
            None => Err(AppError::NotFound),
        }
    }

    /// Soft-cancel order `id` on behalf of `maker` at `now`: `NotFound` when
    /// no such order is stored, `Unauthorized` when `maker` did not make it,
    /// `Conflict` when it is not open; otherwise it becomes soft-cancelled.
    pub fn cancel_order(&mut self, id: u128, maker: &str, now: i64) -> (r: Result<(), AppError>)
        requires
            book_wf(old(self)@),
        ensures
            book_wf(final(self)@),
            (forall|i: int| 0 <= i < old(self)@.len() ==> old(self)@[i].id != id) ==> final(self)@
                == old(self)@ && r == Err::<(), AppError>(AppError::NotFound),
            forall|i: int|
                0 <= i < old(self)@.len() && old(self)@[i].id == id ==> {
                    &&& old(self)@[i].maker@ != maker@ ==> final(self)@ == old(self)@ && r == Err::<
                        (),
                        AppError,
                    >(AppError::Unauthorized)
                    &&& old(self)@[i].maker@ == maker@ && old(self)@[i].status
                        != OrderStatus::Open ==> final(self)@ == old(self)@ && (r matches Err(
                        AppError::Conflict(_),
                    ))
                    &&& old(self)@[i].maker@ == maker@ && old(self)@[i].status == OrderStatus::Open
                        ==> r is Ok && final(self)@ == old(self)@.update(
                        i,
                        with_status(old(self)@[i], OrderStatus::SoftCancelled, now),
                    )
                },
    {
        let decision = match self.get_order_by_id(id) {
            None => {
                return Err(AppError::NotFound);
            },
            Some(rec) => cancel_decision(rec, maker),
        };
        decision?;
        let ghost before = self@;
        self.soft_cancel_order(id, maker, now);
        proof {
            assert forall|i: int|
                0 <= i < before.len() && before[i].id == id && before[i].maker@ == maker@
                    && before[i].status == OrderStatus::Open implies self@ == before.update(
                i,
                with_status(before[i], OrderStatus::SoftCancelled, now),
            ) by {
                assert(self@ =~= before.update(
                    i,
                    with_status(before[i], OrderStatus::SoftCancelled, now),
                ));
            }
        }
        Ok(())
    }
}

} // verus!
