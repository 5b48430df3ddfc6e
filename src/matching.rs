//! Matching a taker's intent: scoring the eligible orders, choosing a
//! covering set, reserving it, and reporting what was actually reserved.

use vstd::prelude::*;
use vstd::string::*;
use crate::decimal::{decimal_value, is_unsigned_decimal, parse_u64};
use crate::error::AppError;
use crate::models::{ActionType, OrderRecord, OrderStatus, TakerIntent};
use crate::scoring::{
    aggregate_orders, aggregation_of, available_of, clamp_u64, sat_sub, score_of, score_order, total_available,
    OrderScoreInput, ScoredOrderResult, ScoringAction,
};
use crate::store::{
    after_reservation, book_wf, eligible_rows, reservation_end, reserved_ids, takes_reservation,
    OrderBook,
};

verus! {

/// Response to a match request.
#[derive(Debug)]
pub struct MatchResponse {
    pub matches: Vec<MatchedOrder>,
    pub total_available_bps: u64,
    pub fully_covered: bool,
}

/// A single matched order in the response.
#[derive(Debug)]
pub struct MatchedOrder {
    pub order: OrderRecord,
    pub score: u64,
    pub available_bps: u64,
    /// How much of this order to fill for the intent.
    pub fill_bps: u64,
}

/// A stored decimal quantity as a `u64`, or zero when it is not one.
pub open spec fn quantity_or_zero(s: Seq<char>) -> u64 {
    if is_unsigned_decimal(s) && decimal_value(s) <= u64::MAX {
        decimal_value(s) as u64
    } else {
        0
    }
}

/// The scoring terms of a stored order. The stored terms carry no rate
/// field of their own, so the order's size figure (`bps`) serves as its
/// rate as well as its total; this keeps the long-standing behaviour of the
/// service rather than inventing a rate.
pub open spec fn terms_of(r: OrderRecord) -> OrderScoreInput {
    OrderScoreInput {
        rate_bps: quantity_or_zero(r.bps@),
        total_bps: quantity_or_zero(r.bps@),
        filled_bps: quantity_or_zero(r.filled_bps@),
    }
}

/// The scoring action for a taker's action.
pub open spec fn scoring_action_of(a: ActionType) -> ScoringAction {
    match a {
        ActionType::Borrow => ScoringAction::Borrow,
        ActionType::Lend => ScoringAction::Lend,
    }
}

/// The aggregated candidates whose orders were actually reserved, in
/// aggregation order.
pub open spec fn kept(
    agg: Seq<ScoredOrderResult>,
    candidates: Seq<OrderRecord>,
    reserved: Seq<u128>,
) -> Seq<ScoredOrderResult>
    decreases agg.len(),
{
    if agg.len() == 0 {
        agg
    } else {
        let rest = kept(agg.drop_last(), candidates, reserved);
        if reserved.contains(candidates[agg.last().index as int].id) {
            rest.push(agg.last())
        } else {
            rest
        }
    }
}

/// Whether `r` reports the aggregated candidates `agg` whose orders are in
/// `reserved`, in aggregation order: each with its order, score and
/// availability, fills handed out in order until the intent is used up, the
/// combined availability (saturated) as total, and full coverage exactly
/// when that availability reaches the intent.
pub open spec fn describes_matches(
    r: MatchResponse,
    candidates: Seq<OrderRecord>,
    agg: Seq<ScoredOrderResult>,
    reserved: Seq<u128>,
    intent_bps: u64,
) -> bool {
    {
        let kk = kept(agg, candidates, reserved);
        &&& r.matches@.len() == kk.len()
        &&& forall|k: int|
            0 <= k < kk.len() ==> {
                &&& (#[trigger] r.matches@[k]).order == candidates[kk[k].index as int]
                &&& r.matches@[k].score == kk[k].score
                &&& r.matches@[k].available_bps == kk[k].available_bps
                &&& r.matches@[k].fill_bps == if kk[k].available_bps <= sat_sub(
                    intent_bps as int,
                    total_available(kk.take(k)),
                ) {
                    kk[k].available_bps as int
                } else {
                    sat_sub(intent_bps as int, total_available(kk.take(k)))
                }
                &&& reserved.contains(r.matches@[k].order.id)
            }
        &&& r.total_available_bps == clamp_u64(total_available(kk))
        &&& r.fully_covered == (total_available(kk) >= intent_bps)
    }
}

/// The scored candidates, in candidate order.
pub open spec fn scored_of(candidates: Seq<OrderRecord>, action: ActionType, intent_bps: u64) -> Seq<
    ScoredOrderResult,
> {
    Seq::new(
        candidates.len(),
        |i: int|
            ScoredOrderResult {
                index: i as usize,
                score: score_of(
                    terms_of(candidates[i]),
                    scoring_action_of(action),
                    intent_bps as int,
                ) as u64,
                available_bps: available_of(terms_of(candidates[i])) as u64,
            },
    )
}

/// The ids of the candidates chosen by `agg`, in its order.
pub open spec fn chosen_of(candidates: Seq<OrderRecord>, agg: Seq<ScoredOrderResult>) -> Seq<u128> {
    Seq::new(agg.len(), |k: int| candidates[agg[k].index as int].id)
}

/// Whether an intent is well formed: a positive quantity on a named
/// inscription.
pub open spec fn intent_ok(intent: TakerIntent) -> bool {
    intent.bps > 0 && intent.inscription_id@.len() > 0
}

fn quantity(s: &str) -> (r: u64)
    ensures
        r == quantity_or_zero(s@),
{
    match parse_u64(s) {
        Some(v) => v,
        None => 0,
    }
}

/// The scoring terms of a stored order.
pub fn score_input(r: &OrderRecord) -> (t: OrderScoreInput)
    ensures
        t == terms_of(*r),
{
    let total = quantity(r.bps.as_str());
    OrderScoreInput { rate_bps: total, total_bps: total, filled_bps: quantity(r.filled_bps.as_str()) }
}

/// The scoring action for a taker's action.
pub fn scoring_action(a: ActionType) -> (r: ScoringAction)
    ensures
        r == scoring_action_of(a),
{
    match a {
        ActionType::Borrow => ScoringAction::Borrow,
        ActionType::Lend => ScoringAction::Lend,
    }
}

/// Check a taker's intent: the quantity must be positive and the
/// inscription named.
pub fn validate_intent(intent: &TakerIntent) -> (r: Result<(), AppError>)
    ensures
        r is Ok <==> intent_ok(*intent),
        intent.bps == 0 ==> (r matches Err(AppError::BadRequest(m)) && m@ == "bps must be > 0"@),
        intent.bps > 0 && intent.inscription_id@.len() == 0 ==> (r matches Err(
            AppError::BadRequest(m),
        ) && m@ == "inscription_id must be non-empty"@),
{
    if intent.bps == 0 {
        return Err(AppError::BadRequest(String::from_str("bps must be > 0")));
    }
    if intent.inscription_id.unicode_len() == 0 {
        return Err(AppError::BadRequest(String::from_str("inscription_id must be non-empty")));
    }
    Ok(())
}

/// Score every candidate against the intent, keeping each one's position.
pub fn score_candidates(candidates: &Vec<OrderRecord>, action: ActionType, intent_bps: u64) -> (r:
    Vec<ScoredOrderResult>)
    ensures
        r@ == scored_of(candidates@, action, intent_bps),
        r@.len() == candidates@.len(),
        forall|i: int|
            0 <= i < candidates@.len() ==> #[trigger] r@[i] == (ScoredOrderResult {
                index: i as usize,
                score: score_of(
                    terms_of(candidates@[i]),
                    scoring_action_of(action),
                    intent_bps as int,
                ) as u64,
                available_bps: available_of(terms_of(candidates@[i])) as u64,
            }),
{
    let act = scoring_action(action);
    let mut out: Vec<ScoredOrderResult> = Vec::new();
    let mut i: usize = 0;
    while i < candidates.len()
        invariant
            i <= candidates@.len(),
            act == scoring_action_of(action),
            out@.len() == i,
            forall|k: int|
                0 <= k < i ==> #[trigger] out@[k] == (ScoredOrderResult {
                    index: k as usize,
                    score: score_of(
                        terms_of(candidates@[k]),
                        scoring_action_of(action),
                        intent_bps as int,
                    ) as u64,
                    available_bps: available_of(terms_of(candidates@[k])) as u64,
                }),
        decreases candidates@.len() - i,
    {
        let input = score_input(&candidates[i]);
        let score = score_order(&input, &act, intent_bps);
        let available_bps = input.total_bps.saturating_sub(input.filled_bps);
        out.push(ScoredOrderResult { index: i, score, available_bps });
        i = i + 1;
    }
    proof {
        assert(out@ =~= scored_of(candidates@, action, intent_bps));
    }
    out
}

/// The ids of the candidates that aggregation chose, in its order.
pub fn chosen_ids(candidates: &Vec<OrderRecord>, aggregated: &Vec<ScoredOrderResult>) -> (r: Vec<
    u128,
>)
    requires
        forall|k: int| 0 <= k < aggregated@.len() ==> (#[trigger] aggregated@[k]).index < candidates@.len(),
    ensures
        r@ == chosen_of(candidates@, aggregated@),
{
    let mut out: Vec<u128> = Vec::new();
    let mut k: usize = 0;
    while k < aggregated.len()
        invariant
            k <= aggregated@.len(),
            forall|j: int| 0 <= j < aggregated@.len() ==> (#[trigger] aggregated@[j]).index < candidates@.len(),
            out@.len() == k,
            forall|j: int| 0 <= j < k ==> #[trigger] out@[j] == candidates@[aggregated@[j].index as int].id,
        decreases aggregated@.len() - k,
    {
        out.push(candidates[aggregated[k].index].id);
        k = k + 1;
    }
    proof {
        assert(out@ =~= chosen_of(candidates@, aggregated@));
    }
    out
}

/// Build the response from what was actually reserved: candidates whose
/// reservation failed are dropped, fills are handed out in order until the
/// intent is used up, and coverage reflects the reserved orders only.
pub fn build_matches(
    candidates: &Vec<OrderRecord>,
    aggregated: &Vec<ScoredOrderResult>,
    reserved: &Vec<u128>,
    intent_bps: u64,
) -> (r: MatchResponse)
    requires
        forall|k: int| 0 <= k < aggregated@.len() ==> (#[trigger] aggregated@[k]).index < candidates@.len(),
    ensures
        describes_matches(r, candidates@, aggregated@, reserved@, intent_bps),
{
    let ghost agg = aggregated@;
    let mut remaining: u64 = intent_bps;
    let mut total: u64 = 0;
    let mut matches: Vec<MatchedOrder> = Vec::new();
    let mut j: usize = 0;
    while j < aggregated.len()
        invariant
            agg == aggregated@,
            j <= agg.len(),
            forall|k: int| 0 <= k < agg.len() ==> (#[trigger] agg[k]).index < candidates@.len(),
            ({
                let kk = kept(agg.take(j as int), candidates@, reserved@);
                &&& matches@.len() == kk.len()
                &&& forall|k: int|
                    0 <= k < kk.len() ==> {
                        &&& (#[trigger] matches@[k]).order == candidates@[kk[k].index as int]
                        &&& matches@[k].score == kk[k].score
                        &&& matches@[k].available_bps == kk[k].available_bps
                        &&& matches@[k].fill_bps == if kk[k].available_bps <= sat_sub(
                            intent_bps as int,
                            total_available(kk.take(k)),
                        ) {
                            kk[k].available_bps as int
                        } else {
                            sat_sub(intent_bps as int, total_available(kk.take(k)))
                        }
                        &&& reserved@.contains(matches@[k].order.id)
                    }
                &&& total == clamp_u64(total_available(kk))
                &&& remaining == sat_sub(intent_bps as int, total_available(kk))
                &&& total_available(kk) >= 0
            }),
        decreases agg.len() - j,
    {
        let ghost before = kept(agg.take(j as int), candidates@, reserved@);
        proof {
            assert(agg.take(j + 1).drop_last() =~= agg.take(j as int));
        }
        let s = aggregated[j];
        let order = &candidates[s.index];
        if contains_id(reserved, order.id) {
            let available = s.available_bps;
            let fill_bps = if available <= remaining {
                available
            } else {
                remaining
            };
            remaining = remaining - fill_bps;
            total = total.saturating_add(available);
            matches.push(MatchedOrder { order: order.duplicate(), score: s.score, available_bps: available, fill_bps });
            proof {
                let kk = before.push(s);
                assert(kk.take(before.len() as int) =~= before);
                assert(kk.drop_last() =~= before);
                assert forall|k: int| 0 <= k < before.len() implies kk.take(k) =~= before.take(k) by {}
            }
        }
        j = j + 1;
    }
    proof {
        assert(agg.take(j as int) =~= agg);
    }
    let fully_covered = total >= intent_bps;
    MatchResponse { matches, total_available_bps: total, fully_covered }
}

/// The aggregation a match request makes at `now` over the store `s`.
pub open spec fn proposal_of(s: Seq<OrderRecord>, intent: TakerIntent, now: i64) -> Seq<
    ScoredOrderResult,
> {
    let cands = eligible_rows(s, intent.inscription_id@, now);
    aggregation_of(scored_of(cands, intent.action, intent.bps), intent.bps)
}

/// The ids a match request at `now` over the store `s` asks to reserve.
pub open spec fn proposed_ids(s: Seq<OrderRecord>, intent: TakerIntent, now: i64) -> Seq<u128> {
    chosen_of(eligible_rows(s, intent.inscription_id@, now), proposal_of(s, intent, now))
}

/// Two match requests that reach the store one after the other, the second
/// while the first one's reservations still hold, never report the same
/// order: each proposed order is reported by at most one of them.
pub proof fn lemma_competing_matches_disjoint(
    s: Seq<OrderRecord>,
    first: MatchResponse,
    first_candidates: Seq<OrderRecord>,
    first_agg: Seq<ScoredOrderResult>,
    first_ids: Seq<u128>,
    first_bps: u64,
    first_until: i64,
    first_now: i64,
    second: MatchResponse,
    second_candidates: Seq<OrderRecord>,
    second_agg: Seq<ScoredOrderResult>,
    second_ids: Seq<u128>,
    second_bps: u64,
    second_now: i64,
    i: int,
    j: int,
)
    requires
        book_wf(s),
        second_now <= first_until,
        describes_matches(
            first,
            first_candidates,
            first_agg,
            reserved_ids(s, first_ids, first_now),
            first_bps,
        ),
        describes_matches(
            second,
            second_candidates,
            second_agg,
            reserved_ids(
                after_reservation(s, first_ids, first_until, first_now),
                second_ids,
                second_now,
            ),
            second_bps,
        ),
        0 <= i < first.matches@.len(),
        0 <= j < second.matches@.len(),
    ensures
        first.matches@[i].order.id != second.matches@[j].order.id,
{
    let id = first.matches@[i].order.id;
    crate::store::lemma_reservation_exactly_once(
        s,
        first_ids,
        second_ids,
        first_until,
        first_now,
        second_now,
        id,
    );
    assert(reserved_ids(s, first_ids, first_now).contains(first.matches@[i].order.id));
    assert(reserved_ids(
        after_reservation(s, first_ids, first_until, first_now),
        second_ids,
        second_now,
    ).contains(second.matches@[j].order.id));
}

impl OrderBook {
    /// Match a taker's intent against the store at `now`: query the eligible
    /// orders, score and aggregate them, reserve the proposed ones for
    /// `ttl_secs` in one conditional step, and report only those whose
    /// reservation succeeded. A malformed intent is a `BadRequest` and
    /// touches nothing.
    pub fn match_intent(&mut self, intent: &TakerIntent, ttl_secs: u64, now: i64) -> (r: Result<
        MatchResponse,
        AppError,
    >)
        requires
            book_wf(old(self)@),
        ensures
            book_wf(final(self)@),
            r is Err <==> !intent_ok(*intent),
            !intent_ok(*intent) ==> final(self)@ == old(self)@ && (r matches Err(
                AppError::BadRequest(_),
            )),
            intent_ok(*intent) ==> final(self)@ == after_reservation(
                old(self)@,
                proposed_ids(old(self)@, *intent, now),
                reservation_end(now, ttl_secs),
                now,
            ),
            intent_ok(*intent) ==> (r matches Ok(resp) && describes_matches(
                resp,
                eligible_rows(old(self)@, intent.inscription_id@, now),
                proposal_of(old(self)@, *intent, now),
                reserved_ids(old(self)@, proposed_ids(old(self)@, *intent, now), now),
                intent.bps,
            )),
    {
        validate_intent(intent)?;
        let ghost s0 = self@;
        let candidates = self.query_open_orders(intent.inscription_id.as_str(), now);
        let empty = MatchResponse { matches: Vec::new(), total_available_bps: 0, fully_covered: false };
        if candidates.len() == 0 {
            proof {
                assert(scored_of(candidates@, intent.action, intent.bps) =~= Seq::<
                    ScoredOrderResult,
                >::empty());
                assert(proposal_of(s0, *intent, now) =~= Seq::<ScoredOrderResult>::empty());
                assert(proposed_ids(s0, *intent, now) =~= Seq::<u128>::empty());
                assert(s0 =~= after_reservation(
                    s0,
                    Seq::<u128>::empty(),
                    reservation_end(now, ttl_secs),
                    now,
                ));
                assert(kept(Seq::<ScoredOrderResult>::empty(), candidates@, reserved_ids(s0, Seq::<u128>::empty(), now)) =~= Seq::<ScoredOrderResult>::empty());
            }
            return Ok(empty);
        }
        let scored = score_candidates(&candidates, intent.action, intent.bps);
        let aggregated = aggregate_orders(scored, intent.bps);
        proof {
            crate::scoring::lemma_sort_by_score_permutes(scored@);
            crate::scoring::lemma_sort_by_score_descending(scored@);
            assert forall|k: int| 0 <= k < aggregated@.len() implies (
            #[trigger] aggregated@[k]).index < candidates@.len() by {
                let ss = crate::scoring::sort_by_score(scored@);
                assert(aggregated@[k] == ss[k]);
                assert(ss.to_multiset().count(ss[k]) > 0) by {
                    broadcast use vstd::seq_lib::group_to_multiset_ensures;

                    assert(ss.contains(ss[k]));
                }
                assert(scored@.contains(ss[k])) by {
                    broadcast use vstd::seq_lib::group_to_multiset_ensures;

                }
                let i = choose|i: int| 0 <= i < scored@.len() && scored@[i] == ss[k];
                assert(scored@[i].index == i);
            }
        }
        let ids = chosen_ids(&candidates, &aggregated);
        let reserved = self.reserve_orders(&ids, ttl_secs, now);
        let resp = build_matches(&candidates, &aggregated, &reserved, intent.bps);
        Ok(resp)
    }
}

/// Whether `id` is among `ids`.
fn contains_id(ids: &Vec<u128>, id: u128) -> (r: bool)
    ensures
        r == ids@.contains(id),
{
    let mut i: usize = 0;
    while i < ids.len()
        invariant
            i <= ids@.len(),
            forall|k: int| 0 <= k < i ==> ids@[k] != id,
        decreases ids@.len() - i,
    {
        if ids[i] == id {
            return true;
        }
        i = i + 1;
    }
    false
}

} // verus!
