//! Scoring of orders against a taker's intent, and greedy aggregation of
//! scored candidates until the intent is covered.

use vstd::prelude::*;

verus! {

/// Maximum basis points (100%).
pub const MAX_BPS: u64 = 10_000;

/// Lightweight input for scoring.
#[derive(Debug, Clone, Copy)]
pub struct OrderScoreInput {
    pub rate_bps: u64,
    pub total_bps: u64,
    pub filled_bps: u64,
}

/// A scored order with its index in the candidate list.
#[derive(Debug, Clone, Copy, PartialEq, Eq)]
pub struct ScoredOrderResult {
    pub index: usize,
    pub score: u64,
    pub available_bps: u64,
}

/// Action type for scoring context.
#[derive(Debug, Clone, Copy, PartialEq, Eq)]
pub enum ScoringAction {
    Borrow,
    Lend,
}

/// `a - b`, clamped at zero.
pub open spec fn sat_sub(a: int, b: int) -> int {
    if a >= b {
        a - b
    } else {
        0
    }
}

/// `x`, clamped to the range of `u64`.
pub open spec fn clamp_u64(x: int) -> int {
    if x > u64::MAX {
        u64::MAX as int
    } else {
        x
    }
}

/// Quantity of an order that is still available.
pub open spec fn available_of(order: OrderScoreInput) -> int {
    sat_sub(order.total_bps as int, order.filled_bps as int)
}

/// Rate component: Borrow prefers lower rates, Lend prefers higher ones.
pub open spec fn rate_component(order: OrderScoreInput, action: ScoringAction) -> int {
    match action {
        ScoringAction::Borrow => sat_sub(MAX_BPS as int, order.rate_bps as int),
        ScoringAction::Lend => order.rate_bps as int,
    }
}

/// Fill-fit component: full coverage scores `MAX_BPS`, partial coverage
/// scores proportionally (rounded toward zero).
pub open spec fn fill_fit(available: int, intent_bps: int) -> int {
    if available >= intent_bps {
        MAX_BPS as int
    } else {
        clamp_u64(available * MAX_BPS) / intent_bps
    }
}

/// The composite score: 80% rate component, 20% fill fit.
pub open spec fn score_of(order: OrderScoreInput, action: ScoringAction, intent_bps: int) -> int {
    let available = available_of(order);
    if available == 0 || intent_bps == 0 {
        0
    } else {
        clamp_u64(
            clamp_u64(rate_component(order, action) * 8) + fill_fit(available, intent_bps) * 2,
        ) / 10
    }
}

fn mul_saturating(a: u64, b: u64) -> (r: u64)
    ensures
        r == clamp_u64(a * b),
{
    match a.checked_mul(b) {
        Some(v) => v,
        None => u64::MAX,
    }
}

/// Compute a composite score for an order relative to a taker intent.
///
/// Higher is better for the taker; for rates within `MAX_BPS` the score lies
/// in `[0, MAX_BPS]`. Arithmetic saturates instead of overflowing.
pub fn score_order(order: &OrderScoreInput, action: &ScoringAction, intent_bps: u64) -> (r: u64)
    ensures
        r == score_of(*order, *action, intent_bps as int),
        available_of(*order) == 0 || intent_bps == 0 ==> r == 0,
        order.rate_bps <= MAX_BPS ==> r <= MAX_BPS,
{
    let available = order.total_bps.saturating_sub(order.filled_bps);

    if available == 0 || intent_bps == 0 {
        return 0;
    }
    let rate_score = match action {
        ScoringAction::Borrow => MAX_BPS.saturating_sub(order.rate_bps),
        ScoringAction::Lend => order.rate_bps,
    };

    let fill_fit = if available >= intent_bps {
        MAX_BPS
    } else {
        let scaled = mul_saturating(available, MAX_BPS);
        assert(scaled / intent_bps <= MAX_BPS) by (nonlinear_arith)
            requires
                scaled == clamp_u64(available * MAX_BPS),
                available < intent_bps,
                MAX_BPS == 10_000,
        ;
        scaled / intent_bps
    };
    let composite = mul_saturating(rate_score, 8).saturating_add(fill_fit * 2) / 10;
    composite
}

proof fn lemma_div10_monotone(a: int, b: int)
    requires
        0 <= b <= a,
    ensures
        b / 10 <= a / 10,
        b + 10 <= a ==> b / 10 < a / 10,
{
    assert(b / 10 <= a / 10) by (nonlinear_arith)
        requires
            0 <= b <= a,
    ;
    assert(b + 10 <= a ==> b / 10 < a / 10) by (nonlinear_arith)
        requires
            0 <= b <= a,
    ;
}

/// With the quantity terms held fixed and both some quantity available and
/// a nonzero intent, a Borrow score never rises and a Lend score never falls
/// as the rate rises (rates within `MAX_BPS`); a rise of two basis points or
/// more changes each of them strictly.
pub proof fn lemma_score_monotone_in_rate(
    total_bps: u64,
    filled_bps: u64,
    intent_bps: u64,
    low_rate: u64,
    high_rate: u64,
)
    requires
        filled_bps < total_bps,
        intent_bps > 0,
        low_rate < high_rate <= MAX_BPS,
    ensures
        ({
            let low = OrderScoreInput { rate_bps: low_rate, total_bps, filled_bps };
            let high = OrderScoreInput { rate_bps: high_rate, total_bps, filled_bps };
            &&& score_of(low, ScoringAction::Borrow, intent_bps as int) >= score_of(
                high,
                ScoringAction::Borrow,
                intent_bps as int,
            )
            &&& score_of(low, ScoringAction::Lend, intent_bps as int) <= score_of(
                high,
                ScoringAction::Lend,
                intent_bps as int,
            )
            &&& low_rate + 2 <= high_rate ==> score_of(
                low,
                ScoringAction::Borrow,
                intent_bps as int,
            ) > score_of(high, ScoringAction::Borrow, intent_bps as int)
            &&& low_rate + 2 <= high_rate ==> score_of(low, ScoringAction::Lend, intent_bps as int)
                < score_of(high, ScoringAction::Lend, intent_bps as int)
        }),
{
    let avail = total_bps - filled_bps;
    let f = fill_fit(avail, intent_bps as int);
    assert(0 <= f <= MAX_BPS) by (nonlinear_arith)
        requires
            f == fill_fit(avail, intent_bps as int),
            0 < avail,
            intent_bps > 0,
            MAX_BPS == 10_000,
    ;
    let bl = (MAX_BPS - low_rate) * 8 + f * 2;
    let bh = (MAX_BPS - high_rate) * 8 + f * 2;
    let ll = low_rate * 8 + f * 2;
    let lh = high_rate * 8 + f * 2;
    lemma_div10_monotone(bl, bh);
    lemma_div10_monotone(lh, ll);
}

/// Stable insertion of `x` into a sequence ordered by descending score:
/// `x` goes after every element whose score is at least its own.
pub open spec fn insert_by_score(s: Seq<ScoredOrderResult>, x: ScoredOrderResult) -> Seq<
    ScoredOrderResult,
>
    decreases s.len(),
{
    if s.len() == 0 {
        seq![x]
    } else if s.last().score >= x.score {
        s.push(x)
    } else {
        insert_by_score(s.drop_last(), x).push(s.last())
    }
}

/// The candidates in stable descending order of score: equal scores keep
/// their relative order in the input.
pub open spec fn sort_by_score(s: Seq<ScoredOrderResult>) -> Seq<ScoredOrderResult>
    decreases s.len(),
{
    if s.len() == 0 {
        s
    } else {
        insert_by_score(sort_by_score(s.drop_last()), s.last())
    }
}

/// Combined available quantity of a sequence of candidates.
pub open spec fn total_available(s: Seq<ScoredOrderResult>) -> int
    decreases s.len(),
{
    if s.len() == 0 {
        0
    } else {
        total_available(s.drop_last()) + s.last().available_bps
    }
}

/// Whether a sequence is ordered by descending score.
pub open spec fn descending_by_score(s: Seq<ScoredOrderResult>) -> bool {
    forall|i: int, j: int| 0 <= i < j < s.len() ==> s[i].score >= s[j].score
}

proof fn lemma_insert_at(s: Seq<ScoredOrderResult>, x: ScoredOrderResult, j: int)
    requires
        0 < j <= s.len(),
        s[j - 1].score < x.score,
    ensures
        insert_by_score(s.take(j), x) + s.skip(j) == insert_by_score(s.take(j - 1), x) + s.skip(
            j - 1,
        ),
{
    assert(s.take(j).drop_last() =~= s.take(j - 1));
    assert(s.take(j).last() == s[j - 1]);
    let a = insert_by_score(s.take(j - 1), x);
    assert(a.push(s[j - 1]) + s.skip(j) =~= a + s.skip(j - 1));
}

proof fn lemma_insert_preserves_order(s: Seq<ScoredOrderResult>, x: ScoredOrderResult)
    requires
        descending_by_score(s),
    ensures
        descending_by_score(insert_by_score(s, x)),
        insert_by_score(s, x).len() == s.len() + 1,
        s.len() > 0 ==> insert_by_score(s, x).last() == s.last() || insert_by_score(s, x).last()
            == x,
    decreases s.len(),
{
    if s.len() > 0 && s.last().score < x.score {
        let t = s.drop_last();
        lemma_insert_preserves_order(t, x);
        let r = insert_by_score(t, x);
        if t.len() > 0 {
            assert(r.last() == t.last() || r.last() == x);
        } else {
            assert(r =~= seq![x]);
        }
    }
}

/// Sorting by score yields a sequence in descending order of score.
pub proof fn lemma_sort_by_score_descending(s: Seq<ScoredOrderResult>)
    ensures
        descending_by_score(sort_by_score(s)),
        sort_by_score(s).len() == s.len(),
    decreases s.len(),
{
    if s.len() > 0 {
        lemma_sort_by_score_descending(s.drop_last());
        lemma_insert_preserves_order(sort_by_score(s.drop_last()), s.last());
    }
}

proof fn lemma_insert_multiset(s: Seq<ScoredOrderResult>, x: ScoredOrderResult)
    ensures
        insert_by_score(s, x).to_multiset() == s.to_multiset().insert(x),
        total_available(insert_by_score(s, x)) == total_available(s) + x.available_bps,
    decreases s.len(),
{
    broadcast use vstd::seq_lib::group_to_multiset_ensures;

    if s.len() == 0 {
        assert(seq![x] =~= s.push(x));
        assert(s.push(x).drop_last() =~= s);
    } else if s.last().score >= x.score {
        assert(s.push(x).drop_last() =~= s);
    } else {
        let t = s.drop_last();
        lemma_insert_multiset(t, x);
        let r = insert_by_score(t, x);
        assert(r.push(s.last()).drop_last() =~= r);
        assert(t.push(s.last()) =~= s);
        assert(s.to_multiset() == t.to_multiset().insert(s.last()));
        assert(r.push(s.last()).to_multiset() =~= s.to_multiset().insert(x));
    }
}

/// Sorting by score only reorders: the same candidates, the same combined
/// availability.
pub proof fn lemma_sort_by_score_permutes(s: Seq<ScoredOrderResult>)
    ensures
        sort_by_score(s).to_multiset() == s.to_multiset(),
        total_available(sort_by_score(s)) == total_available(s),
    decreases s.len(),
{
    broadcast use vstd::seq_lib::group_to_multiset_ensures;

    if s.len() > 0 {
        let t = s.drop_last();
        lemma_sort_by_score_permutes(t);
        lemma_insert_multiset(sort_by_score(t), s.last());
        assert(t.push(s.last()) =~= s);
    }
}

/// Length of the shortest prefix of `s`, from `k` on, whose combined
/// availability reaches `intent_bps`; all of `s` when none does.
pub open spec fn cover_from(s: Seq<ScoredOrderResult>, intent_bps: int, k: int) -> int
    decreases s.len() - k,
{
    if k >= s.len() {
        s.len() as int
    } else if total_available(s.take(k)) >= intent_bps {
        k
    } else {
        cover_from(s, intent_bps, k + 1)
    }
}

/// What aggregation selects: nothing for a zero intent; otherwise the
/// shortest prefix of the candidates in stable descending score order that
/// covers the intent, or all of them.
pub open spec fn aggregation_of(candidates: Seq<ScoredOrderResult>, intent_bps: u64) -> Seq<
    ScoredOrderResult,
> {
    if intent_bps == 0 {
        Seq::empty()
    } else {
        let ss = sort_by_score(candidates);
        ss.take(cover_from(ss, intent_bps as int, 0))
    }
}

proof fn lemma_cover_from(s: Seq<ScoredOrderResult>, intent_bps: int, n: int, j: int)
    requires
        0 <= j <= n <= s.len(),
        forall|k: int| 0 <= k < n ==> total_available(#[trigger] s.take(k)) < intent_bps,
        n == s.len() || total_available(s.take(n)) >= intent_bps,
    ensures
        cover_from(s, intent_bps, j) == n,
    decreases n - j,
{
    if j < n {
        lemma_cover_from(s, intent_bps, n, j + 1);
    }
}

/// Stable sort of the candidates by descending score (insertion sort).
fn sort_candidates(candidates: &Vec<ScoredOrderResult>) -> (r: Vec<ScoredOrderResult>)
    ensures
        r@ == sort_by_score(candidates@),
{
    let mut sorted: Vec<ScoredOrderResult> = Vec::new();
    let n = candidates.len();
    let mut i: usize = 0;
    while i < n
        invariant
            n == candidates@.len(),
            i <= n,
            sorted@ == sort_by_score(candidates@.take(i as int)),
        decreases n - i,
    {
        let x = candidates[i];
        proof {
            assert(candidates@.take(i + 1).drop_last() =~= candidates@.take(i as int));
            assert(candidates@.take(i + 1).last() == x);
            lemma_sort_by_score_descending(candidates@.take(i as int));
        }
        let ghost s = sorted@;
        proof {
            assert(s.take(s.len() as int) =~= s);
            assert(s + s.skip(s.len() as int) =~= s);
        }
        let mut j: usize = sorted.len();
        while j > 0 && sorted[j - 1].score < x.score
            invariant
                sorted@ == s,
                j <= s.len(),
                insert_by_score(s.take(j as int), x) + s.skip(j as int) == insert_by_score(s, x),
            decreases j,
        {
            proof {
                lemma_insert_at(s, x, j as int);
            }
            j = j - 1;
        }
        proof {
            if j > 0 {
                assert(s.take(j as int).last() == s[j - 1]);
            }
            assert(s.take(j as int).push(x) + s.skip(j as int) =~= s.insert(j as int, x));
            assert(seq![x] + s.skip(0) =~= s.insert(0, x));
        }
        sorted.insert(j, x);
        i = i + 1;
    }
    proof {
        assert(candidates@.take(n as int) =~= candidates@);
    }
    sorted
}

/// Greedily aggregate orders by score until the intent amount is covered.
///
/// Candidates are taken in stable descending order of score; the result is
/// the shortest such prefix whose combined availability reaches
/// `intent_bps` (the candidate that crosses it is included whole), or all
/// candidates when even together they fall short.
pub fn aggregate_orders(candidates: Vec<ScoredOrderResult>, intent_bps: u64) -> (r: Vec<
    ScoredOrderResult,
>)
    ensures
        r@ == aggregation_of(candidates@, intent_bps),
        intent_bps == 0 ==> r@.len() == 0,
        r@.len() <= candidates@.len(),
        intent_bps > 0 ==> r@ == sort_by_score(candidates@).take(r@.len() as int),
        intent_bps > 0 ==> forall|k: int|
            0 <= k < r@.len() ==> total_available(
                #[trigger] sort_by_score(candidates@).take(k),
            ) < intent_bps,
        intent_bps > 0 ==> r@.len() == candidates@.len() || total_available(r@) >= intent_bps,
        descending_by_score(r@),
        total_available(candidates@) < intent_bps ==> r@.len() == candidates@.len(),
{
    proof {
        lemma_total_available_nonneg(candidates@);
    }
    if intent_bps == 0 {
        return Vec::new();
    }
    let sorted = sort_candidates(&candidates);
    let ghost ss = sorted@;
    proof {
        lemma_sort_by_score_descending(candidates@);
        lemma_sort_by_score_permutes(candidates@);
    }
    let n = sorted.len();
    let mut accumulated: u64 = 0;
    let mut result: Vec<ScoredOrderResult> = Vec::new();
    let mut i: usize = 0;
    while i < n && accumulated < intent_bps
        invariant
            ss == sorted@,
            n == ss.len(),
            i <= n,
            result@ == ss.take(i as int),
            accumulated == clamp_u64(total_available(ss.take(i as int))),
            total_available(ss.take(i as int)) >= 0,
            forall|k: int| 0 <= k < i ==> total_available(#[trigger] ss.take(k)) < intent_bps,
        decreases n - i,
    {
        let c = sorted[i];
        proof {
            assert(ss.take(i + 1).drop_last() =~= ss.take(i as int));
            assert(result@.push(c) =~= ss.take(i + 1));
        }
        accumulated = accumulated.saturating_add(c.available_bps);
        result.push(c);
        i = i + 1;
    }
    proof {
        assert(ss.take(n as int) =~= ss);
        assert(result@.len() == i);
        assert forall|a: int, b: int| 0 <= a < b < result@.len() implies result@[a].score
            >= result@[b].score by {
            assert(result@[a] == ss[a] && result@[b] == ss[b]);
        }
        if total_available(candidates@) < intent_bps && i < n {
            lemma_total_available_prefix_monotone(ss, i as int);
        }
        lemma_cover_from(ss, intent_bps as int, i as int, 0);
    }
    result
}

proof fn lemma_total_available_nonneg(s: Seq<ScoredOrderResult>)
    ensures
        total_available(s) >= 0,
    decreases s.len(),
{
    if s.len() > 0 {
        lemma_total_available_nonneg(s.drop_last());
    }
}

proof fn lemma_total_available_prefix_monotone(s: Seq<ScoredOrderResult>, k: int)
    requires
        0 <= k <= s.len(),
    ensures
        total_available(s.take(k)) <= total_available(s),
    decreases s.len() - k,
{
    if k < s.len() {
        lemma_total_available_prefix_monotone(s, k + 1);
        assert(s.take(k + 1).drop_last() =~= s.take(k));
    } else {
        assert(s.take(k) =~= s);
    }
}

} // verus!
