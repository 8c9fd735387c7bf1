//! What a quote session comes to, as a function of what the routes returned in it.

use crate::adapters::{Attempt, SwapMode};
use crate::adapters::RouteError;
use crate::allocation::{
    amounts, filled, lemma_schedule_total, lemma_tally_total, schedule, tally, total,
};
use crate::amount::modulus;
use crate::amount::Amount;
use crate::select::{is_round, lemma_winner_is_best, round_result, winner, QuoteError};
use vstd::arithmetic::div_mod::lemma_small_mod;
use vstd::prelude::*;

verus! {

/// One pass of a session: the amount that every route was asked to swap, and what each
/// route tried in turn came to.
pub struct Pass {
    pub size: nat,
    pub attempts: Seq<Attempt>,
}

/// The fill of a pass in which some route succeeded: the winning route and the
/// counterpart amount that it returned.
pub open spec fn pass_fill(pass: Pass, mode: SwapMode) -> (int, nat) {
    let w = winner(pass.attempts, mode)->0;
    (w, pass.attempts[w]->Ok_0.amount)
}

/// The fills of a sequence of passes.
pub open spec fn fills(passes: Seq<Pass>, mode: SwapMode) -> Seq<(int, nat)> {
    Seq::new(passes.len(), |k: int| pass_fill(passes[k], mode))
}

/// The traces that a session can leave: the passes are run in the order of their
/// sizes, each a round over all the routes; a pass is only run after all the passes
/// before it have found a winner; and the session ends with the last size or with the
/// first pass that fails.
pub open spec fn is_session(passes: Seq<Pass>, sizes: Seq<nat>, routes: nat, mode: SwapMode) -> bool {
    &&& passes.len() <= sizes.len()
    &&& forall|k: int|
        0 <= k < passes.len() ==> (#[trigger] passes[k]).size == sizes[k] && is_round(
            passes[k].attempts,
            routes,
        )
    &&& forall|k: int|
        0 <= k < passes.len() - 1 ==> round_result((#[trigger] passes[k]).attempts, mode) is Ok
    &&& passes.len() == sizes.len() || (passes.len() > 0 && round_result(
        passes.last().attempts,
        mode,
    ) is Err)
}

/// What a session comes to: the per-route totals of its fills; or, where its last pass
/// failed, that pass's error together with the totals of the passes before it.
pub open spec fn session_result(passes: Seq<Pass>, routes: nat, mode: SwapMode) -> Result<
    Seq<nat>,
    (QuoteError, Seq<nat>),
> {
    if passes.len() > 0 && round_result(passes.last().attempts, mode) is Err {
        Err(
            (
                round_result(passes.last().attempts, mode)->Err_0,
                tally(routes, fills(passes.drop_last(), mode)),
            ),
        )
    } else {
        Ok(tally(routes, fills(passes, mode)))
    }
}

/// A quote that failed: why, and the per-route totals of the passes that were filled
/// before it did.
#[derive(Debug, Clone)]
pub struct QuoteFailure {
    pub error: QuoteError,
    pub partial: Vec<Amount>,
}

/// The mathematical content of what a quote returns.
pub open spec fn quote_view(r: Result<Vec<Amount>, QuoteFailure>) -> Result<
    Seq<nat>,
    (QuoteError, Seq<nat>),
> {
    match r {
        Ok(totals) => Ok(amounts(totals@)),
        Err(failure) => Err((failure.error, amounts(failure.partial@))),
    }
}

/// Running one more pass extends the fills by that pass's fill.
pub proof fn lemma_fills_push(passes: Seq<Pass>, pass: Pass, mode: SwapMode)
    ensures
        fills(passes.push(pass), mode) == fills(passes, mode).push(pass_fill(pass, mode)),
        fills(passes.push(pass), mode).drop_last() == fills(passes, mode),
        passes.push(pass).drop_last() == passes,
{
}

/// Every fill of a session that ended well names one of the routes.
pub proof fn lemma_fills_in_range(passes: Seq<Pass>, sizes: Seq<nat>, routes: nat, mode: SwapMode)
    requires
        is_session(passes, sizes, routes, mode),
        session_result(passes, routes, mode) is Ok,
    ensures
        forall|k: int|
            0 <= k < passes.len() ==> 0 <= (#[trigger] fills(passes, mode)[k]).0 < routes,
{
    assert forall|k: int| 0 <= k < passes.len() implies 0 <= (#[trigger] fills(
        passes,
        mode,
    )[k]).0 < routes by {
        lemma_winner_is_best(passes[k].attempts, mode);
    }
}

/// The quote hands out what the passes returned: in a session that ended well and whose
/// fills together stay below 2^256, the per-route totals add up to the sum of the
/// counterpart amounts of the winners of its passes. And the passes consume the order:
/// their sizes add up to the amount quoted.
pub proof fn lemma_session_total(
    passes: Seq<Pass>,
    amount: nat,
    splits: nat,
    routes: nat,
    mode: SwapMode,
)
    requires
        splits > 0,
        is_session(passes, schedule(amount, splits), routes, mode),
        session_result(passes, routes, mode) is Ok,
        filled(fills(passes, mode)) < modulus(),
    ensures
        total(session_result(passes, routes, mode)->Ok_0) == filled(fills(passes, mode)),
        total(Seq::new(passes.len(), |k: int| passes[k].size)) == amount,
{
    lemma_fills_in_range(passes, schedule(amount, splits), routes, mode);
    lemma_tally_total(routes, fills(passes, mode));
    lemma_schedule_total(amount, splits);
    assert(Seq::new(passes.len(), |k: int| passes[k].size) =~= schedule(amount, splits));
}

/// One route, one split: the session is a single pass of the whole amount in which the
/// route runs once, and the quote is what the route returned for it, with no splitting
/// effect; a route that fails fails the quote, and nothing is filled.
pub proof fn lemma_single_route_single_split(passes: Seq<Pass>, amount: nat, mode: SwapMode)
    requires
        amount > 0,
        is_session(passes, schedule(amount, 1), 1, mode),
    ensures
        schedule(amount, 1) == seq![amount],
        passes.len() == 1,
        passes[0].size == amount,
        passes[0].attempts.len() == 1,
        session_result(passes, 1, mode) == match passes[0].attempts[0] {
            Ok(o) => Ok::<Seq<nat>, (QuoteError, Seq<nat>)>(seq![o.amount]),
            Err(RouteError::RouteUnavailable) => Err(
                (QuoteError::AllRoutesUnavailable, seq![0nat]),
            ),
            Err(RouteError::OracleUnavailable) => Err((QuoteError::OracleUnavailable, seq![0nat])),
        },
{
    reveal_with_fuel(winner, 2);
    assert(tally(1, Seq::empty()) =~= seq![0nat]);
    if let Ok(o) = passes[0].attempts[0] {
        assert(fills(passes, mode).drop_last() =~= Seq::empty());
        lemma_small_mod(o.amount, modulus());
        assert(tally(1, fills(passes, mode)) =~= seq![o.amount]);
    }
}

} // verus!
