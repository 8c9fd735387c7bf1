//! Price impact. The router commits the winner of a pass before it prices the next
//! pass, so in a market where a route never gets better by being used, a route that
//! wins twice in a row does not do better the second time.

use crate::adapters::{Attempt, Outcome, RouteError, SwapMode};
use crate::ledger::Delta;
use crate::select::{improves, lemma_winner_is_best, round_result};
use crate::session::{is_session, pass_fill, Pass};
use vstd::prelude::*;

verus! {

/// A market in which what a route returns is a function of the ledger: `attempt` gives
/// what route `i` returns for an amount and a direction on a ledger in state `S`, and
/// `commit` the state of the ledger after a state delta is committed into it.
#[verifier::reject_recursive_types(S)]
pub struct Market<S> {
    pub routes: nat,
    pub attempt: spec_fn(S, int, nat, SwapMode) -> Attempt,
    pub commit: spec_fn(S, Delta) -> S,
}

/// The state of the ledger on which pass `k` of a session is priced: the state at the
/// start, with the state delta of the winner of every pass before `k` committed in
/// turn.
pub open spec fn ledger_before<S>(
    market: Market<S>,
    start: S,
    passes: Seq<Pass>,
    mode: SwapMode,
    k: nat,
) -> S
    decreases k,
{
    if k == 0 {
        start
    } else {
        let earlier = ledger_before(market, start, passes, mode, (k - 1) as nat);
        match round_result(passes[k - 1].attempts, mode) {
            Ok((_, o)) => (market.commit)(earlier, o.delta),
            Err(_) => earlier,
        }
    }
}

/// Whether a session is one of the market: every attempt of every pass is what the
/// market gives for that route and that pass's size on the ledger as it stands before
/// the pass.
pub open spec fn follows<S>(market: Market<S>, start: S, passes: Seq<Pass>, mode: SwapMode) -> bool {
    forall|k: int, i: int|
        0 <= k < passes.len() && 0 <= i < passes[k].attempts.len() ==> #[trigger] passes[k].attempts[i]
            == (market.attempt)(
            ledger_before(market, start, passes, mode, k as nat),
            i,
            passes[k].size,
            mode,
        )
}

/// Whether no route of the market gets better by being used: where a route succeeds and
/// its state delta is committed, the same route asked again for the same amount does not
/// return a strictly better amount.
pub open spec fn non_improving<S>(market: Market<S>, mode: SwapMode) -> bool {
    forall|s: S, i: int, a: nat, o: Outcome|
        #![trigger (market.attempt)(s, i, a, mode), (market.commit)(s, o.delta)]
        (market.attempt)(s, i, a, mode) == Ok::<Outcome, RouteError>(o) ==> match (market.attempt)(
            (market.commit)(s, o.delta),
            i,
            a,
            mode,
        ) {
            Ok(again) => !improves(mode, again.amount, o.amount),
            Err(_) => true,
        }
}

/// Monotonic impact: in a market where no route gets better by being used, a route that
/// wins two passes of the same size in a row does not return a strictly better amount
/// the second time. Swapping in, the second win brings at most what the first brought.
pub proof fn lemma_monotonic_impact<S>(
    market: Market<S>,
    start: S,
    passes: Seq<Pass>,
    sizes: Seq<nat>,
    mode: SwapMode,
    k: int,
)
    requires
        is_session(passes, sizes, market.routes, mode),
        follows(market, start, passes, mode),
        non_improving(market, mode),
        0 <= k,
        k + 1 < passes.len(),
        passes[k].size == passes[k + 1].size,
        round_result(passes[k + 1].attempts, mode) is Ok,
        pass_fill(passes[k], mode).0 == pass_fill(passes[k + 1], mode).0,
    ensures
        !improves(mode, pass_fill(passes[k + 1], mode).1, pass_fill(passes[k], mode).1),
        mode == SwapMode::In ==> pass_fill(passes[k + 1], mode).1 <= pass_fill(
            passes[k],
            mode,
        ).1,
{
    let first = passes[k].attempts;
    let second = passes[k + 1].attempts;
    assert(round_result(first, mode) is Ok);
    lemma_winner_is_best(first, mode);
    lemma_winner_is_best(second, mode);
    let w = pass_fill(passes[k], mode).0;
    let o = first[w]->Ok_0;
    let size = passes[k].size;
    let here = ledger_before(market, start, passes, mode, k as nat);
    let next = ledger_before(market, start, passes, mode, (k + 1) as nat);
    assert(next == (market.commit)(here, o.delta));
    assert(passes[k].attempts[w] == (market.attempt)(here, w, size, mode));
    assert(passes[k + 1].attempts[w] == (market.attempt)(next, w, size, mode));
}

} // verus!
