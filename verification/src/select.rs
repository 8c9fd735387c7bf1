//! Choosing the best of the routes that were tried in one round.

use crate::adapters::{Attempt, Outcome, RouteError, SwapMode, SwapOutput};
use crate::amount::{modulus, Amount};
use revm::primitives::EvmState;
use vstd::prelude::*;

verus! {

/// Why a quote could not be given.
#[derive(Debug, Clone, Copy, PartialEq, Eq, Structural)]
pub enum QuoteError {
    /// The amount or the number of splits is zero.
    ArithmeticInvalid,
    /// Every candidate route failed for the amount of one pass.
    AllRoutesUnavailable,
    /// A route could not read the chain state behind the ledger.
    OracleUnavailable,
}

/// Whether a counterpart amount of `candidate` is strictly better than one of
/// `incumbent`: more output when swapping in, less input when swapping out.
pub open spec fn improves(mode: SwapMode, candidate: nat, incumbent: nat) -> bool {
    match mode {
        SwapMode::In => candidate > incumbent,
        SwapMode::Out => candidate < incumbent,
    }
}

/// The route that a round of attempts selects, if any succeeded: scanning in route
/// order, the first success is taken, and a later one replaces it only where it is
/// strictly better.
pub open spec fn winner(attempts: Seq<Attempt>, mode: SwapMode) -> Option<int>
    decreases attempts.len(),
{
    if attempts.len() == 0 {
        None
    } else {
        let earlier = winner(attempts.drop_last(), mode);
        match (attempts.last(), earlier) {
            (Err(_), _) => earlier,
            (Ok(_), None) => Some(attempts.len() - 1),
            (Ok(o), Some(b)) => if improves(mode, o.amount, attempts[b]->Ok_0.amount) {
                Some(attempts.len() - 1)
            } else {
                Some(b)
            },
        }
    }
}

/// What it means for route `i` to be the best of a round: it succeeded, it is strictly
/// better than every success before it, and no success after it is strictly better.
pub open spec fn is_winner(attempts: Seq<Attempt>, mode: SwapMode, i: int) -> bool {
    &&& 0 <= i < attempts.len()
    &&& attempts[i] is Ok
    &&& forall|j: int|
        0 <= j < i && attempts[j] is Ok ==> improves(
            mode,
            attempts[i]->Ok_0.amount,
            (#[trigger] attempts[j])->Ok_0.amount,
        )
    &&& forall|j: int|
        i < j < attempts.len() && attempts[j] is Ok ==> !improves(
            mode,
            (#[trigger] attempts[j])->Ok_0.amount,
            attempts[i]->Ok_0.amount,
        )
}

/// The selected route is the best of the round, with ties going to the earliest route;
/// no route is selected exactly when every attempt failed.
pub proof fn lemma_winner_is_best(attempts: Seq<Attempt>, mode: SwapMode)
    ensures
        match winner(attempts, mode) {
            Some(i) => is_winner(attempts, mode, i),
            None => forall|j: int| 0 <= j < attempts.len() ==> (#[trigger] attempts[j]) is Err,
        },
    decreases attempts.len(),
{
    if attempts.len() > 0 {
        let front = attempts.drop_last();
        lemma_winner_is_best(front, mode);
        assert(forall|j: int| 0 <= j < front.len() ==> front[j] == attempts[j]);
    }
}

/// Only one route can be the best of a round.
pub proof fn lemma_winner_unique(attempts: Seq<Attempt>, mode: SwapMode, i: int, k: int)
    requires
        is_winner(attempts, mode, i),
        is_winner(attempts, mode, k),
    ensures
        i == k,
{
}

/// The best of a round when swapping in returns at least as much as every route that
/// succeeded; when swapping out it asks for at most as much.
pub proof fn lemma_winner_is_optimal(attempts: Seq<Attempt>, mode: SwapMode, j: int)
    requires
        0 <= j < attempts.len(),
        attempts[j] is Ok,
    ensures
        winner(attempts, mode) is Some,
        match mode {
            SwapMode::In => attempts[winner(attempts, mode)->0]->Ok_0.amount
                >= attempts[j]->Ok_0.amount,
            SwapMode::Out => attempts[winner(attempts, mode)->0]->Ok_0.amount
                <= attempts[j]->Ok_0.amount,
        },
{
    lemma_winner_is_best(attempts, mode);
}

/// Whether a round ended because a route could not read the chain state.
pub open spec fn oracle_failed(attempts: Seq<Attempt>) -> bool {
    attempts.len() > 0 && attempts.last() == Err::<Outcome, RouteError>(
        RouteError::OracleUnavailable,
    )
}

/// The traces that a round over `routes` routes can leave: the routes are tried in
/// order, each once; what a route returns is an amount, so below 2^256; and the round
/// stops after the first route that could not read the chain state.
pub open spec fn is_round(attempts: Seq<Attempt>, routes: nat) -> bool {
    &&& attempts.len() <= routes
    &&& forall|j: int|
        0 <= j < attempts.len() && attempts[j] is Ok ==> (#[trigger] attempts[j])->Ok_0.amount
            < modulus()
    &&& forall|j: int|
        0 <= j < attempts.len() - 1 ==> (#[trigger] attempts[j]) != Err::<Outcome, RouteError>(
            RouteError::OracleUnavailable,
        )
    &&& attempts.len() == routes || oracle_failed(attempts)
}

/// What a round comes to: the winning route's index and outcome; or
/// `OracleUnavailable` where the chain state could not be read; or
/// `AllRoutesUnavailable` where no route succeeded.
pub open spec fn round_result(attempts: Seq<Attempt>, mode: SwapMode) -> Result<
    (int, Outcome),
    QuoteError,
> {
    if oracle_failed(attempts) {
        Err(QuoteError::OracleUnavailable)
    } else {
        match winner(attempts, mode) {
            Some(i) => Ok((i, attempts[i]->Ok_0)),
            None => Err(QuoteError::AllRoutesUnavailable),
        }
    }
}

/// The mathematical content of a selected route: its index and its outcome.
pub open spec fn selected_view(best: (usize, Amount, EvmState)) -> (int, Outcome) {
    (best.0 as int, Outcome { amount: best.1@, delta: best.2@ })
}

/// One step of the scan: the route at `index` has succeeded with `output`, and `best`
/// is what the scan held before it. The new route is taken when nothing was held or
/// when it is strictly better; otherwise what was held stays.
pub fn keep_better(
    best: Option<(usize, Amount, EvmState)>,
    index: usize,
    output: SwapOutput,
    mode: SwapMode,
) -> (r: (usize, Amount, EvmState))
    ensures
        r == match best {
            None => (index, output.amount, output.state),
            Some(held) => if improves(mode, output.amount@, held.1@) {
                (index, output.amount, output.state)
            } else {
                held
            },
        },
{
    match best {
        None => (index, output.amount, output.state),
        Some(held) => {
            let better = match mode {
                SwapMode::In => output.amount.gt(&held.1),
                SwapMode::Out => output.amount.lt(&held.1),
            };
            if better {
                (index, output.amount, output.state)
            } else {
                held
            }
        },
    }
}

/// One step of a round, for whatever the route at `index` came to: a success goes
/// through [`keep_better`]; a route that is unavailable is passed over, and what was
/// held stays; a route that could not read the chain state ends the round with
/// `OracleUnavailable`.
pub fn scan(
    best: Option<(usize, Amount, EvmState)>,
    index: usize,
    attempt: Result<SwapOutput, RouteError>,
    mode: SwapMode,
) -> (r: Result<Option<(usize, Amount, EvmState)>, QuoteError>)
    ensures
        r == match attempt {
            Ok(output) => Ok::<Option<(usize, Amount, EvmState)>, QuoteError>(
                Some(
                    match best {
                        None => (index, output.amount, output.state),
                        Some(held) => if improves(mode, output.amount@, held.1@) {
                            (index, output.amount, output.state)
                        } else {
                            held
                        },
                    },
                ),
            ),
            Err(RouteError::RouteUnavailable) => Ok(best),
            Err(RouteError::OracleUnavailable) => Err(QuoteError::OracleUnavailable),
        },
{
    match attempt {
        Ok(output) => Ok(Some(keep_better(best, index, output, mode))),
        Err(RouteError::RouteUnavailable) => Ok(best),
        Err(RouteError::OracleUnavailable) => Err(QuoteError::OracleUnavailable),
    }
}

/// The end of a round in which every route was tried: what is held is the winner, and
/// with nothing held the round fails with `AllRoutesUnavailable`.
pub fn concluded(best: Option<(usize, Amount, EvmState)>) -> (r: Result<
    (usize, Amount, EvmState),
    QuoteError,
>)
    ensures
        r == match best {
            Some(found) => Ok::<(usize, Amount, EvmState), QuoteError>(found),
            None => Err(QuoteError::AllRoutesUnavailable),
        },
{
    match best {
        Some(found) => Ok(found),
        None => Err(QuoteError::AllRoutesUnavailable),
    }
}

} // verus!
