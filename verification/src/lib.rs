//! An off-chain swap-quoting engine: it simulates a swap along several competing routes
//! against one ledger and splits an order across them, committing each winning route's
//! state delta before the next part is priced.

use crate::adapters::path::PathAdapter;
use crate::adapters::{attempt_view, Attempt, Outcome, SwapMode};
use crate::allocation::{amounts, credit, schedule, split_evenly, tally, zero_totals};
use crate::amount::{lemma_limbs_value_bounded, Amount};
use crate::ledger::commit_state;
use crate::select::{
    concluded, is_round, lemma_winner_is_best, oracle_failed, round_result, scan, selected_view,
    winner, QuoteError,
};
use crate::session::{
    fills, is_session, lemma_fills_push, quote_view, session_result, Pass, QuoteFailure,
};
use revm::db::CacheDB;
use revm::primitives::EvmState;
use vstd::prelude::*;

pub mod adapters;
pub mod allocation;
pub mod amount;
pub mod chain;
pub mod ledger;
pub mod market;
pub mod route;
pub mod select;
pub mod session;
pub mod venue;

verus! {

/// The candidate routes of a quote session and the ledger that they are priced against.
pub struct Aggregator<L, P> {
    /// The ledger. Routes execute against it; only the aggregator commits into it.
    pub evm: L,
    /// The candidate routes, in a fixed order.
    pub paths: Vec<P>,
}

/// The mathematical content of what [`Aggregator::quote_best`] returns.
pub open spec fn best_view(r: Result<(usize, Amount, EvmState), QuoteError>) -> Result<
    (int, Outcome),
    QuoteError,
> {
    match r {
        Ok(best) => Ok(selected_view(best)),
        Err(e) => Err(e),
    }
}

impl<L, P: PathAdapter<L>> Aggregator<L, P> {
    /// Runs one round: executes every candidate route for `amount` against the ledger
    /// as it stands and returns the index, counterpart amount and state delta of the
    /// best one. Nothing is committed.
    ///
    /// A zero amount is refused as `ArithmeticInvalid` before any route runs, and with
    /// no routes there is nothing to run: in both cases the ledger and the routes are
    /// left as they were. What a route returns goes through [`scan`], which passes over
    /// a route that is unavailable and ends the round on one that cannot read the chain
    /// state; after the last route, [`concluded`] gives the result. For whatever the
    /// routes return, the result is the one that [`round_result`] gives for their
    /// attempts.
    pub fn quote_best(&mut self, amount: Amount, mode: SwapMode) -> (r: Result<
        (usize, Amount, EvmState),
        QuoteError,
    >)
        ensures
            final(self).paths.len() == old(self).paths.len(),
            amount@ == 0 <==> r == Err::<(usize, Amount, EvmState), QuoteError>(
                QuoteError::ArithmeticInvalid,
            ),
            amount@ > 0 && old(self).paths.len() == 0 ==> r == Err::<
                (usize, Amount, EvmState),
                QuoteError,
            >(QuoteError::AllRoutesUnavailable),
            r matches Ok(best) ==> best.0 < old(self).paths.len(),
            amount@ == 0 || old(self).paths.len() == 0 ==> *final(self) == *old(self),
            amount@ > 0 ==> exists|attempts: Seq<Attempt>|
                is_round(attempts, old(self).paths.len() as nat) && #[trigger] round_result(
                    attempts,
                    mode,
                ) == best_view(r),
    {
        if amount.is_zero() {
            return Err(QuoteError::ArithmeticInvalid);
        }
        let routes: usize = self.paths.len();
        let mut best: Option<(usize, Amount, EvmState)> = None;
        let ghost mut seen: Seq<Attempt> = Seq::empty();
        let mut index: usize = 0;
        while index < routes
            invariant
                amount@ > 0,
                index <= routes,
                self.paths.len() == routes,
                old(self).paths.len() == routes,
                index == 0 ==> *self == *old(self),
                seen.len() == index,
                is_round(seen, index as nat),
                !oracle_failed(seen),
                match winner(seen, mode) {
                    Some(w) => best is Some && 0 <= w < seen.len() && seen[w] is Ok
                        && selected_view(best->0) == (w, seen[w]->Ok_0),
                    None => best is None,
                },
            decreases routes - index,
        {
            let attempt = self.paths[index].swap(&mut self.evm, amount, mode);
            let ghost before = seen;
            proof {
                seen = before.push(attempt_view(attempt));
                assert(seen.drop_last() == before);
                if attempt is Ok {
                    lemma_limbs_value_bounded(attempt->Ok_0.amount.limbs);
                }
            }
            match scan(best, index, attempt, mode) {
                Ok(held) => {
                    best = held;
                },
                Err(error) => {
                    assert(round_result(seen, mode) == Err::<(int, Outcome), QuoteError>(error));
                    return Err(error);
                },
            }
            index += 1;
        }
        let r = concluded(best);
        assert(round_result(seen, mode) == best_view(r));
        r
    }
}

impl<ExtDB, P: PathAdapter<CacheDB<ExtDB>>> Aggregator<CacheDB<ExtDB>, P> {
    /// Quotes `amount` cut `splits` ways: the passes that [`schedule`] gives are run in
    /// order, each a round over all the routes; the winner of a pass is credited with
    /// the counterpart amount that it returned, and its state delta is committed into
    /// the ledger before the next pass is priced. The result is the total per route, in
    /// the order of the routes.
    ///
    /// A zero amount or zero splits are refused as `ArithmeticInvalid` before any route
    /// runs, and the ledger and the routes are left as they were. A pass without a
    /// winner ends the quote with that pass's error and the totals of the passes before
    /// it. For whatever the routes return, the result is the one that [`session_result`]
    /// gives for their attempts.
    pub fn quote(&mut self, amount: Amount, mode: SwapMode, splits: usize) -> (r: Result<
        Vec<Amount>,
        QuoteFailure,
    >)
        ensures
            final(self).paths.len() == old(self).paths.len(),
            splits == 0 || amount@ == 0 ==> *final(self) == *old(self),
            splits == 0 || amount@ == 0 ==> quote_view(r) == Err::<
                Seq<nat>,
                (QuoteError, Seq<nat>),
            >((QuoteError::ArithmeticInvalid, tally(old(self).paths.len() as nat, Seq::empty()))),
            splits > 0 && amount@ > 0 ==> !(r matches Err(failure) && failure.error
                == QuoteError::ArithmeticInvalid),
            splits > 0 && amount@ > 0 && old(self).paths.len() == 0 ==> quote_view(r) == Err::<
                Seq<nat>,
                (QuoteError, Seq<nat>),
            >((QuoteError::AllRoutesUnavailable, Seq::empty())),
            splits > 0 && amount@ > 0 ==> exists|passes: Seq<Pass>|
                is_session(
                    passes,
                    schedule(amount@, splits as nat),
                    old(self).paths.len() as nat,
                    mode,
                ) && #[trigger] session_result(passes, old(self).paths.len() as nat, mode)
                    == quote_view(r),
    {
        let routes: usize = self.paths.len();
        let mut path_amounts = zero_totals(routes);
        let (chunk, rest) = match split_evenly(amount, splits) {
            Some(cut) => cut,
            None => {
                return Err(
                    QuoteFailure { error: QuoteError::ArithmeticInvalid, partial: path_amounts },
                );
            },
        };
        if amount.is_zero() {
            return Err(QuoteFailure { error: QuoteError::ArithmeticInvalid, partial: path_amounts });
        }
        assert(chunk@ > 0 || rest@ > 0) by (nonlinear_arith)
            requires
                chunk@ * splits + rest@ == amount@,
                amount@ > 0,
        ;
        let ghost sizes = schedule(amount@, splits as nat);
        let ghost mut passes: Seq<Pass> = Seq::empty();
        let mut done: usize = if chunk.is_zero() {
            splits
        } else {
            0
        };
        let mut remainder_due: bool = !rest.is_zero();
        while done < splits || remainder_due
            invariant
                splits > 0,
                amount@ > 0,
                chunk@ == amount@ / (splits as nat),
                rest@ == amount@ % (splits as nat),
                chunk@ > 0 || rest@ > 0,
                sizes == schedule(amount@, splits as nat),
                done <= splits,
                chunk@ == 0 ==> done == splits,
                remainder_due ==> rest@ > 0,
                rest@ > 0 && !remainder_due ==> done == splits,
                self.paths.len() == routes,
                old(self).paths.len() == routes,
                path_amounts.len() == routes,
                passes.len() == (if chunk@ > 0 {
                    done as int
                } else {
                    0
                }) + (if rest@ > 0 && !remainder_due {
                    1int
                } else {
                    0
                }),
                routes == 0 ==> passes.len() == 0,
                is_session(passes, sizes.take(passes.len() as int), routes as nat, mode),
                forall|k: int|
                    0 <= k < passes.len() ==> round_result(
                        (#[trigger] passes[k]).attempts,
                        mode,
                    ) is Ok,
                amounts(path_amounts@) == tally(routes as nat, fills(passes, mode)),
            decreases
                    (splits - done) + (if remainder_due {
                        1int
                    } else {
                        0
                    }),
        {
            let size = if done < splits {
                chunk
            } else {
                rest
            };
            let found = self.quote_best(size, mode);
            let ghost attempts = choose|attempts: Seq<Attempt>|
                is_round(attempts, routes as nat) && round_result(attempts, mode) == best_view(
                    found,
                );
            let ghost pass = Pass { size: size@, attempts };
            let ghost longer = passes.push(pass);
            proof {
                lemma_fills_push(passes, pass, mode);
                lemma_winner_is_best(attempts, mode);
            }
            match found {
                Ok((best_path_index, best_amount, changes)) => {
                    credit(&mut path_amounts, best_path_index, best_amount);
                    commit_state(&mut self.evm, changes);
                    proof {
                        passes = longer;
                    }
                },
                Err(error) => {
                    let r = Err(QuoteFailure { error, partial: path_amounts });
                    proof {
                        assert(routes == 0 ==> amounts(path_amounts@) =~= Seq::empty());
                        assert(session_result(longer, routes as nat, mode) == quote_view(r));
                    }
                    return r;
                },
            }
            if done < splits {
                done += 1;
            } else {
                remainder_due = false;
            }
        }
        let r = Ok(path_amounts);
        assert(session_result(passes, routes as nat, mode) == quote_view(r));
        r
    }
}

} // verus!
