//! Running the units of a path one after the other, each on what the one before it
//! returned.

use crate::adapters::path::PathAdapter;
use crate::adapters::{attempt_view, Attempt, Outcome, RouteError, SwapMode, SwapOutput};
use crate::amount::Amount;
use crate::ledger::Delta;
use vstd::prelude::*;

verus! {

/// The unit that runs as step `step` of a chain of `units` units: swapping in, the units
/// run front to back, the output of each being the input of the next; swapping out, they
/// run back to front, the input that each needs being the output wanted of the one
/// before it.
pub open spec fn unit_at(mode: SwapMode, units: nat, step: nat) -> int {
    match mode {
        SwapMode::In => step as int,
        SwapMode::Out => units - 1 - step,
    }
}

/// The state deltas of the steps of a chain, overlaid in the order in which they ran.
pub open spec fn merged(steps: Seq<Attempt>) -> Delta
    decreases steps.len(),
{
    if steps.len() == 0 {
        Delta::empty()
    } else {
        match steps.last() {
            Ok(o) => merged(steps.drop_last()).union_prefer_right(o.delta),
            Err(_) => merged(steps.drop_last()),
        }
    }
}

/// The traces that a chain of `units` units can leave: every step but the last
/// succeeded with an amount to pass on, and the chain ends with the last unit, with the
/// first step that fails, or with the first that leaves nothing to pass on.
pub open spec fn is_chain(steps: Seq<Attempt>, units: nat) -> bool {
    &&& steps.len() <= units
    &&& forall|j: int|
        0 <= j < steps.len() - 1 ==> (#[trigger] steps[j]) is Ok && steps[j]->Ok_0.amount > 0
    &&& steps.len() == units || (steps.len() > 0 && (steps.last() is Err
        || steps.last()->Ok_0.amount == 0))
}

/// What a chain of `units` units, started on `amount`, comes to: with no unit at all,
/// `amount` itself and no state delta; the error of its last step where that step
/// failed; `RouteUnavailable` where a step left nothing for the units after it; and
/// otherwise the amount of its last step with the state deltas of all its steps.
pub open spec fn chain_result(steps: Seq<Attempt>, amount: nat, units: nat) -> Attempt {
    if steps.len() == 0 {
        Ok(Outcome { amount, delta: Delta::empty() })
    } else {
        match steps.last() {
            Err(e) => Err(e),
            Ok(o) => if steps.len() < units {
                Err(RouteError::RouteUnavailable)
            } else {
                Ok(Outcome { amount: o.amount, delta: merged(steps) })
            },
        }
    }
}

/// The index of the unit that runs as step `step`.
fn unit_index(mode: SwapMode, units: usize, step: usize) -> (r: usize)
    requires
        step < units,
    ensures
        r == unit_at(mode, units as nat, step as nat),
        r < units,
{
    match mode {
        SwapMode::In => step,
        SwapMode::Out => units - 1 - step,
    }
}

/// One step of a chain, for whatever the unit came to: `output` is what the chain held
/// before the step, `attempt` what the unit returned, and `more` whether units are left
/// to run. A unit that failed ends the chain with its error. A unit that returned zero
/// while units are left ends it with `RouteUnavailable`, since there is nothing to hand
/// on. Otherwise the chain holds the unit's amount, and its state delta overlaid on
/// what was held.
pub fn handed_on(output: SwapOutput, attempt: Result<SwapOutput, RouteError>, more: bool) -> (r:
    Result<SwapOutput, RouteError>)
    ensures
        match attempt {
            Err(e) => r == Err::<SwapOutput, RouteError>(e),
            Ok(next) => if more && next.amount@ == 0 {
                r == Err::<SwapOutput, RouteError>(RouteError::RouteUnavailable)
            } else {
                r is Ok && r->Ok_0.amount == next.amount && r->Ok_0.state@
                    == output.state@.union_prefer_right(next.state@)
            },
        },
{
    match attempt {
        Err(e) => Err(e),
        Ok(next) => if more && next.amount.is_zero() {
            Err(RouteError::RouteUnavailable)
        } else {
            Ok(output.followed_by(next))
        },
    }
}

/// Simulates a swap of `amount` along `units`, which together make up one path: the
/// units run in the order that [`unit_at`] gives, each on the amount that the one before
/// it returned, and what each returns goes through [`handed_on`]: the first unit that
/// fails ends the chain with its error, a unit that returns zero before the end ends it
/// with `RouteUnavailable`, and the state deltas are overlaid.
///
/// For whatever the units return, the result is the one that [`chain_result`] gives for
/// their attempts.
pub fn chain<L, S: PathAdapter<L>>(
    units: &mut Vec<S>,
    ledger: &mut L,
    amount: Amount,
    mode: SwapMode,
) -> (r: Result<SwapOutput, RouteError>)
    requires
        amount@ > 0,
    ensures
        final(units).len() == old(units).len(),
        old(units).len() == 0 ==> r is Ok && r->Ok_0@ == (Outcome {
            amount: amount@,
            delta: Delta::empty(),
        }),
        exists|steps: Seq<Attempt>|
            is_chain(steps, old(units).len() as nat) && #[trigger] chain_result(
                steps,
                amount@,
                old(units).len() as nat,
            ) == attempt_view(r),
{
    let count: usize = units.len();
    let mut output = SwapOutput::new(amount);
    let ghost mut steps: Seq<Attempt> = Seq::empty();
    let mut step: usize = 0;
    while step < count
        invariant
            step <= count,
            units.len() == count,
            old(units).len() == count,
            steps.len() == step,
            forall|j: int| 0 <= j < steps.len() ==> (#[trigger] steps[j]) is Ok,
            forall|j: int|
                0 <= j < steps.len() && j < count - 1 ==> (#[trigger] steps[j])->Ok_0.amount > 0,
            step < count ==> output.amount@ > 0,
            step == 0 ==> output@ == (Outcome { amount: amount@, delta: Delta::empty() }),
            step > 0 ==> output@ == (Outcome {
                amount: steps.last()->Ok_0.amount,
                delta: merged(steps),
            }),
        decreases count - step,
    {
        let index = unit_index(mode, count, step);
        let attempt = units[index].swap(ledger, output.amount, mode);
        let ghost before = steps;
        proof {
            steps = before.push(attempt_view(attempt));
            assert(steps.drop_last() == before);
        }
        match handed_on(output, attempt, step + 1 < count) {
            Ok(next) => {
                output = next;
                assert(merged(steps) == merged(before).union_prefer_right(
                    steps.last()->Ok_0.delta,
                ));
            },
            Err(e) => {
                let r = Err(e);
                assert(chain_result(steps, amount@, count as nat) == attempt_view(r));
                return r;
            },
        }
        step += 1;
    }
    let r = Ok(output);
    assert(chain_result(steps, amount@, count as nat) == attempt_view(r));
    r
}

/// A path made of units that run one after the other, such as the segments of a route
/// each with the executor of its venue family. It is itself a path.
pub struct Chained<S> {
    pub units: Vec<S>,
}

impl<L, S: PathAdapter<L>> PathAdapter<L> for Chained<S> {
    /// Runs the units as [`chain`] does.
    fn swap(&mut self, ledger: &mut L, amount: Amount, mode: SwapMode) -> (r: Result<
        SwapOutput,
        RouteError,
    >)
        ensures
            final(self).units.len() == old(self).units.len(),
            exists|steps: Seq<Attempt>|
                is_chain(steps, old(self).units.len() as nat) && #[trigger] chain_result(
                    steps,
                    amount@,
                    old(self).units.len() as nat,
                ) == attempt_view(r),
    {
        chain(&mut self.units, ledger, amount, mode)
    }
}

} // verus!
