//! What a route hands back when it is asked to simulate a swap.

use crate::amount::Amount;
use crate::ledger::{merge_state, Delta};
use revm::primitives::EvmState;
use vstd::prelude::*;

pub mod path;

verus! {

/// Direction of a swap request.
#[derive(Debug, Clone, Copy, PartialEq, Eq, Structural)]
pub enum SwapMode {
    /// The amount is the exact input; the counterpart is the output, the more the better.
    In,
    /// The amount is the exact output wanted; the counterpart is the input, the less the
    /// better.
    Out,
}

/// Why a route gave no result.
#[derive(Debug, Clone, Copy, PartialEq, Eq, Structural)]
pub enum RouteError {
    /// The simulated execution reverted or halted: the route is out for this amount.
    RouteUnavailable,
    /// The chain state behind the ledger could not be read.
    OracleUnavailable,
}

/// The mathematical content of a [`SwapOutput`].
pub struct Outcome {
    /// The counterpart amount.
    pub amount: nat,
    /// The state delta of the simulated execution.
    pub delta: Delta,
}

/// What one execution of a route came to.
pub type Attempt = Result<Outcome, RouteError>;

/// Result of a simulated swap: the counterpart amount (the output for
/// [`SwapMode::In`], the input for [`SwapMode::Out`]) and the state delta that the
/// execution produced.
#[derive(Debug, Clone)]
pub struct SwapOutput {
    pub amount: Amount,
    pub state: EvmState,
}

impl View for SwapOutput {
    type V = Outcome;

    open spec fn view(&self) -> Outcome {
        Outcome { amount: self.amount@, delta: self.state@ }
    }
}

impl SwapOutput {
    /// An output of `amount` with an empty state delta.
    pub fn new(amount: Amount) -> (r: Self)
        ensures
            r.amount == amount,
            r.state@ == Delta::empty(),
    {
        let state = EvmState::default();
        Self { amount, state }
    }

    /// The output of this execution followed by `next`: the counterpart amount is that of
    /// `next`, and the state delta is this one overlaid with that of `next`, whose
    /// record stands for every address that both touch.
    pub fn followed_by(self, next: SwapOutput) -> (r: Self)
        ensures
            r.amount == next.amount,
            r.state@ == self.state@.union_prefer_right(next.state@),
    {
        let mut state = self.state;
        merge_state(&mut state, next.state);
        Self { amount: next.amount, state }
    }
}

/// The mathematical content of what a route returned.
pub open spec fn attempt_view(r: Result<SwapOutput, RouteError>) -> Attempt {
    match r {
        Ok(output) => Ok(output@),
        Err(e) => Err(e),
    }
}

} // verus!
