//! The capability that every executable unit offers: a segment of one venue family, or a
//! whole route.

use super::{RouteError, SwapMode, SwapOutput};
use crate::amount::Amount;
use vstd::prelude::*;

verus! {

/// Simulates a swap along a path against a ledger of type `L`.
///
/// The router decides nothing about an implementation: its contracts hold for whatever
/// `swap` returns.
pub trait PathAdapter<L> {
    /// Returns the counterpart amount and the state delta of one simulated execution of
    /// `amount` in direction `mode`, or the reason why there is none.
    fn swap(&mut self, ledger: &mut L, amount: Amount, mode: SwapMode) -> (r: Result<
        SwapOutput,
        RouteError,
    >)
        requires
            amount@ > 0,
    ;
}

} // verus!
