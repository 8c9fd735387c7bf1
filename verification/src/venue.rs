//! What a venue executor needs around its simulated call: the path that the call names,
//! and the counterpart amount that the call's results and transfer events state.

use crate::adapters::{RouteError, SwapMode};
use crate::amount::{modulus, Amount};
use crate::route::{AddressBytes, Pool, Segment};
use vstd::prelude::*;

verus! {

/// The tokens that a run of pools passes through: the token that the first pool takes,
/// then the token that each pool gives.
pub open spec fn tokens_along(pools: Seq<Pool>) -> Seq<Seq<u8>> {
    Seq::new(
        pools.len() + 1,
        |i: int|
            if i == 0 {
                pools[0].spec_token_in()
            } else {
                pools[i - 1].spec_token_out()
            },
    )
}

/// The three bytes of a fee tier, most significant first.
pub open spec fn fee_bytes(fee: nat) -> Seq<u8> {
    seq![(fee / 0x1_0000) as u8, (fee / 0x100 % 0x100) as u8, (fee % 0x100) as u8]
}

/// One hop of a packed path: the pool's fee tier in three bytes, then the 20 bytes of
/// the token that it gives.
pub open spec fn packed_hop(pool: Pool) -> Seq<u8> {
    fee_bytes(pool.spec_fee()) + pool.spec_token_out()
}

/// The packed path of a run of pools: the 20 bytes of the token that the first pool
/// takes, then one hop for each pool in order.
pub open spec fn packed_path(pools: Seq<Pool>) -> Seq<u8>
    decreases pools.len(),
{
    if pools.len() == 0 {
        Seq::empty()
    } else if pools.len() == 1 {
        pools[0].spec_token_in() + packed_hop(pools[0])
    } else {
        packed_path(pools.drop_last()) + packed_hop(pools.last())
    }
}

/// A packed path has 20 bytes for its first token and 23 for each hop.
pub proof fn lemma_packed_path_len(pools: Seq<Pool>)
    requires
        pools.len() > 0,
    ensures
        packed_path(pools).len() == 20 + 23 * pools.len(),
    decreases pools.len(),
{
    pools.last().lemma_address_lengths();
    pools[0].lemma_address_lengths();
    if pools.len() > 1 {
        lemma_packed_path_len(pools.drop_last());
    }
}

/// Appends the bytes of an address to a byte vector.
fn push_address(bytes: &mut Vec<u8>, address: &AddressBytes)
    ensures
        final(bytes)@ == old(bytes)@ + address@,
{
    let mut i: usize = 0;
    while i < 20
        invariant
            i <= 20,
            bytes@ == old(bytes)@ + address@.take(i as int),
        decreases 20 - i,
    {
        bytes.push(address[i]);
        i += 1;
    }
}

/// Appends one hop of a packed path to a byte vector.
fn push_hop(bytes: &mut Vec<u8>, pool: &Pool)
    ensures
        final(bytes)@ == old(bytes)@ + packed_hop(*pool),
{
    let fee: u32 = pool.fee();
    bytes.push((fee / 0x1_0000) as u8);
    bytes.push((fee / 0x100 % 0x100) as u8);
    bytes.push((fee % 0x100) as u8);
    let gives = pool.token_out();
    push_address(bytes, &gives);
}

impl Segment {
    /// The token that the segment takes: the one that its first pool takes.
    pub fn token_in(&self) -> (r: AddressBytes)
        ensures
            r@ == self@.first().spec_token_in(),
    {
        let pools = self.pools();
        pools[0].token_in()
    }

    /// The token that the segment gives: the one that its last pool gives.
    pub fn token_out(&self) -> (r: AddressBytes)
        ensures
            r@ == self@.last().spec_token_out(),
    {
        let pools = self.pools();
        pools[pools.len() - 1].token_out()
    }

    /// The tokens that the segment passes through, as a venue of the `KatanaV2` family
    /// takes its path: the token that the first pool takes, then the token that each
    /// pool gives.
    pub fn token_path(&self) -> (r: Vec<AddressBytes>)
        ensures
            r@.len() == self@.len() + 1,
            forall|i: int| 0 <= i < r@.len() ==> (#[trigger] r@[i])@ == tokens_along(self@)[i],
    {
        let pools = self.pools();
        let mut path: Vec<AddressBytes> = Vec::new();
        path.push(pools[0].token_in());
        let mut i: usize = 0;
        while i < pools.len()
            invariant
                i <= pools.len(),
                pools@ == self@,
                path@.len() == i + 1,
                forall|j: int|
                    0 <= j < path@.len() ==> (#[trigger] path@[j])@ == tokens_along(self@)[j],
            decreases pools.len() - i,
        {
            path.push(pools[i].token_out());
            i += 1;
        }
        path
    }

    /// The segment's path packed into bytes, as a venue of the `KatanaV3` family takes
    /// it: the first token, then for each pool its fee tier in three bytes, most
    /// significant first, and the token that it gives.
    pub fn packed_path(&self) -> (r: Vec<u8>)
        ensures
            r@ == packed_path(self@),
            r@.len() == 20 + 23 * self@.len(),
    {
        let pools = self.pools();
        proof {
            lemma_packed_path_len(self@);
        }
        let mut bytes: Vec<u8> = Vec::new();
        let takes = pools[0].token_in();
        push_address(&mut bytes, &takes);
        push_hop(&mut bytes, &pools[0]);
        let mut i: usize = 1;
        while i < pools.len()
            invariant
                1 <= i <= pools.len(),
                pools@ == self@,
                bytes@ == packed_path(pools@.take(i as int)),
            decreases pools.len() - i,
        {
            push_hop(&mut bytes, &pools[i]);
            assert(pools@.take(i + 1).drop_last() =~= pools@.take(i as int));
            i += 1;
        }
        assert(pools@.take(pools.len() as int) =~= pools@);
        bytes
    }
}

/// The bound that goes with the exact amount of a quote. A quote is no trade, so the
/// bound is as loose as it can be: swapping in, the least output to accept is zero;
/// swapping out, the most input to give is the largest amount there is.
pub fn relaxed_bound(mode: SwapMode) -> (r: Amount)
    ensures
        r@ == match mode {
            SwapMode::In => 0,
            SwapMode::Out => modulus() - 1,
        },
{
    match mode {
        SwapMode::In => Amount::zero(),
        SwapMode::Out => Amount::max(),
    }
}

/// The amount at the far end of a path, out of the amounts that a venue of the
/// `KatanaV2` family reports along it: swapping in, the last amount is what comes out;
/// swapping out, the first is what has to go in. No amounts, no answer.
pub fn terminal_amount(amounts: &Vec<Amount>, mode: SwapMode) -> (r: Option<Amount>)
    ensures
        amounts.len() == 0 <==> r is None,
        r matches Some(a) ==> a == match mode {
            SwapMode::In => amounts@.last(),
            SwapMode::Out => amounts@.first(),
        },
{
    if amounts.len() == 0 {
        None
    } else {
        match mode {
            SwapMode::In => Some(amounts[amounts.len() - 1]),
            SwapMode::Out => Some(amounts[0]),
        }
    }
}

/// A token transfer that a simulated execution emitted.
#[derive(Debug, Clone, Copy, PartialEq, Eq)]
pub struct Transfer {
    /// The token contract that emitted the event.
    pub token: AddressBytes,
    pub from: AddressBytes,
    pub to: AddressBytes,
    pub value: Amount,
}

/// Whether a transfer is a payment of the unit's input token by the caller.
pub open spec fn pays_in(t: Transfer, token_in: Seq<u8>, caller: Seq<u8>) -> bool {
    t.token@ == token_in && t.from@ == caller
}

/// Whether a transfer is a payment of the unit's output token to the caller, and not at
/// the same time one of the input token by the caller.
pub open spec fn pays_out(t: Transfer, token_in: Seq<u8>, token_out: Seq<u8>, caller: Seq<u8>) -> bool {
    !pays_in(t, token_in, caller) && t.token@ == token_out && t.to@ == caller
}

/// Whether a transfer states the counterpart amount of a swap: swapping in, what the
/// caller received of the output token; swapping out, what the caller paid of the input
/// token.
pub open spec fn settles(
    t: Transfer,
    token_in: Seq<u8>,
    token_out: Seq<u8>,
    caller: Seq<u8>,
    mode: SwapMode,
) -> bool {
    match mode {
        SwapMode::In => pays_out(t, token_in, token_out, caller),
        SwapMode::Out => pays_in(t, token_in, caller),
    }
}

/// The counterpart amount that a sequence of transfers states: the value of the last
/// transfer that settles the swap, and zero where none does.
pub open spec fn settled(
    transfers: Seq<Transfer>,
    token_in: Seq<u8>,
    token_out: Seq<u8>,
    caller: Seq<u8>,
    mode: SwapMode,
) -> nat
    decreases transfers.len(),
{
    if transfers.len() == 0 {
        0
    } else if settles(transfers.last(), token_in, token_out, caller, mode) {
        transfers.last().value@
    } else {
        settled(transfers.drop_last(), token_in, token_out, caller, mode)
    }
}

/// Recovers the counterpart amount of a swap from the transfers that its execution
/// emitted, for venues whose return value does not state it: the transfers of the
/// unit's input and output tokens are matched against the simulated caller, and the last
/// one that settles the swap gives the amount.
pub fn settled_amount(
    transfers: &Vec<Transfer>,
    token_in: &AddressBytes,
    token_out: &AddressBytes,
    caller: &AddressBytes,
    mode: SwapMode,
) -> (r: Amount)
    ensures
        r@ == settled(transfers@, token_in@, token_out@, caller@, mode),
{
    let mut amount_in = Amount::zero();
    let mut amount_out = Amount::zero();
    let mut i: usize = 0;
    while i < transfers.len()
        invariant
            i <= transfers.len(),
            amount_in@ == settled(
                transfers@.take(i as int),
                token_in@,
                token_out@,
                caller@,
                SwapMode::Out,
            ),
            amount_out@ == settled(
                transfers@.take(i as int),
                token_in@,
                token_out@,
                caller@,
                SwapMode::In,
            ),
        decreases transfers.len() - i,
    {
        let t = transfers[i];
        assert(transfers@.take(i + 1).drop_last() =~= transfers@.take(i as int));
        if crate::route::same_address(&t.token, token_in) && crate::route::same_address(
            &t.from,
            caller,
        ) {
            amount_in = t.value;
        } else if crate::route::same_address(&t.token, token_out) && crate::route::same_address(
            &t.to,
            caller,
        ) {
            amount_out = t.value;
        }
        i += 1;
    }
    assert(transfers@.take(transfers.len() as int) =~= transfers@);
    match mode {
        SwapMode::In => amount_out,
        SwapMode::Out => amount_in,
    }
}

/// How a simulated execution ended.
#[derive(Debug, Clone, Copy, PartialEq, Eq, Structural)]
pub enum Execution {
    /// It ran to the end.
    Success,
    /// The venue rejected it.
    Revert,
    /// The executor stopped it abnormally.
    Halt,
    /// The chain state could not be read.
    OracleFailure,
}

/// The failure that an execution's end means for its route: none for a success; a
/// revert or a halt takes the route out for this amount; a failed read of the chain
/// state is passed on as such.
pub fn failure_of(end: Execution) -> (r: Option<RouteError>)
    ensures
        r == match end {
            Execution::Success => None,
            Execution::Revert => Some(RouteError::RouteUnavailable),
            Execution::Halt => Some(RouteError::RouteUnavailable),
            Execution::OracleFailure => Some(RouteError::OracleUnavailable),
        },
{
    match end {
        Execution::Success => None,
        Execution::Revert => Some(RouteError::RouteUnavailable),
        Execution::Halt => Some(RouteError::RouteUnavailable),
        Execution::OracleFailure => Some(RouteError::OracleUnavailable),
    }
}

} // verus!
