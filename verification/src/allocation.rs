//! How an order is cut into passes, and how the fills of the passes add up per route.

use crate::amount::{lemma_limbs_value_bounded, modulus, Amount};
use vstd::arithmetic::div_mod::{lemma_fundamental_div_mod, lemma_remainder_lower, lemma_small_mod};
use vstd::arithmetic::mul::lemma_mul_is_commutative;
use vstd::prelude::*;

verus! {

/// The sizes of the passes of an order of `amount` cut `splits` ways: `splits` passes of
/// `amount / splits` each, then one pass for the remainder. A pass of size zero is left
/// out, so no route is ever asked to swap nothing.
pub open spec fn schedule(amount: nat, splits: nat) -> Seq<nat>
    recommends
        splits > 0,
{
    let chunk = amount / splits;
    let rest = amount % splits;
    let even = if chunk > 0 {
        Seq::new(splits, |k: int| chunk)
    } else {
        Seq::empty()
    };
    if rest > 0 {
        even.push(rest)
    } else {
        even
    }
}

/// The sum of a sequence of amounts.
pub open spec fn total(amounts: Seq<nat>) -> nat
    decreases amounts.len(),
{
    if amounts.len() == 0 {
        0
    } else {
        total(amounts.drop_last()) + amounts.last()
    }
}

/// The numbers that a vector of amounts stands for.
pub open spec fn amounts(v: Seq<Amount>) -> Seq<nat> {
    Seq::new(v.len(), |i: int| v[i]@)
}

/// The per-route totals after `amount` went to `route`. A total wraps at 2^256; a
/// route that is not among the totals leaves them as they are.
pub open spec fn credited(totals: Seq<nat>, route: int, amount: nat) -> Seq<nat> {
    if 0 <= route < totals.len() {
        totals.update(route, (totals[route] + amount) % modulus())
    } else {
        totals
    }
}

/// The per-route totals of `routes` routes after a sequence of fills, each the index of
/// the route that won a pass and the counterpart amount that it returned.
pub open spec fn tally(routes: nat, fills: Seq<(int, nat)>) -> Seq<nat>
    decreases fills.len(),
{
    if fills.len() == 0 {
        Seq::new(routes, |i: int| 0nat)
    } else {
        credited(tally(routes, fills.drop_last()), fills.last().0, fills.last().1)
    }
}

/// The sum of the counterpart amounts of a sequence of fills.
pub open spec fn filled(fills: Seq<(int, nat)>) -> nat
    decreases fills.len(),
{
    if fills.len() == 0 {
        0
    } else {
        filled(fills.drop_last()) + fills.last().1
    }
}

/// Cuts `amount` into `parts` equal chunks and a remainder: the chunk is
/// `amount / parts` rounded down, the remainder what is left over, so that the chunks
/// and the remainder together are `amount` exactly. There is no such cut into zero
/// parts.
pub fn split_evenly(amount: Amount, parts: usize) -> (r: Option<(Amount, Amount)>)
    ensures
        parts == 0 ==> r is None,
        parts > 0 ==> ({
            &&& r matches Some((chunk, rest))
            &&& chunk@ == amount@ / (parts as nat)
            &&& rest@ == amount@ % (parts as nat)
            &&& chunk@ * parts + rest@ == amount@
        }),
{
    let divisor = Amount::from_usize(parts);
    match amount.checked_div(divisor) {
        None => None,
        Some(chunk) => {
            let product = chunk.wrapping_mul(divisor);
            let rest = amount.wrapping_sub(product);
            proof {
                let a = amount@ as int;
                let p = parts as int;
                lemma_limbs_value_bounded(amount.limbs);
                lemma_remainder_lower(a, p);
                lemma_fundamental_div_mod(a, p);
                lemma_mul_is_commutative(a / p, p);
                lemma_small_mod((chunk@ * divisor@) as nat, modulus());
                lemma_small_mod((a - product@) as nat, modulus());
            }
            Some((chunk, rest))
        },
    }
}

/// The passes of an order consume the order exactly.
pub proof fn lemma_schedule_total(amount: nat, splits: nat)
    requires
        splits > 0,
    ensures
        total(schedule(amount, splits)) == amount,
{
    let chunk = amount / splits;
    let rest = amount % splits;
    lemma_fundamental_div_mod(amount as int, splits as int);
    lemma_mul_is_commutative(chunk as int, splits as int);
    let even = if chunk > 0 {
        Seq::new(splits, |k: int| chunk)
    } else {
        Seq::<nat>::empty()
    };
    if chunk > 0 {
        lemma_total_constant(splits, chunk);
    } else {
        assert(chunk * splits == 0) by (nonlinear_arith)
            requires
                chunk == 0,
        ;
    }
    assert(total(even) == chunk * splits);
    if rest > 0 {
        assert(even.push(rest).drop_last() == even);
    }
}

/// `count` passes of `size` each come to `count * size`.
proof fn lemma_total_constant(count: nat, size: nat)
    ensures
        total(Seq::new(count, |k: int| size)) == size * count,
    decreases count,
{
    let s = Seq::new(count, |k: int| size);
    if count > 0 {
        lemma_total_constant((count - 1) as nat, size);
        assert(s.drop_last() == Seq::new((count - 1) as nat, |k: int| size));
        assert(size * count == size * (count - 1) + size) by (nonlinear_arith);
    } else {
        assert(size * count == 0) by (nonlinear_arith)
            requires
                count == 0,
        ;
    }
}

/// A vector of `routes` zero amounts: the totals before anything was filled.
pub fn zero_totals(routes: usize) -> (r: Vec<Amount>)
    ensures
        r.len() == routes,
        amounts(r@) == tally(routes as nat, Seq::empty()),
{
    let mut totals: Vec<Amount> = Vec::new();
    let mut i: usize = 0;
    while i < routes
        invariant
            i <= routes,
            totals.len() == i,
            forall|j: int| 0 <= j < i ==> (#[trigger] totals[j])@ == 0,
        decreases routes - i,
    {
        totals.push(Amount::zero());
        i += 1;
    }
    totals
}

/// Adds `amount` to the total of `route`, wrapping at 2^256 as the amounts' own `+`
/// does. A route that is not among the totals leaves them as they are.
pub fn credit(totals: &mut Vec<Amount>, route: usize, amount: Amount)
    ensures
        final(totals).len() == old(totals).len(),
        amounts(final(totals)@) == credited(amounts(old(totals)@), route as int, amount@),
{
    if route < totals.len() {
        let sum = totals[route].wrapping_add(amount);
        totals[route] = sum;
    }
}

/// The totals keep their length through every fill.
pub proof fn lemma_tally_len(routes: nat, fills: Seq<(int, nat)>)
    ensures
        tally(routes, fills).len() == routes,
    decreases fills.len(),
{
    if fills.len() > 0 {
        lemma_tally_len(routes, fills.drop_last());
    }
}

/// Replacing one entry of a sequence changes its sum by the difference.
proof fn lemma_total_update(s: Seq<nat>, i: int, v: nat)
    requires
        0 <= i < s.len(),
    ensures
        total(s.update(i, v)) == total(s) - s[i] + v,
    decreases s.len(),
{
    let u = s.update(i, v);
    if i == s.len() - 1 {
        assert(u.drop_last() == s.drop_last());
    } else {
        lemma_total_update(s.drop_last(), i, v);
        assert(u.drop_last() == s.drop_last().update(i, v));
    }
}

/// No entry of a sequence exceeds its sum.
proof fn lemma_total_bounds(s: Seq<nat>, i: int)
    requires
        0 <= i < s.len(),
    ensures
        s[i] <= total(s),
    decreases s.len(),
{
    if i < s.len() - 1 {
        lemma_total_bounds(s.drop_last(), i);
    }
}

/// The per-route totals add up to what the passes returned: as long as the fills
/// together stay below 2^256, so that no total wraps, the sum of the totals is the sum
/// of the fills.
pub proof fn lemma_tally_total(routes: nat, fills: Seq<(int, nat)>)
    requires
        forall|k: int| 0 <= k < fills.len() ==> 0 <= (#[trigger] fills[k]).0 < routes,
        filled(fills) < modulus(),
    ensures
        total(tally(routes, fills)) == filled(fills),
    decreases fills.len(),
{
    if fills.len() == 0 {
        lemma_total_constant(routes, 0);
    } else {
        let before = fills.drop_last();
        let (route, amount) = fills.last();
        lemma_tally_total(routes, before);
        lemma_tally_len(routes, before);
        let t = tally(routes, before);
        lemma_total_bounds(t, route);
        lemma_small_mod(t[route] + amount, modulus());
        lemma_total_update(t, route, t[route] + amount);
    }
}

} // verus!
