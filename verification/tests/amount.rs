use revm::primitives::U256;
use smart_order_router::allocation::{credit, split_evenly, zero_totals};
use smart_order_router::amount::Amount;

fn from_u256(value: U256) -> Amount {
    Amount::from_limbs(value.into_limbs())
}

fn to_u256(amount: Amount) -> U256 {
    U256::from_limbs(amount.limbs)
}

#[test]
fn it_works() {}

#[test]
fn lib_it_works() {}

#[test]
fn constructors_agree_with_the_limbs() {
    assert_eq!(Amount::zero().limbs, [0, 0, 0, 0]);
    assert_eq!(Amount::from_u64(7).limbs, [7, 0, 0, 0]);
    assert_eq!(Amount::from_usize(9).limbs, [9, 0, 0, 0]);
    assert_eq!(Amount::max().limbs, [u64::MAX; 4]);
    assert_eq!(to_u256(Amount::max()), U256::MAX);
    assert_eq!(Amount::from_limbs([1, 2, 3, 4]).limbs, [1, 2, 3, 4]);
}

#[test]
fn zero_test_looks_at_every_limb() {
    assert!(Amount::zero().is_zero());
    assert!(!Amount::from_u64(1).is_zero());
    assert!(!Amount::from_limbs([0, 0, 0, 1]).is_zero());
    assert!(!Amount::from_limbs([0, 1, 0, 0]).is_zero());
}

#[test]
fn comparison_reads_from_the_top_limb() {
    let small = Amount::from_limbs([u64::MAX, 0, 0, 0]);
    let large = Amount::from_limbs([0, 1, 0, 0]);
    assert!(small.lt(&large));
    assert!(!large.lt(&small));
    assert!(large.gt(&small));
    assert!(!small.gt(&large));
    assert!(!small.lt(&small));
    assert!(!small.gt(&small));
    assert!(small.same(&small));
    assert!(!small.same(&large));
    let top = Amount::from_limbs([0, 0, 0, 1]);
    let below = Amount::from_limbs([u64::MAX, u64::MAX, u64::MAX, 0]);
    assert!(below.lt(&top));
    assert!(to_u256(below) < to_u256(top));
}

#[test]
fn addition_carries_and_wraps() {
    let a = Amount::from_u64(2);
    let b = Amount::from_u64(3);
    assert_eq!(a.wrapping_add(b), Amount::from_u64(5));
    let carry = Amount::from_limbs([u64::MAX, 0, 0, 0]).wrapping_add(Amount::from_u64(1));
    assert_eq!(carry, Amount::from_limbs([0, 1, 0, 0]));
    assert_eq!(Amount::max().wrapping_add(Amount::from_u64(1)), Amount::zero());
    assert_eq!(Amount::max().wrapping_add(Amount::from_u64(5)), Amount::from_u64(4));
}

#[test]
fn subtraction_borrows_and_wraps() {
    assert_eq!(Amount::from_u64(10).wrapping_sub(Amount::from_u64(3)), Amount::from_u64(7));
    let borrow = Amount::from_limbs([0, 1, 0, 0]).wrapping_sub(Amount::from_u64(1));
    assert_eq!(borrow, Amount::from_limbs([u64::MAX, 0, 0, 0]));
    assert_eq!(Amount::zero().wrapping_sub(Amount::from_u64(1)), Amount::max());
}

#[test]
fn multiplication_crosses_limbs_and_wraps() {
    assert_eq!(Amount::from_u64(6).wrapping_mul(Amount::from_u64(7)), Amount::from_u64(42));
    let wide = Amount::from_u64(1 << 63).wrapping_mul(Amount::from_u64(4));
    assert_eq!(wide, Amount::from_limbs([0, 2, 0, 0]));
    let top = Amount::from_limbs([0, 0, 0, 1 << 63]);
    assert_eq!(top.wrapping_mul(Amount::from_u64(2)), Amount::zero());
}

#[test]
fn division_rounds_down_and_refuses_zero() {
    assert_eq!(Amount::from_u64(10).checked_div(Amount::from_u64(3)), Some(Amount::from_u64(3)));
    assert_eq!(Amount::from_u64(2).checked_div(Amount::from_u64(3)), Some(Amount::zero()));
    assert_eq!(Amount::from_u64(10).checked_div(Amount::zero()), None);
    let wide = Amount::from_limbs([0, 2, 0, 0]).checked_div(Amount::from_u64(4));
    assert_eq!(wide, Some(Amount::from_u64(1 << 63)));
}

#[test]
fn arithmetic_agrees_with_ruint_on_wide_values() {
    let a = U256::from_limbs([0x1234_5678_9abc_def0, 0xfedc_ba98_7654_3210, 0x0f0f, 0x7]);
    let b = U256::from_limbs([0xdead_beef, 0x1, 0, 0]);
    assert_eq!(to_u256(from_u256(a).wrapping_add(from_u256(b))), a.wrapping_add(b));
    assert_eq!(to_u256(from_u256(a).wrapping_sub(from_u256(b))), a.wrapping_sub(b));
    assert_eq!(to_u256(from_u256(a).wrapping_mul(from_u256(b))), a.wrapping_mul(b));
    assert_eq!(from_u256(a).checked_div(from_u256(b)).map(to_u256), Some(a / b));
    assert_eq!(from_u256(a).lt(&from_u256(b)), a < b);
    assert_eq!(from_u256(b).lt(&from_u256(a)), b < a);
}

#[test]
fn split_cuts_into_equal_chunks_and_a_remainder() {
    let cut = split_evenly(Amount::from_u64(100_000_000), 10);
    assert_eq!(cut, Some((Amount::from_u64(10_000_000), Amount::zero())));
    let cut = split_evenly(Amount::from_u64(10), 3);
    assert_eq!(cut, Some((Amount::from_u64(3), Amount::from_u64(1))));
    let cut = split_evenly(Amount::from_u64(2), 5);
    assert_eq!(cut, Some((Amount::zero(), Amount::from_u64(2))));
    let cut = split_evenly(Amount::from_u64(7), 1);
    assert_eq!(cut, Some((Amount::from_u64(7), Amount::zero())));
    assert_eq!(split_evenly(Amount::from_u64(7), 0), None);
}

#[test]
fn split_consumes_the_amount_exactly() {
    let amount = Amount::max();
    let (chunk, rest) = split_evenly(amount, 7).unwrap();
    let back = chunk.wrapping_mul(Amount::from_u64(7)).wrapping_add(rest);
    assert_eq!(back, amount);
    assert_eq!(to_u256(chunk), U256::MAX / U256::from(7));
    assert_eq!(to_u256(rest), U256::MAX % U256::from(7));
}

#[test]
fn totals_start_at_zero_and_credit_one_route() {
    let mut totals = zero_totals(3);
    assert_eq!(totals, vec![Amount::zero(); 3]);
    credit(&mut totals, 1, Amount::from_u64(5));
    credit(&mut totals, 1, Amount::from_u64(6));
    credit(&mut totals, 2, Amount::from_u64(1));
    assert_eq!(totals, vec![Amount::zero(), Amount::from_u64(11), Amount::from_u64(1)]);
    assert_eq!(zero_totals(0), Vec::<Amount>::new());
}

#[test]
fn credit_wraps_like_the_amounts_do() {
    let mut totals = vec![Amount::max()];
    credit(&mut totals, 0, Amount::from_u64(2));
    assert_eq!(totals, vec![Amount::from_u64(1)]);
}

#[test]
fn credit_to_a_route_that_is_not_there_changes_nothing() {
    let mut totals = vec![Amount::from_u64(4), Amount::from_u64(5)];
    credit(&mut totals, 2, Amount::from_u64(9));
    assert_eq!(totals, vec![Amount::from_u64(4), Amount::from_u64(5)]);
}
