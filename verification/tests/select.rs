use revm::primitives::{Account, Address, EvmState};
use smart_order_router::adapters::{RouteError, SwapMode, SwapOutput};
use smart_order_router::amount::Amount;
use smart_order_router::select::{concluded, keep_better, scan, QuoteError};

fn touched(tag: u8) -> EvmState {
    let mut state = EvmState::default();
    state.insert(Address::from([tag; 20]), Account::default());
    state
}

fn output(value: u64, tag: u8) -> SwapOutput {
    SwapOutput { amount: Amount::from_u64(value), state: touched(tag) }
}

fn held(index: usize, value: u64, tag: u8) -> Option<(usize, Amount, EvmState)> {
    Some((index, Amount::from_u64(value), touched(tag)))
}

#[test]
fn the_first_success_is_taken() {
    let kept = keep_better(None, 4, output(7, 1), SwapMode::In);
    assert_eq!(kept, (4, Amount::from_u64(7), touched(1)));
    let kept = keep_better(None, 0, output(0, 2), SwapMode::Out);
    assert_eq!(kept, (0, Amount::zero(), touched(2)));
}

#[test]
fn a_larger_output_replaces_what_is_held_when_swapping_in() {
    let kept = keep_better(held(0, 7, 1), 3, output(8, 2), SwapMode::In);
    assert_eq!(kept, (3, Amount::from_u64(8), touched(2)));
    let kept = keep_better(held(0, 7, 1), 3, output(6, 2), SwapMode::In);
    assert_eq!(kept, (0, Amount::from_u64(7), touched(1)));
}

#[test]
fn a_smaller_input_replaces_what_is_held_when_swapping_out() {
    let kept = keep_better(held(0, 7, 1), 3, output(6, 2), SwapMode::Out);
    assert_eq!(kept, (3, Amount::from_u64(6), touched(2)));
    let kept = keep_better(held(0, 7, 1), 3, output(8, 2), SwapMode::Out);
    assert_eq!(kept, (0, Amount::from_u64(7), touched(1)));
}

#[test]
fn a_tie_keeps_what_is_held() {
    let kept = keep_better(held(1, 7, 1), 2, output(7, 2), SwapMode::In);
    assert_eq!(kept, (1, Amount::from_u64(7), touched(1)));
    let kept = keep_better(held(1, 7, 1), 2, output(7, 2), SwapMode::Out);
    assert_eq!(kept, (1, Amount::from_u64(7), touched(1)));
}

#[test]
fn amounts_are_compared_over_all_their_limbs() {
    let wide = SwapOutput { amount: Amount::from_limbs([0, 1, 0, 0]), state: touched(2) };
    let kept = keep_better(held(0, u64::MAX, 1), 1, wide, SwapMode::In);
    assert_eq!(kept.0, 1);
    let wide = SwapOutput { amount: Amount::from_limbs([0, 1, 0, 0]), state: touched(2) };
    let kept = keep_better(held(0, u64::MAX, 1), 1, wide, SwapMode::Out);
    assert_eq!(kept.0, 0);
}

#[test]
fn a_new_output_has_an_empty_state_delta() {
    let output = SwapOutput::new(Amount::from_u64(11));
    assert_eq!(output.amount, Amount::from_u64(11));
    assert!(output.state.is_empty());
}

#[test]
fn a_following_output_overlays_its_state_delta() {
    let mut late = Account::default();
    late.info.nonce = 9;
    let mut second = EvmState::default();
    second.insert(Address::from([1; 20]), late.clone());
    second.insert(Address::from([3; 20]), Account::default());
    let mut first = touched(1);
    first.insert(Address::from([2; 20]), Account::default());
    let a = SwapOutput { amount: Amount::from_u64(5), state: first };
    let b = SwapOutput { amount: Amount::from_u64(6), state: second };
    let both = a.followed_by(b);
    assert_eq!(both.amount, Amount::from_u64(6));
    assert_eq!(both.state.len(), 3);
    assert_eq!(both.state[&Address::from([1; 20])], late);
    assert_eq!(both.state[&Address::from([2; 20])], Account::default());
    assert_eq!(both.state[&Address::from([3; 20])], Account::default());
}

#[test]
fn the_errors_are_told_apart() {
    assert_ne!(RouteError::RouteUnavailable, RouteError::OracleUnavailable);
    assert_ne!(QuoteError::AllRoutesUnavailable, QuoteError::OracleUnavailable);
    assert_ne!(QuoteError::ArithmeticInvalid, QuoteError::AllRoutesUnavailable);
    assert_ne!(SwapMode::In, SwapMode::Out);
}

#[test]
fn a_success_is_scanned_like_a_kept_better_one() {
    let scanned = scan(None, 2, Ok(output(7, 1)), SwapMode::In);
    assert_eq!(scanned, Ok(Some((2, Amount::from_u64(7), touched(1)))));
    let scanned = scan(held(0, 7, 1), 3, Ok(output(8, 2)), SwapMode::In);
    assert_eq!(scanned, Ok(Some((3, Amount::from_u64(8), touched(2)))));
    let scanned = scan(held(0, 7, 1), 3, Ok(output(8, 2)), SwapMode::Out);
    assert_eq!(scanned, Ok(Some((0, Amount::from_u64(7), touched(1)))));
    let scanned = scan(held(0, 7, 1), 3, Ok(output(7, 2)), SwapMode::In);
    assert_eq!(scanned, Ok(Some((0, Amount::from_u64(7), touched(1)))));
}

#[test]
fn an_unavailable_route_is_passed_over() {
    let scanned = scan(held(1, 7, 1), 3, Err(RouteError::RouteUnavailable), SwapMode::In);
    assert_eq!(scanned, Ok(held(1, 7, 1)));
    let scanned = scan(None, 0, Err(RouteError::RouteUnavailable), SwapMode::Out);
    assert_eq!(scanned, Ok(None));
}

#[test]
fn a_failed_read_ends_the_round() {
    let scanned = scan(held(1, 7, 1), 3, Err(RouteError::OracleUnavailable), SwapMode::In);
    assert_eq!(scanned, Err(QuoteError::OracleUnavailable));
    let scanned = scan(None, 0, Err(RouteError::OracleUnavailable), SwapMode::Out);
    assert_eq!(scanned, Err(QuoteError::OracleUnavailable));
}

#[test]
fn a_round_concludes_with_what_is_held() {
    assert_eq!(concluded(held(4, 9, 2)), Ok((4, Amount::from_u64(9), touched(2))));
    assert_eq!(concluded(None), Err(QuoteError::AllRoutesUnavailable));
}
