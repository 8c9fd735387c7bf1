use smart_order_router::route::{
    is_continuous, same_address, segment, InvalidRoute, Pool, PoolVariant, Route, MAX_FEE,
};

fn token(tag: u8) -> [u8; 20] {
    [tag; 20]
}

fn v2(from: u8, to: u8) -> Pool {
    Pool::katana_v2(token(0xf0), token(from), token(to)).unwrap()
}

fn v3(from: u8, to: u8) -> Pool {
    Pool::katana_v3(token(0xf1), token(from), token(to), 3000).unwrap()
}

#[test]
fn addresses_are_compared_byte_by_byte() {
    let mut other = token(7);
    assert!(same_address(&token(7), &other));
    other[19] = 8;
    assert!(!same_address(&token(7), &other));
    other = token(7);
    other[0] = 8;
    assert!(!same_address(&token(7), &other));
}

#[test]
fn a_pool_keeps_what_it_was_made_with() {
    let pool = Pool::katana_v3(token(9), token(1), token(2), 500).unwrap();
    assert_eq!(pool.address(), token(9));
    assert_eq!(pool.token_in(), token(1));
    assert_eq!(pool.token_out(), token(2));
    assert_eq!(pool.variant(), PoolVariant::KatanaV3);
    assert_eq!(pool.fee(), 500);
    let pool = Pool::katana_v2(token(9), token(1), token(2)).unwrap();
    assert_eq!(pool.variant(), PoolVariant::KatanaV2);
    assert_eq!(pool.fee(), 0);
}

#[test]
fn there_is_no_pool_between_a_token_and_itself() {
    assert_eq!(Pool::katana_v2(token(9), token(1), token(1)), None);
    assert_eq!(Pool::katana_v3(token(9), token(1), token(1), 3000), None);
}

#[test]
fn a_fee_tier_has_24_bits() {
    assert!(Pool::katana_v3(token(9), token(1), token(2), MAX_FEE).is_some());
    assert_eq!(Pool::katana_v3(token(9), token(1), token(2), MAX_FEE + 1), None);
    assert_eq!(MAX_FEE, (1 << 24) - 1);
}

#[test]
fn test_split() {
    let pools = vec![v2(1, 2), v3(2, 3), v3(3, 4)];
    let segments = segment(&pools);
    assert_eq!(segments.len(), 2);
    assert_eq!(segments[0].variant(), PoolVariant::KatanaV2);
    assert_eq!(segments[0].pools(), &vec![v2(1, 2)]);
    assert_eq!(segments[1].variant(), PoolVariant::KatanaV3);
    assert_eq!(segments[1].pools(), &vec![v3(2, 3), v3(3, 4)]);
}

#[test]
fn no_pools_give_no_segments() {
    assert!(segment(&Vec::new()).is_empty());
}

#[test]
fn segments_put_together_are_the_pools_again() {
    let pools = vec![v3(1, 2), v3(2, 3), v2(3, 4), v3(4, 5), v2(5, 6), v2(6, 7), v2(7, 8)];
    let segments = segment(&pools);
    let sizes: Vec<usize> = segments.iter().map(|s| s.pools().len()).collect();
    assert_eq!(sizes, vec![2, 1, 1, 3]);
    let mut again = Vec::new();
    for s in &segments {
        for pool in s.pools() {
            assert_eq!(pool.variant(), s.variant());
            again.push(*pool);
        }
    }
    assert_eq!(again, pools);
    for pair in segments.windows(2) {
        assert_ne!(pair[0].variant(), pair[1].variant());
    }
}

#[test]
fn a_run_of_one_family_is_one_segment() {
    let pools = vec![v2(1, 2), v2(2, 3), v2(3, 1)];
    let segments = segment(&pools);
    assert_eq!(segments.len(), 1);
    assert_eq!(segments[0].pools(), &pools);
}

#[test]
fn continuity_looks_at_every_pair_of_neighbours() {
    assert!(is_continuous(&Vec::new()));
    assert!(is_continuous(&vec![v2(1, 2)]));
    assert!(is_continuous(&vec![v2(1, 2), v3(2, 3), v2(3, 1)]));
    assert!(!is_continuous(&vec![v2(1, 2), v3(3, 4)]));
    assert!(!is_continuous(&vec![v2(1, 2), v3(2, 3), v2(4, 5)]));
}

#[test]
fn a_route_has_the_tokens_of_its_first_and_last_pool() {
    let route = Route::new(vec![v2(1, 2), v3(2, 3), v3(3, 4)]).unwrap();
    assert_eq!(route.token_in(), token(1));
    assert_eq!(route.token_out(), token(4));
    assert_eq!(route.pools(), &vec![v2(1, 2), v3(2, 3), v3(3, 4)]);
    assert_eq!(route.segments().len(), 2);
    assert_eq!(route.segments()[1].pools(), &vec![v3(2, 3), v3(3, 4)]);
    let single = Route::new(vec![v3(5, 6)]).unwrap();
    assert_eq!(single.token_in(), token(5));
    assert_eq!(single.token_out(), token(6));
}

#[test]
fn an_empty_route_is_refused() {
    assert_eq!(Route::new(Vec::new()).err(), Some(InvalidRoute::Empty));
}

#[test]
fn a_route_with_a_gap_is_refused() {
    let broken = Route::new(vec![v2(1, 2), v3(3, 4)]);
    assert_eq!(broken.err(), Some(InvalidRoute::Discontinuous));
    let broken = Route::new(vec![v2(1, 2), v2(2, 3), v3(3, 4), v3(5, 6)]);
    assert_eq!(broken.err(), Some(InvalidRoute::Discontinuous));
}
