//! Pools, routes made of pools, and the cut of a route into segments of one venue family.

use vstd::prelude::*;

verus! {

/// The 20 bytes of an account address.
pub type AddressBytes = [u8; 20];

/// The venue families whose pools a route may cross.
#[derive(Debug, Clone, Copy, PartialEq, Eq, Structural)]
pub enum PoolVariant {
    KatanaV2,
    KatanaV3,
}

/// The largest fee tier of a pool: fee tiers are 24-bit numbers.
pub const MAX_FEE: u32 = 0xff_ffff;

/// One liquidity venue: its address, the token it takes, the token it gives, its venue
/// family and, for the families that have one, its fee tier. The two tokens differ.
#[derive(Debug, Clone, Copy, PartialEq, Eq)]
pub struct Pool {
    address: AddressBytes,
    token_in: AddressBytes,
    token_out: AddressBytes,
    variant: PoolVariant,
    fee: u32,
}

/// Why a sequence of pools is no route.
#[derive(Debug, Clone, Copy, PartialEq, Eq, Structural)]
pub enum InvalidRoute {
    /// There is no pool.
    Empty,
    /// Some pool does not take the token that the pool before it gives.
    Discontinuous,
}

/// Whether two addresses are the same.
pub fn same_address(a: &AddressBytes, b: &AddressBytes) -> (r: bool)
    ensures
        r == (a@ == b@),
{
    let mut i: usize = 0;
    while i < 20
        invariant
            i <= 20,
            forall|j: int| 0 <= j < i ==> a@[j] == b@[j],
        decreases 20 - i,
    {
        if a[i] != b[i] {
            return false;
        }
        i += 1;
    }
    assert(a@ =~= b@);
    true
}

impl Pool {
    #[verifier::type_invariant]
    spec fn valid(self) -> bool {
        self.token_in@ != self.token_out@ && self.fee <= MAX_FEE && (self.variant
            == PoolVariant::KatanaV2 ==> self.fee == 0)
    }

    /// The pool's own address.
    pub closed spec fn spec_address(self) -> Seq<u8> {
        self.address@
    }

    /// The token that the pool takes.
    pub closed spec fn spec_token_in(self) -> Seq<u8> {
        self.token_in@
    }

    /// The token that the pool gives.
    pub closed spec fn spec_token_out(self) -> Seq<u8> {
        self.token_out@
    }

    /// The pool's venue family.
    pub closed spec fn spec_variant(self) -> PoolVariant {
        self.variant
    }

    /// The pool's fee tier; zero for a family without fee tiers.
    pub closed spec fn spec_fee(self) -> nat {
        self.fee as nat
    }

    /// Every address of a pool has 20 bytes.
    pub proof fn lemma_address_lengths(self)
        ensures
            self.spec_address().len() == 20,
            self.spec_token_in().len() == 20,
            self.spec_token_out().len() == 20,
    {
    }

    /// A pool of the family `KatanaV2`, which has no fee tier. There is none between a
    /// token and itself.
    pub fn katana_v2(address: AddressBytes, token_in: AddressBytes, token_out: AddressBytes) -> (r:
        Option<Pool>)
        ensures
            token_in@ == token_out@ <==> r is None,
            r matches Some(pool) ==> pool.spec_address() == address@ && pool.spec_token_in()
                == token_in@ && pool.spec_token_out() == token_out@ && pool.spec_variant()
                == PoolVariant::KatanaV2 && pool.spec_fee() == 0,
    {
        if same_address(&token_in, &token_out) {
            None
        } else {
            Some(Pool { address, token_in, token_out, variant: PoolVariant::KatanaV2, fee: 0 })
        }
    }

    /// A pool of the family `KatanaV3` with fee tier `fee`. There is none between a
    /// token and itself, nor with a fee tier above [`MAX_FEE`].
    pub fn katana_v3(
        address: AddressBytes,
        token_in: AddressBytes,
        token_out: AddressBytes,
        fee: u32,
    ) -> (r: Option<Pool>)
        ensures
            (token_in@ == token_out@ || fee > MAX_FEE) <==> r is None,
            r matches Some(pool) ==> pool.spec_address() == address@ && pool.spec_token_in()
                == token_in@ && pool.spec_token_out() == token_out@ && pool.spec_variant()
                == PoolVariant::KatanaV3 && pool.spec_fee() == fee,
    {
        if same_address(&token_in, &token_out) || fee > MAX_FEE {
            None
        } else {
            Some(Pool { address, token_in, token_out, variant: PoolVariant::KatanaV3, fee })
        }
    }

    /// The pool's own address.
    pub fn address(&self) -> (r: AddressBytes)
        ensures
            r@ == self.spec_address(),
    {
        self.address
    }

    /// The token that the pool takes.
    pub fn token_in(&self) -> (r: AddressBytes)
        ensures
            r@ == self.spec_token_in(),
            r@ != self.spec_token_out(),
    {
        proof {
            use_type_invariant(self);
        }
        self.token_in
    }

    /// The token that the pool gives.
    pub fn token_out(&self) -> (r: AddressBytes)
        ensures
            r@ == self.spec_token_out(),
            r@ != self.spec_token_in(),
    {
        proof {
            use_type_invariant(self);
        }
        self.token_out
    }

    /// The pool's venue family.
    pub fn variant(&self) -> (r: PoolVariant)
        ensures
            r == self.spec_variant(),
    {
        self.variant
    }

    /// The pool's fee tier; zero for a family without fee tiers.
    pub fn fee(&self) -> (r: u32)
        ensures
            r == self.spec_fee(),
            r <= MAX_FEE,
    {
        proof {
            use_type_invariant(self);
        }
        self.fee
    }
}

/// Whether `pools` is a non-empty run of pools of the family `variant`.
pub open spec fn homogeneous(pools: Seq<Pool>, variant: PoolVariant) -> bool {
    pools.len() > 0 && forall|i: int|
        0 <= i < pools.len() ==> (#[trigger] pools[i]).spec_variant() == variant
}

/// Whether every pool takes the token that the pool before it gives.
pub open spec fn continuous(pools: Seq<Pool>) -> bool {
    forall|i: int, j: int|
        0 <= i && j == i + 1 && j < pools.len() ==> (#[trigger] pools[i]).spec_token_out() == (
        #[trigger] pools[j]).spec_token_in()
}

/// A run of consecutive pools of a route that share one venue family, tagged with that
/// family. It is never empty.
#[derive(Debug)]
pub struct Segment {
    variant: PoolVariant,
    pools: Vec<Pool>,
}

impl View for Segment {
    type V = Seq<Pool>;

    closed spec fn view(&self) -> Seq<Pool> {
        self.pools@
    }
}

impl Segment {
    #[verifier::type_invariant]
    spec fn valid(self) -> bool {
        homogeneous(self.pools@, self.variant)
    }

    /// The venue family of the segment's pools.
    pub closed spec fn spec_variant(self) -> PoolVariant {
        self.variant
    }

    /// The venue family of the segment's pools.
    pub fn variant(&self) -> (r: PoolVariant)
        ensures
            r == self.spec_variant(),
    {
        self.variant
    }

    /// The segment's pools, in route order: at least one, all of the segment's family.
    pub fn pools(&self) -> (r: &Vec<Pool>)
        ensures
            r@ == self@,
            homogeneous(r@, self.spec_variant()),
    {
        proof {
            use_type_invariant(self);
        }
        &self.pools
    }
}

/// The pools of a sequence of segments, one segment after the other.
pub open spec fn concat(segments: Seq<Segment>) -> Seq<Pool>
    decreases segments.len(),
{
    if segments.len() == 0 {
        Seq::empty()
    } else {
        concat(segments.drop_last()) + segments.last()@
    }
}

/// Whether each of `segments` is a non-empty run of the family that it is tagged with,
/// and no two neighbours share a family.
pub open spec fn well_cut(segments: Seq<Segment>) -> bool {
    &&& forall|k: int|
        0 <= k < segments.len() ==> homogeneous(
            (#[trigger] segments[k])@,
            segments[k].spec_variant(),
        )
    &&& forall|k: int, l: int|
        0 <= k && l == k + 1 && l < segments.len() ==> (#[trigger] segments[k]).spec_variant() != (
        #[trigger] segments[l]).spec_variant()
}

/// Whether `segments` is the cut of `pools` into its maximal runs of one venue family:
/// the segments, put one after the other, are `pools` again; each is a non-empty run of
/// the family that it is tagged with; and no two neighbours share a family, so that no
/// run could have been longer.
pub open spec fn is_segmentation(segments: Seq<Segment>, pools: Seq<Pool>) -> bool {
    concat(segments) == pools && well_cut(segments)
}

/// Appending a segment appends its pools.
proof fn lemma_concat_push(segments: Seq<Segment>, last: Segment)
    ensures
        concat(segments.push(last)) == concat(segments) + last@,
{
    assert(segments.push(last).drop_last() == segments);
}

/// A cut stays a cut when a run of another family than its last segment's is appended.
proof fn lemma_well_cut_push(segments: Seq<Segment>, last: Segment)
    requires
        well_cut(segments),
        homogeneous(last@, last.spec_variant()),
        segments.len() > 0 ==> segments.last().spec_variant() != last.spec_variant(),
    ensures
        well_cut(segments.push(last)),
{
}

/// A run stays a run when a pool of its family is appended.
proof fn lemma_homogeneous_push(pools: Seq<Pool>, pool: Pool, variant: PoolVariant)
    requires
        pools.len() == 0 || homogeneous(pools, variant),
        pool.spec_variant() == variant,
    ensures
        homogeneous(pools.push(pool), variant),
{
}

/// A cut without its last segment is a cut.
proof fn lemma_well_cut_front(segments: Seq<Segment>)
    requires
        well_cut(segments),
        segments.len() > 0,
    ensures
        well_cut(segments.drop_last()),
{
}

/// The pools of a cut end with the pools of its last segment.
proof fn lemma_concat_last(segments: Seq<Segment>)
    requires
        well_cut(segments),
        segments.len() > 0,
    ensures
        concat(segments) == concat(segments.drop_last()) + segments.last()@,
        segments.last()@.len() > 0,
        concat(segments).last() == segments.last()@.last(),
        concat(segments).last().spec_variant() == segments.last().spec_variant(),
{
}

/// Where two cuts of the same pools end in segments of one family, the shorter of the
/// two last segments cannot be shorter: the pool before it would belong to a segment of
/// another family in its own cut, and to the last segment in the other.
proof fn lemma_last_not_shorter(a: Seq<Segment>, b: Seq<Segment>)
    requires
        well_cut(a),
        well_cut(b),
        a.len() > 0,
        b.len() > 0,
        concat(a) == concat(b),
        a.last().spec_variant() == b.last().spec_variant(),
    ensures
        a.last()@.len() >= b.last()@.len(),
{
    lemma_concat_last(a);
    lemma_concat_last(b);
    if a.last()@.len() < b.last()@.len() {
        let front = a.drop_last();
        let pools = concat(a);
        lemma_well_cut_front(a);
        lemma_concat_last(front);
        let at = concat(front).len() - 1;
        let inside = at - concat(b.drop_last()).len();
        assert(pools[at] == b.last()@[inside]);
    }
}

/// A sequence of pools has one cut only: two cuts of the same pools have the same
/// segments, with the same pools and the same families.
pub proof fn lemma_segmentation_unique(a: Seq<Segment>, b: Seq<Segment>, pools: Seq<Pool>)
    requires
        is_segmentation(a, pools),
        is_segmentation(b, pools),
    ensures
        a.len() == b.len(),
        forall|k: int|
            0 <= k < a.len() ==> (#[trigger] a[k])@ == b[k]@ && a[k].spec_variant()
                == b[k].spec_variant(),
    decreases a.len(),
{
    if a.len() == 0 {
        if b.len() > 0 {
            lemma_concat_last(b);
        }
    } else if b.len() == 0 {
        lemma_concat_last(a);
    } else {
        lemma_concat_last(a);
        lemma_concat_last(b);
        lemma_last_not_shorter(a, b);
        lemma_last_not_shorter(b, a);
        let front_a = a.drop_last();
        let front_b = b.drop_last();
        let cut = pools.len() - a.last()@.len();
        assert(a.last()@ =~= pools.subrange(cut, pools.len() as int));
        assert(b.last()@ =~= pools.subrange(cut, pools.len() as int));
        assert(concat(front_a) =~= pools.take(cut));
        assert(concat(front_b) =~= pools.take(cut));
        lemma_well_cut_front(a);
        lemma_well_cut_front(b);
        lemma_segmentation_unique(front_a, front_b, pools.take(cut));
        assert forall|k: int| 0 <= k < a.len() implies (#[trigger] a[k])@ == b[k]@
            && a[k].spec_variant() == b[k].spec_variant() by {
            if k < front_a.len() {
                assert(front_a[k] == a[k] && front_b[k] == b[k]);
            }
        }
    }
}

/// Cuts a sequence of pools into segments: going from left to right, a pool joins the
/// segment of the pool before it where the two share a venue family, and starts a new
/// segment where they do not. No pools give no segments.
pub fn segment(pools: &Vec<Pool>) -> (r: Vec<Segment>)
    ensures
        is_segmentation(r@, pools@),
{
    let mut segments: Vec<Segment> = Vec::new();
    if pools.len() == 0 {
        assert(concat(segments@) =~= pools@);
        return segments;
    }
    let mut variant = pools[0].variant();
    let mut current: Vec<Pool> = Vec::new();
    proof {
        lemma_homogeneous_push(current@, pools@[0], variant);
    }
    current.push(pools[0]);
    let mut i: usize = 1;
    while i < pools.len()
        invariant
            1 <= i <= pools.len(),
            concat(segments@) + current@ == pools@.take(i as int),
            homogeneous(current@, variant),
            well_cut(segments@),
            segments.len() > 0 ==> segments@.last().spec_variant() != variant,
        decreases pools.len() - i,
    {
        let pool = pools[i];
        let family = pool.variant();
        let ghost done = concat(segments@) + current@;
        assert(pools@.take(i + 1) =~= done.push(pool));
        if family == variant {
            proof {
                lemma_homogeneous_push(current@, pool, variant);
            }
            current.push(pool);
            assert(concat(segments@) + current@ =~= done.push(pool));
        } else {
            let closed = Segment { variant, pools: current };
            proof {
                lemma_concat_push(segments@, closed);
                lemma_well_cut_push(segments@, closed);
                lemma_homogeneous_push(Seq::empty(), pool, family);
            }
            segments.push(closed);
            variant = family;
            current = Vec::new();
            current.push(pool);
            assert(concat(segments@) + current@ =~= done.push(pool));
        }
        i += 1;
    }
    let closed = Segment { variant, pools: current };
    proof {
        lemma_concat_push(segments@, closed);
        lemma_well_cut_push(segments@, closed);
        assert(pools@.take(pools.len() as int) =~= pools@);
    }
    segments.push(closed);
    segments
}

/// Whether every pool takes the token that the pool before it gives.
pub fn is_continuous(pools: &Vec<Pool>) -> (r: bool)
    ensures
        r == continuous(pools@),
{
    if pools.len() == 0 {
        return true;
    }
    let mut i: usize = 1;
    while i < pools.len()
        invariant
            1 <= i <= pools.len(),
            continuous(pools@.take(i as int)),
        decreases pools.len() - i,
    {
        let gives = pools[i - 1].token_out();
        let takes = pools[i].token_in();
        if !same_address(&gives, &takes) {
            return false;
        }
        proof {
            let shorter = pools@.take(i as int);
            let longer = pools@.take(i + 1);
            assert forall|a: int, b: int| 0 <= a && b == a + 1 && b < longer.len() implies (
            #[trigger] longer[a]).spec_token_out() == (#[trigger] longer[b]).spec_token_in() by {
                if b < shorter.len() {
                    assert(shorter[a] == longer[a] && shorter[b] == longer[b]);
                }
            }
        }
        i += 1;
    }
    assert(pools@.take(i as int) =~= pools@);
    true
}

/// A path from a source token to a destination token: at least one pool, each taking
/// the token that the pool before it gives, together with its cut into segments.
#[derive(Debug)]
pub struct Route {
    pools: Vec<Pool>,
    segments: Vec<Segment>,
}

impl View for Route {
    type V = Seq<Pool>;

    closed spec fn view(&self) -> Seq<Pool> {
        self.pools@
    }
}

impl Route {
    #[verifier::type_invariant]
    spec fn valid(self) -> bool {
        self.pools.len() > 0 && continuous(self.pools@) && is_segmentation(
            self.segments@,
            self.pools@,
        )
    }

    /// The route's segments.
    pub closed spec fn spec_segments(self) -> Seq<Segment> {
        self.segments@
    }

    /// The route through `pools`, in that order. An empty sequence is refused as
    /// [`InvalidRoute::Empty`], one in which some pool does not take the token that the
    /// pool before it gives as [`InvalidRoute::Discontinuous`]; every other sequence is
    /// a route.
    pub fn new(pools: Vec<Pool>) -> (r: Result<Route, InvalidRoute>)
        ensures
            pools.len() == 0 <==> r matches Err(InvalidRoute::Empty),
            pools.len() > 0 && !continuous(pools@) <==> r matches Err(InvalidRoute::Discontinuous),
            r matches Ok(route) ==> route@ == pools@,
    {
        if pools.len() == 0 {
            return Err(InvalidRoute::Empty);
        }
        if !is_continuous(&pools) {
            return Err(InvalidRoute::Discontinuous);
        }
        let segments = segment(&pools);
        Ok(Route { pools, segments })
    }

    /// The route's pools in order: at least one, each taking the token that the pool
    /// before it gives.
    pub fn pools(&self) -> (r: &Vec<Pool>)
        ensures
            r@ == self@,
            r.len() > 0,
            continuous(r@),
    {
        proof {
            use_type_invariant(self);
        }
        &self.pools
    }

    /// The route's segments in order: the cut of its pools into maximal runs of one
    /// venue family.
    pub fn segments(&self) -> (r: &Vec<Segment>)
        ensures
            r@ == self.spec_segments(),
            is_segmentation(r@, self@),
    {
        proof {
            use_type_invariant(self);
        }
        &self.segments
    }

    /// The token that the route takes: the one that its first pool takes.
    pub fn token_in(&self) -> (r: AddressBytes)
        ensures
            r@ == self@.first().spec_token_in(),
    {
        proof {
            use_type_invariant(self);
        }
        self.pools[0].token_in()
    }

    /// The token that the route gives: the one that its last pool gives.
    pub fn token_out(&self) -> (r: AddressBytes)
        ensures
            r@ == self@.last().spec_token_out(),
    {
        proof {
            use_type_invariant(self);
        }
        self.pools[self.pools.len() - 1].token_out()
    }
}

} // verus!
