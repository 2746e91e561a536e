use vstd::prelude::*;

verus! {

/// The number of coordinates packed into one lane.
pub const LANE_WIDTH: usize = 4;

/// Four coordinates that the distance scan handles as one wide value.
pub type Lane = [u32; 4];

/// The coordinates of `lanes` one after the other, lane by lane.
pub open spec fn flat(lanes: Seq<Lane>) -> Seq<u32> {
    Seq::new(4 * lanes.len(), |i: int| lanes[i / 4]@[i % 4])
}

/// `lanes` holds the coordinates of `coords`, four to a lane, in order.
pub open spec fn packs(lanes: Seq<Lane>, coords: Seq<u32>) -> bool {
    &&& coords.len() == 4 * lanes.len()
    &&& forall|i: int| 0 <= i < coords.len() ==> #[trigger] coords[i] == lanes[i / 4]@[i % 4]
}

/// Packs a point's coordinates into lanes of four; the number of
/// coordinates must be a multiple of the lane width.
pub fn make_point(coords: &Vec<u32>) -> (r: Vec<Lane>)
    requires
        coords@.len() % 4 == 0,
    ensures
        packs(r@, coords@),
{
    let len = coords.len();
    let n = len / LANE_WIDTH;
    let mut lanes: Vec<Lane> = Vec::with_capacity(n);
    let mut k: usize = 0;
    while k < n
        invariant
            len == coords@.len(),
            n == len / 4,
            len % 4 == 0,
            0 <= k <= n,
            lanes@.len() == k,
            forall|i: int| 0 <= i < 4 * k ==> #[trigger] coords@[i] == lanes@[i / 4]@[i % 4],
        decreases n - k,
    {
        assert(4 * k + 3 < len) by (nonlinear_arith)
            requires
                k < n,
                n == len / 4,
        ;
        let b = 4 * k;
        let lane: Lane = [coords[b], coords[b + 1], coords[b + 2], coords[b + 3]];
        lanes.push(lane);
        proof {
            assert forall|i: int| 0 <= i < 4 * (k + 1) implies #[trigger] coords@[i]
                == lanes@[i / 4]@[i % 4] by {
                if i >= 4 * k {
                    assert(i / 4 == k as int);
                }
            }
        }
        k = k + 1;
    }
    lanes
}

/// The coordinates of a lane-packed point, in order.
pub fn flatten(lanes: &Vec<Lane>) -> (r: Vec<u32>)
    requires
        4 * lanes@.len() <= usize::MAX,
    ensures
        r@ == flat(lanes@),
{
    let mut coords: Vec<u32> = Vec::with_capacity(4 * lanes.len());
    let mut k: usize = 0;
    while k < lanes.len()
        invariant
            4 * lanes@.len() <= usize::MAX,
            0 <= k <= lanes@.len(),
            coords@.len() == 4 * k,
            forall|i: int| 0 <= i < 4 * k ==> #[trigger] coords@[i] == lanes@[i / 4]@[i % 4],
        decreases lanes@.len() - k,
    {
        let lane = lanes[k];
        let mut j: usize = 0;
        while j < LANE_WIDTH
            invariant
                0 <= k < lanes@.len(),
                lane == lanes@[k as int],
                0 <= j <= 4,
                coords@.len() == 4 * k + j,
                forall|i: int| 0 <= i < 4 * k + j ==> #[trigger] coords@[i] == lanes@[i / 4]@[i % 4],
            decreases 4 - j,
        {
            coords.push(lane[j]);
            proof {
                let i = 4 * k + j;
                assert(i / 4 == k as int);
                assert(i % 4 == j as int);
            }
            j = j + 1;
        }
        k = k + 1;
    }
    assert(coords@ =~= flat(lanes@));
    coords
}

/// Unpacking the lanes of a packed point gives back its coordinates.
pub proof fn lemma_flat_of_packed(lanes: Seq<Lane>, coords: Seq<u32>)
    requires
        packs(lanes, coords),
    ensures
        flat(lanes) == coords,
{
    assert(flat(lanes) =~= coords);
}

/// Packing coordinates and unpacking the lanes again gives back exactly the
/// coordinates: the packed layout loses and reorders nothing.
pub proof fn lemma_pack_round_trip(coords: Seq<u32>, lanes: Seq<Lane>)
    requires
        coords.len() % 4 == 0,
        packs(lanes, coords),
    ensures
        flat(lanes) == coords,
        lanes.len() == coords.len() / 4,
{
    lemma_flat_of_packed(lanes, coords);
}

} // verus!
