use vstd::prelude::*;

use crate::codec::{flat, flatten, make_point, packs, Lane, LANE_WIDTH};

verus! {

/// Every point of `points` has exactly `dims` coordinates.
pub open spec fn all_of_len(points: Seq<Seq<u32>>, dims: nat) -> bool {
    forall|i: int| 0 <= i < points.len() ==> (#[trigger] points[i]).len() == dims
}

/// The coordinates of each point of `points`.
pub open spec fn view_points(points: Seq<Vec<u32>>) -> Seq<Seq<u32>> {
    points.map_values(|p: Vec<u32>| p@)
}

/// The bytes that `count` points of `dims` coordinates occupy: four per
/// coordinate, nothing more.
pub open spec fn points_bytes(count: nat, dims: nat) -> nat {
    count * (dims * 4)
}

/// `a * b` fits in a `u128` when both fit in a `usize`.
proof fn lemma_product_fits(a: nat, b: nat)
    requires
        a <= usize::MAX,
        b <= usize::MAX,
    ensures
        a * b <= u128::MAX,
{
    assert(a * b <= (usize::MAX as nat) * (usize::MAX as nat)) by (nonlinear_arith)
        requires
            a <= usize::MAX,
            b <= usize::MAX,
    ;
}

/// A store of points that all have the same number of coordinates.
pub trait Constellation: Sized {
    /// The number of coordinates of every point.
    spec fn dims(&self) -> nat;

    /// The stored points, in the order in which they were added.
    spec fn points(&self) -> Seq<Seq<u32>>;

    /// The store's internal invariant.
    spec fn wf(&self) -> bool;

    /// Appends `points`, each of which has the store's dimensionality; the
    /// caller checks the lengths.
    fn add_points(&mut self, points: Vec<Vec<u32>>)
        requires
            old(self).wf(),
            all_of_len(view_points(points@), old(self).dims()),
        ensures
            final(self).wf(),
            final(self).dims() == old(self).dims(),
            final(self).points() == old(self).points() + view_points(points@),
    ;

    /// The number of stored points.
    fn count(&self) -> (r: usize)
        requires
            self.wf(),
        ensures
            r == self.points().len(),
    ;

    /// The number of coordinates of every point.
    fn dimensions(&self) -> (r: usize)
        requires
            self.wf(),
        ensures
            r == self.dims(),
    ;

    /// The bytes that the stored coordinates occupy.
    fn memory_size(&self) -> (r: u128)
        requires
            self.wf(),
        ensures
            r == points_bytes(self.points().len(), self.dims()),
    ;

    /// A copy of the coordinates of the `i`-th stored point.
    fn point(&self, i: usize) -> (r: Vec<u32>)
        requires
            self.wf(),
            i < self.points().len(),
        ensures
            r@ == self.points()[i as int],
    ;
}

/// The reference store: each point kept as its plain coordinates.
pub struct SimpleConstellation {
    dims: usize,
    points: Vec<Vec<u32>>,
}

impl SimpleConstellation {
    /// An empty store for points of `dims` coordinates.
    pub fn new(dims: usize) -> (r: SimpleConstellation)
        requires
            dims * 4 <= usize::MAX,
        ensures
            r.wf(),
            r.dims() == dims,
            r.points() == Seq::<Seq<u32>>::empty(),
    {
        let r = SimpleConstellation { dims, points: Vec::new() };
        assert(view_points(r.points@) =~= Seq::<Seq<u32>>::empty());
        r
    }
}

impl Constellation for SimpleConstellation {
    closed spec fn dims(&self) -> nat {
        self.dims as nat
    }

    closed spec fn points(&self) -> Seq<Seq<u32>> {
        view_points(self.points@)
    }

    closed spec fn wf(&self) -> bool {
        &&& self.dims * 4 <= usize::MAX
        &&& all_of_len(view_points(self.points@), self.dims as nat)
    }

    fn add_points(&mut self, points: Vec<Vec<u32>>) {
        let ghost start = view_points(self.points@);
        let mut i: usize = 0;
        while i < points.len()
            invariant
                self.dims == old(self).dims,
                self.dims * 4 <= usize::MAX,
                start == old(self).points(),
                all_of_len(view_points(points@), self.dims as nat),
                0 <= i <= points@.len(),
                view_points(self.points@) =~= start + view_points(points@).subrange(0, i as int),
                all_of_len(view_points(self.points@), self.dims as nat),
            decreases points@.len() - i,
        {
            let p = points[i].clone();
            assert(view_points(points@)[i as int] == points@[i as int]@);
            assert(p@ =~= points@[i as int]@);
            let ghost before = self.points@;
            self.points.push(p);
            assert(view_points(self.points@) =~= view_points(before).push(p@));
            assert(view_points(self.points@) =~= start + view_points(points@).subrange(0, i + 1));
            i = i + 1;
        }
        assert(view_points(points@).subrange(0, points@.len() as int) =~= view_points(points@));
    }

    fn count(&self) -> (r: usize) {
        self.points.len()
    }

    fn dimensions(&self) -> (r: usize) {
        self.dims
    }

    fn memory_size(&self) -> (r: u128) {
        let per_point = self.dims * 4;
        let count = self.points.len();
        proof {
            lemma_product_fits(count as nat, per_point as nat);
        }
        (count as u128) * (per_point as u128)
    }

    fn point(&self, i: usize) -> (r: Vec<u32>) {
        let r = self.points[i].clone();
        assert(r@ =~= self.points@[i as int]@);
        r
    }
}

/// The lane-packed store: each point kept as lanes of four coordinates,
/// the layout that the wide distance scan reads.
pub struct SIMDConstellation {
    lanes: usize,
    points: Vec<Vec<Lane>>,
}

impl SIMDConstellation {
    /// An empty store for points of `lanes` lanes, that is `4 * lanes`
    /// coordinates.
    pub fn new(lanes: usize) -> (r: SIMDConstellation)
        requires
            lanes * 16 <= usize::MAX,
        ensures
            r.wf(),
            r.dims() == 4 * lanes,
            r.points() == Seq::<Seq<u32>>::empty(),
    {
        let r = SIMDConstellation { lanes, points: Vec::new() };
        assert(r.points() =~= Seq::<Seq<u32>>::empty());
        r
    }

    /// The lanes of the `i`-th stored point.
    pub fn point_lanes(&self, i: usize) -> (r: &Vec<Lane>)
        requires
            self.wf(),
            i < self.points().len(),
        ensures
            r@.len() * 4 == self.dims(),
            flat(r@) == self.points()[i as int],
    {
        &self.points[i]
    }
}

impl Constellation for SIMDConstellation {
    closed spec fn dims(&self) -> nat {
        (4 * self.lanes) as nat
    }

    closed spec fn points(&self) -> Seq<Seq<u32>> {
        self.points@.map_values(|p: Vec<Lane>| flat(p@))
    }

    closed spec fn wf(&self) -> bool {
        &&& self.lanes * 16 <= usize::MAX
        &&& forall|i: int| 0 <= i < self.points@.len() ==> (#[trigger] self.points@[i])@.len()
            == self.lanes
    }

    fn add_points(&mut self, points: Vec<Vec<u32>>) {
        let ghost start = self.points();
        let mut i: usize = 0;
        while i < points.len()
            invariant
                self.lanes == old(self).lanes,
                self.wf(),
                start == old(self).points(),
                all_of_len(view_points(points@), (4 * self.lanes) as nat),
                0 <= i <= points@.len(),
                self.points() =~= start + view_points(points@).subrange(0, i as int),
            decreases points@.len() - i,
        {
            assert(view_points(points@)[i as int] == points@[i as int]@);
            assert(points@[i as int]@.len() % 4 == 0);
            let lanes = make_point(&points[i]);
            proof {
                crate::codec::lemma_pack_round_trip(points@[i as int]@, lanes@);
            }
            let ghost before = self.points@;
            self.points.push(lanes);
            assert(self.points@.map_values(|p: Vec<Lane>| flat(p@)) =~= before.map_values(
                |p: Vec<Lane>| flat(p@),
            ).push(flat(lanes@)));
            assert(self.points() =~= start + view_points(points@).subrange(0, i + 1));
            i = i + 1;
        }
        assert(view_points(points@).subrange(0, points@.len() as int) =~= view_points(points@));
    }

    fn count(&self) -> (r: usize) {
        self.points.len()
    }

    fn dimensions(&self) -> (r: usize) {
        LANE_WIDTH * self.lanes
    }

    fn memory_size(&self) -> (r: u128) {
        let per_point = self.lanes * 16;
        let count = self.points.len();
        proof {
            lemma_product_fits(count as nat, per_point as nat);
        }
        (count as u128) * (per_point as u128)
    }

    fn point(&self, i: usize) -> (r: Vec<u32>) {
        flatten(&self.points[i])
    }
}

} // verus!
