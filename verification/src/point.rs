//! Points and the dataset they form.

use vstd::prelude::*;

use crate::bounds::{MAX_ABS_COORDINATE, MAX_DIMENSION, MAX_POINT_COUNT};
use crate::centroid::{Centroid, Centroids};
use crate::kmeans::{CentroidsInitMethod, DistanceMetric, KmeansError};
use crate::sampling::{
    derive_seed, fresh_seed, sample_indices, sample_indices_of, uniform_index, uniform_index_of,
    weight_total, weight_total_upto, weighted_index, weighted_index_of,
};

verus! {

/// A point: an ordered sequence of integer coordinates.
#[derive(Clone, Debug, Default, PartialEq)]
pub struct Point {
    pub values: Vec<i64>,
}

impl View for Point {
    type V = Seq<int>;

    open spec fn view(&self) -> Seq<int> {
        self.values@.map(|_i: int, v: i64| v as int)
    }
}

/// The sum over the first `i` coordinates of the squared differences of `p`
/// and `q`: the prefix sums of the squared Euclidean distance.
pub open spec fn sq_dist_upto(p: Seq<int>, q: Seq<int>, i: int) -> int
    decreases i,
{
    if i <= 0 {
        0
    } else {
        sq_dist_upto(p, q, i - 1) + (p[i - 1] - q[i - 1]) * (p[i - 1] - q[i - 1])
    }
}

/// The squared Euclidean distance between two points of equal dimension.
pub open spec fn sq_dist(p: Seq<int>, q: Seq<int>) -> int {
    sq_dist_upto(p, q, p.len() as int)
}

/// An element-wise copy of a coordinate vector.
pub fn copy_coords(v: &Vec<i64>) -> (r: Vec<i64>)
    ensures
        r@ == v@,
{
    let n = v.len();
    let mut r: Vec<i64> = Vec::new();
    let mut i: usize = 0;
    while i < n
        invariant
            n == v@.len(),
            i <= n,
            r@ =~= v@.take(i as int),
        decreases n - i,
    {
        r.push(v[i]);
        proof {
            assert(r@ =~= v@.take(i + 1));
        }
        i = i + 1;
    }
    proof {
        assert(v@.take(n as int) =~= v@);
    }
    r
}

impl Point {
    /// All coordinates within the magnitude bound, and not more coordinates
    /// than the dimension bound.
    pub open spec fn wf(&self) -> bool {
        &&& self@.len() <= MAX_DIMENSION
        &&& forall|i: int|
            0 <= i < self@.len() ==> -MAX_ABS_COORDINATE <= #[trigger] self@[i]
                <= MAX_ABS_COORDINATE
    }

    /// The number of coordinates.
    pub fn dim(&self) -> (d: usize)
        ensures
            d == self@.len(),
    {
        self.values.len()
    }

    /// The squared Euclidean distance between `self` and `other`, computed
    /// exactly; points of differing dimensions are rejected. The squared
    /// distance orders any set of points exactly as the Euclidean metric
    /// does, so it is the single comparison primitive of this library.
    pub fn distance(&self, other: &Point, metric: Option<DistanceMetric>) -> (r: Result<
        u64,
        KmeansError,
    >)
        requires
            self.wf(),
            other.wf(),
        ensures
            r is Ok <==> self@.len() == other@.len(),
            r is Ok ==> r->Ok_0 == sq_dist(self@, other@),
            r is Err ==> r == Err::<u64, KmeansError>(KmeansError::DimensionMismatch),
    {
        match metric {
            None | Some(DistanceMetric::Euclidean) => {},
        }
        if self.values.len() != other.values.len() {
            return Err(KmeansError::DimensionMismatch);
        }
        proof {
            assert forall|i: int| 0 <= i < self.values@.len() implies -MAX_ABS_COORDINATE
                <= #[trigger] self.values@[i] <= MAX_ABS_COORDINATE by {
                assert(self@[i] == self.values@[i] as int);
            }
            assert forall|i: int| 0 <= i < other.values@.len() implies -MAX_ABS_COORDINATE
                <= #[trigger] other.values@[i] <= MAX_ABS_COORDINATE by {
                assert(other@[i] == other.values@[i] as int);
            }
        }
        Ok(sq_dist_vecs(&self.values, &other.values))
    }
}

/// The exact squared Euclidean distance between two coordinate vectors of
/// one dimension, with the bound that keeps downstream sums overflow-free.
pub(crate) fn sq_dist_vecs(a: &Vec<i64>, b: &Vec<i64>) -> (r: u64)
    requires
        a@.len() == b@.len(),
        a@.len() <= MAX_DIMENSION,
        forall|i: int| 0 <= i < a@.len() ==> -MAX_ABS_COORDINATE <= #[trigger] a@[i] <= MAX_ABS_COORDINATE,
        forall|i: int| 0 <= i < b@.len() ==> -MAX_ABS_COORDINATE <= #[trigger] b@[i] <= MAX_ABS_COORDINATE,
    ensures
        r == sq_dist(a@.map(|_i: int, v: i64| v as int), b@.map(|_i: int, v: i64| v as int)),
        r <= 288230376151711744,
{
    let ghost pa = a@.map(|_i: int, v: i64| v as int);
    let ghost pb = b@.map(|_i: int, v: i64| v as int);
    let d = a.len();
    let mut acc: u64 = 0;
    let mut i: usize = 0;
    while i < d
        invariant
            d == pa.len(),
            d == pb.len(),
            d == a@.len(),
            d == b@.len(),
            d <= MAX_DIMENSION,
            pa == a@.map(|_i: int, v: i64| v as int),
            pb == b@.map(|_i: int, v: i64| v as int),
            forall|t: int| 0 <= t < d ==> -MAX_ABS_COORDINATE <= #[trigger] a@[t] <= MAX_ABS_COORDINATE,
            forall|t: int| 0 <= t < d ==> -MAX_ABS_COORDINATE <= #[trigger] b@[t] <= MAX_ABS_COORDINATE,
            i <= d,
            acc == sq_dist_upto(pa, pb, i as int),
            acc <= i * 4398046511104,
        decreases d - i,
    {
        proof {
            assert(pa[i as int] == a@[i as int] as int);
            assert(pb[i as int] == b@[i as int] as int);
        }
        let diff: i64 = a[i] - b[i];
        proof {
            let dd = diff as int;
            assert(dd * dd <= 4398046511104) by (nonlinear_arith)
                requires
                    -2097152 <= dd <= 2097152,
            ;
            assert(dd * dd >= 0) by (nonlinear_arith);
        }
        let sq: i64 = diff * diff;
        acc = acc + (sq as u64);
        i = i + 1;
    }
    acc
}

/// Whether every coordinate row has the length of the first: the
/// precondition for raw rows to form a dataset of one dimension.
pub open spec fn uniform_rows(values: Seq<Vec<i64>>) -> bool {
    forall|i: int| 0 <= i < values.len() ==> (#[trigger] values[i]).len() == values[0].len()
}

/// The mathematical content of raw coordinate rows: each row as a
/// sequence of integers.
pub open spec fn values_view(values: Seq<Vec<i64>>) -> Seq<Seq<int>> {
    values.map(|_i: int, v: Vec<i64>| v@.map(|_j: int, x: i64| x as int))
}

/// The dataset: an ordered, indexed collection of points.
#[derive(Clone, Debug, Default, PartialEq)]
pub struct Points(pub Vec<Point>);

impl View for Points {
    type V = Seq<Seq<int>>;

    open spec fn view(&self) -> Seq<Seq<int>> {
        self.0@.map(|_i: int, p: Point| p@)
    }
}

impl Points {
    /// The dimension shared by all points of a well-formed dataset.
    pub open spec fn spec_dim(&self) -> int {
        if self@.len() == 0 {
            0
        } else {
            self@[0].len() as int
        }
    }

    /// Not more points than the size bound, every point within the
    /// coordinate bounds, and all points of one dimension.
    pub open spec fn wf(&self) -> bool {
        &&& self@.len() <= MAX_POINT_COUNT
        &&& forall|i: int| 0 <= i < self.0@.len() ==> (#[trigger] self.0@[i]).wf()
        &&& forall|i: int| 0 <= i < self@.len() ==> (#[trigger] self@[i]).len() == self.spec_dim()
    }

    /// The number of points.
    pub fn len(&self) -> (n: usize)
        ensures
            n == self@.len(),
    {
        self.0.len()
    }

    /// Builds a dataset from raw coordinate rows, rejecting rows of
    /// differing lengths.
    pub fn from_values(values: Vec<Vec<i64>>) -> (r: Result<Points, KmeansError>)
        requires
            values@.len() <= MAX_POINT_COUNT,
            forall|i: int| 0 <= i < values@.len() ==> (#[trigger] values@[i]).len() <= MAX_DIMENSION,
            forall|i: int, j: int|
                0 <= i < values@.len() && 0 <= j < values@[i].len() ==> -MAX_ABS_COORDINATE <= #[trigger] values@[i][j] <= MAX_ABS_COORDINATE,
        ensures
            r is Ok <==> uniform_rows(values@),
            r is Err ==> r == Err::<Points, KmeansError>(KmeansError::DimensionMismatch),
            r is Ok ==> (r->Ok_0).wf(),
            r is Ok ==> (r->Ok_0)@.len() == values@.len(),
            r is Ok ==> forall|i: int, j: int|
                0 <= i < values@.len() && 0 <= j < values@[i].len() ==> (r->Ok_0)@[i][j]
                    == values@[i][j],
            r is Ok ==> forall|i: int|
                0 <= i < values@.len() ==> (#[trigger] (r->Ok_0)@[i]).len() == values@[i].len(),
            r is Ok ==> (r->Ok_0)@ == values_view(values@),
    {
        let n = values.len();
        let mut points: Vec<Point> = Vec::new();
        let mut i: usize = 0;
        while i < n
            invariant
                n == values@.len(),
                i <= n,
                points@.len() == i,
                forall|t: int| 0 <= t < i ==> (#[trigger] values@[t]).len() == values@[0].len(),
                forall|t: int| 0 <= t < i ==> (#[trigger] points@[t]).wf(),
                forall|t: int|
                    0 <= t < i ==> (#[trigger] points@[t])@ =~= values@[t]@.map(
                        |_u: int, v: i64| v as int,
                    ),
                forall|t: int| 0 <= t < values@.len() ==> (#[trigger] values@[t]).len()
                    <= MAX_DIMENSION,
                forall|t: int, j: int|
                    0 <= t < values@.len() && 0 <= j < values@[t].len() ==> -MAX_ABS_COORDINATE
                        <= #[trigger] values@[t][j] <= MAX_ABS_COORDINATE,
            decreases n - i,
        {
            if values[i].len() != values[0].len() {
                return Err(KmeansError::DimensionMismatch);
            }
            let row: Vec<i64> = copy_coords(&values[i]);
            let p = Point { values: row };
            proof {
                assert(p@ =~= values@[i as int]@.map(|_u: int, v: i64| v as int));
            }
            points.push(p);
            i = i + 1;
        }
        let result = Points(points);
        proof {
            assert forall|t: int| 0 <= t < result@.len() implies (#[trigger] result@[t]).len()
                == result.spec_dim() by {
                assert(result@[t] == points@[t]@);
                assert(points@[t]@.len() == values@[t]@.len());
            }
            assert forall|t: int, j: int|
                0 <= t < values@.len() && 0 <= j < values@[t].len() implies result@[t][j]
                == values@[t][j] by {
                assert(result@[t] == points@[t]@);
            }
            assert(result@ =~= values_view(values@));
        }
        Ok(result)
    }
}

/// Whether `result` lists exactly the points of `points` at the positions
/// `idxs`: a draw without replacement, in draw order.
pub open spec fn is_sample_of(result: Seq<Seq<int>>, points: Seq<Seq<int>>, idxs: Seq<usize>) -> bool {
    &&& idxs.len() == result.len()
    &&& forall|i: int| 0 <= i < idxs.len() ==> (#[trigger] idxs[i]) < points.len()
    &&& forall|i: int, j: int| 0 <= i < j < idxs.len() ==> idxs[i] != idxs[j]
    &&& forall|i: int| 0 <= i < idxs.len() ==> result[i] == points[#[trigger] idxs[i] as int]
}

/// Whether centroid `c` stands exactly at some point of the dataset.
pub open spec fn centroid_at_some_point(c: (Seq<int>, int), points: Seq<Seq<int>>) -> bool {
    exists|m: int| 0 <= m < points.len() && c.0 == #[trigger] points[m]
}

/// Whether every centroid of `c` stands exactly at some point of the
/// dataset, as initial centroids do.
pub open spec fn all_centroids_from(c: Seq<(Seq<int>, int)>, points: Seq<Seq<int>>) -> bool {
    forall|j: int| 0 <= j < c.len() ==> centroid_at_some_point(#[trigger] c[j], points)
}

/// The points that a seeded draw of `k` indices selects.
pub open spec fn sampled_points_spec(points: Seq<Seq<int>>, seed: u64, k: usize) -> Seq<Seq<int>> {
    let idxs = sample_indices_of(seed, points.len() as usize, k);
    Seq::new(k as nat, |i: int| points[idxs[i] as int])
}

/// The centroids that seeded uniform initialization yields: the `k`
/// sampled points, each a centroid of count one, in draw order.
pub open spec fn random_init_spec(points: Seq<Seq<int>>, seed: u64, k: usize) -> Seq<(Seq<int>, int)> {
    let idxs = sample_indices_of(seed, points.len() as usize, k);
    Seq::new(k as nat, |j: int| (points[idxs[j] as int], 1))
}

/// The smallest squared distance from `p` to any of the first `i`
/// centroids of `cs` (all of count one during initialization).
pub open spec fn min_sq_dist(p: Seq<int>, cs: Seq<(Seq<int>, int)>, i: int) -> int
    decreases i,
{
    if i <= 1 {
        sq_dist(p, cs[0].0)
    } else {
        let prev = min_sq_dist(p, cs, i - 1);
        let cur = sq_dist(p, cs[i - 1].0);
        if cur < prev {
            cur
        } else {
            prev
        }
    }
}

/// The k-means++ sampling weights: for every point, its smallest squared
/// distance to a centroid chosen so far. A point already chosen weighs
/// zero and is never drawn again while any weight is positive.
pub open spec fn pp_weights(points: Seq<Seq<int>>, chosen: Seq<(Seq<int>, int)>) -> Seq<u128> {
    Seq::new(points.len(), |i: int| min_sq_dist(points[i], chosen, chosen.len() as int) as u128)
}

/// The point index the k-means++ draw numbered `step` picks: weighted by
/// squared distance to the nearest chosen centroid, or uniform when every
/// point coincides with a chosen centroid (all weights zero).
pub open spec fn pp_pick(
    points: Seq<Seq<int>>,
    chosen: Seq<(Seq<int>, int)>,
    seed: u64,
    step: u64,
) -> usize {
    let ws = pp_weights(points, chosen);
    if weight_total(ws) == 0 {
        uniform_index_of(
            vstd::wrapping::u64_specs::wrapping_add(seed, step),
            points.len() as usize,
        )
    } else {
        weighted_index_of(vstd::wrapping::u64_specs::wrapping_add(seed, step), ws)
    }
}

/// The centroids that seeded k-means++ initialization yields: the first
/// drawn uniformly, every further one by `pp_pick` over those before it.
pub open spec fn kmeanspp_spec(points: Seq<Seq<int>>, seed: u64, k: int) -> Seq<(Seq<int>, int)>
    decreases k,
{
    if k <= 0 {
        Seq::empty()
    } else if k == 1 {
        Seq::empty().push(
            (
                points[uniform_index_of(
                    vstd::wrapping::u64_specs::wrapping_add(seed, 0),
                    points.len() as usize,
                ) as int],
                1,
            ),
        )
    } else {
        let prev = kmeanspp_spec(points, seed, k - 1);
        prev.push((points[pp_pick(points, prev, seed, (k - 1) as u64) as int], 1))
    }
}

/// Seeded k-means++ initialization yields exactly `k` centroids.
pub proof fn lemma_kmeanspp_spec_len(points: Seq<Seq<int>>, seed: u64, k: int)
    requires
        0 <= k,
    ensures
        kmeanspp_spec(points, seed, k).len() == k,
    decreases k,
{
    if k > 0 && k != 1 {
        lemma_kmeanspp_spec_len(points, seed, k - 1);
    }
}

/// Seeded initialization yields exactly `k` centroids under either method.
pub proof fn lemma_init_centroids_spec_len(
    points: Seq<Seq<int>>,
    method: CentroidsInitMethod,
    k: usize,
    seed: u64,
)
    ensures
        init_centroids_spec(points, method, k, seed).len() == k,
{
    match method {
        CentroidsInitMethod::Random => {},
        CentroidsInitMethod::KmeansPlusPlus => {
            lemma_kmeanspp_spec_len(points, seed, k as int);
        },
    }
}

/// The centroids that seeded initialization yields under either method.
pub open spec fn init_centroids_spec(
    points: Seq<Seq<int>>,
    method: CentroidsInitMethod,
    k: usize,
    seed: u64,
) -> Seq<(Seq<int>, int)> {
    match method {
        CentroidsInitMethod::Random => random_init_spec(points, seed, k),
        CentroidsInitMethod::KmeansPlusPlus => kmeanspp_spec(points, seed, k as int),
    }
}

/// The smallest squared distance from `p` to any centroid of `chosen`,
/// computed exactly.
fn min_dist_to_chosen(p: &Point, chosen: &Vec<Centroid>) -> (r: u64)
    requires
        p.wf(),
        1 <= chosen@.len(),
        forall|j: int| 0 <= j < chosen@.len() ==> (#[trigger] chosen@[j]).wf(p@.len() as int),
        forall|j: int| 0 <= j < chosen@.len() ==> (#[trigger] chosen@[j])@.1 == 1,
    ensures
        r == min_sq_dist(p@, chosen@.map(|_i: int, c: Centroid| c@), chosen@.len() as int),
        r <= 288230376151711744,
{
    let ghost cs = chosen@.map(|_i: int, c: Centroid| c@);
    let m = chosen.len();
    proof {
        assert forall|i: int| 0 <= i < p.values@.len() implies -MAX_ABS_COORDINATE
            <= #[trigger] p.values@[i] <= MAX_ABS_COORDINATE by {
            assert(p@[i] == p.values@[i] as int);
        }
        assert forall|j: int, i: int|
            0 <= j < m && 0 <= i < chosen@[j].sums@.len() implies -MAX_ABS_COORDINATE
            <= #[trigger] chosen@[j].sums@[i] <= MAX_ABS_COORDINATE by {
            assert(chosen@[j]@.0[i] == chosen@[j].sums@[i] as int);
            assert(-(chosen@[j]@.1 * MAX_ABS_COORDINATE) <= chosen@[j]@.0[i] <= chosen@[j]@.1
                * MAX_ABS_COORDINATE);
        }
    }
    let mut best: u64 = sq_dist_vecs(&p.values, &chosen[0].sums);
    proof {
        assert(cs[0].0 =~= chosen@[0].sums@.map(|_i: int, v: i64| v as int));
    }
    let mut j: usize = 1;
    while j < m
        invariant
            p.wf(),
            m == chosen@.len(),
            cs == chosen@.map(|_i: int, c: Centroid| c@),
            forall|t: int| 0 <= t < m ==> (#[trigger] chosen@[t]).wf(p@.len() as int),
            forall|t: int| 0 <= t < m ==> (#[trigger] chosen@[t])@.1 == 1,
            forall|t: int, i: int|
                0 <= t < m && 0 <= i < chosen@[t].sums@.len() ==> -MAX_ABS_COORDINATE
                    <= #[trigger] chosen@[t].sums@[i] <= MAX_ABS_COORDINATE,
            forall|i: int|
                0 <= i < p.values@.len() ==> -MAX_ABS_COORDINATE <= #[trigger] p.values@[i]
                    <= MAX_ABS_COORDINATE,
            1 <= j <= m,
            best == min_sq_dist(p@, cs, j as int),
            best <= 288230376151711744,
        decreases m - j,
    {
        let cur: u64 = sq_dist_vecs(&p.values, &chosen[j].sums);
        proof {
            assert(cs[j as int].0 =~= chosen@[j as int].sums@.map(|_i: int, v: i64| v as int));
        }
        if cur < best {
            best = cur;
        }
        j = j + 1;
    }
    best
}

impl Points {
    /// Draws `k` points without replacement, pseudo-randomly; with a seed
    /// the draw is the seeded one named by `sampled_points_spec`, without
    /// one it is some such draw for a fresh seed. A request for more
    /// points than the dataset holds is a configuration error.
    pub fn sample(&self, k: usize, random_seed: Option<u64>) -> (r: Result<Points, KmeansError>)
        requires
            self.wf(),
        ensures
            r is Ok <==> k <= self@.len(),
            r is Err ==> r == Err::<Points, KmeansError>(KmeansError::Configuration),
            r is Ok ==> (r->Ok_0).wf(),
            r is Ok ==> (r->Ok_0)@.len() == k,
            r is Ok ==> forall|i: int|
                0 <= i < k ==> (#[trigger] (r->Ok_0)@[i]).len() == self.spec_dim(),
            r is Ok ==> exists|idxs: Seq<usize>| is_sample_of((r->Ok_0)@, self@, idxs),
            r is Ok && random_seed is Some ==> (r->Ok_0)@ == sampled_points_spec(
                self@,
                random_seed->0,
                k,
            ) && is_sample_of(
                (r->Ok_0)@,
                self@,
                sample_indices_of(random_seed->0, self@.len() as usize, k),
            ),
    {
        let n = self.0.len();
        if k > n {
            return Err(KmeansError::Configuration);
        }
        let seed: u64 = match random_seed {
            Some(s) => s,
            None => fresh_seed(),
        };
        let idxs = sample_indices(seed, n, k);
        let mut picked: Vec<Point> = Vec::new();
        let mut t: usize = 0;
        while t < k
            invariant
                self.wf(),
                n == self@.len(),
                k <= n,
                idxs@.len() == k,
                forall|i: int| 0 <= i < k ==> #[trigger] idxs@[i] < n,
                t <= k,
                picked@.len() == t,
                forall|i: int| 0 <= i < t ==> (#[trigger] picked@[i]).wf(),
                forall|i: int| 0 <= i < t ==> (#[trigger] picked@[i])@ == self@[idxs@[i] as int],
            decreases k - t,
        {
            let idx = idxs[t];
            let p = Point { values: copy_coords(&self.0[idx].values) };
            proof {
                assert(p@ =~= self@[idx as int]);
                assert(self.0@[idx as int].wf());
            }
            picked.push(p);
            t = t + 1;
        }
        let result = Points(picked);
        proof {
            assert(is_sample_of(result@, self@, idxs@));
            assert(exists|s: Seq<usize>| is_sample_of(result@, self@, s));
            assert forall|i: int| 0 <= i < k implies (#[trigger] result@[i]).len()
                == self.spec_dim() by {
                assert(result@[i] == self@[idxs@[i] as int]);
            }
            assert forall|i: int| 0 <= i < result@.len() implies (#[trigger] result@[i]).len()
                == result.spec_dim() by {
                assert(result@[0].len() == self.spec_dim());
            }
            if random_seed is Some {
                assert(idxs@ == sample_indices_of(seed, n, k));
                assert(result@ =~= sampled_points_spec(self@, seed, k));
            }
        }
        Ok(result)
    }

    /// Seeded uniform initialization: the `k` sampled points become the
    /// centroids of clusters `0..k-1` in draw order, each of count one.
    fn get_random_init_centroids(&self, k: usize, seed: u64) -> (r: Result<Centroids, KmeansError>)
        requires
            self.wf(),
        ensures
            r is Ok <==> 1 <= k <= self@.len(),
            r is Err ==> r == Err::<Centroids, KmeansError>(KmeansError::Configuration),
            r is Ok ==> (r->Ok_0)@ == random_init_spec(self@, seed, k),
            r is Ok ==> (r->Ok_0)@.len() == k,
            r is Ok ==> (r->Ok_0).wf(self.spec_dim()),
            r is Ok ==> forall|j: int| 0 <= j < k ==> (#[trigger] (r->Ok_0)@[j]).1 == 1,
            r is Ok ==> all_centroids_from((r->Ok_0)@, self@),
    {
        if k == 0 {
            return Err(KmeansError::Configuration);
        }
        let sampled = match self.sample(k, Some(seed)) {
            Ok(pts) => pts,
            Err(_) => {
                return Err(KmeansError::Configuration);
            },
        };
        let ghost idxs = sample_indices_of(seed, self@.len() as usize, k);
        let mut cents: Vec<Centroid> = Vec::new();
        let mut j: usize = 0;
        while j < k
            invariant
                self.wf(),
                sampled.wf(),
                sampled@.len() == k,
                1 <= k <= self@.len(),
                is_sample_of(sampled@, self@, idxs),
                sampled@ == sampled_points_spec(self@, seed, k),
                forall|i: int| 0 <= i < k ==> (#[trigger] sampled@[i]).len() == self.spec_dim(),
                j <= k,
                cents@.len() == j,
                forall|t: int| 0 <= t < j ==> (#[trigger] cents@[t])@ == (sampled@[t], 1int),
                forall|t: int| 0 <= t < j ==> (#[trigger] cents@[t]).wf(self.spec_dim()),
            decreases k - j,
        {
            let c = Centroid::from_point(&sampled.0[j]);
            proof {
                assert(sampled.0@[j as int].wf());
                assert(sampled.0@[j as int]@ == sampled@[j as int]);
            }
            cents.push(c);
            j = j + 1;
        }
        let r = Centroids { centroids: cents };
        proof {
            assert(r@ =~= random_init_spec(self@, seed, k));
            assert forall|t: int| 0 <= t < r@.len() implies centroid_at_some_point(
                #[trigger] r@[t],
                self@,
            ) by {
                assert(r@[t].0 == sampled@[t]);
                assert(sampled@[t] == self@[idxs[t] as int]);
                assert(0 <= (idxs[t] as int) < self@.len() && r@[t].0 == self@[idxs[t] as int]);
            }
            assert(all_centroids_from(r@, self@));
        }
        Ok(r)
    }

    /// Seeded k-means++ initialization: the first centroid is a uniformly
    /// drawn point; each further one is drawn with probability
    /// proportional to its squared distance to the nearest centroid chosen
    /// so far (the textbook D-squared weighting, exact in integers). When
    /// every point coincides with a chosen centroid, the draw falls back
    /// to uniform.
    fn get_kmeans_plus_init_centroids(&self, k: usize, seed: u64) -> (r: Result<
        Centroids,
        KmeansError,
    >)
        requires
            self.wf(),
        ensures
            r is Ok <==> 1 <= k <= self@.len(),
            r is Err ==> r == Err::<Centroids, KmeansError>(KmeansError::Configuration),
            r is Ok ==> (r->Ok_0)@ == kmeanspp_spec(self@, seed, k as int),
            r is Ok ==> (r->Ok_0)@.len() == k,
            r is Ok ==> (r->Ok_0).wf(self.spec_dim()),
            r is Ok ==> forall|j: int| 0 <= j < k ==> (#[trigger] (r->Ok_0)@[j]).1 == 1,
            r is Ok ==> all_centroids_from((r->Ok_0)@, self@),
    {
        let n = self.0.len();
        if k == 0 || k > n {
            return Err(KmeansError::Configuration);
        }
        let first = uniform_index(derive_seed(seed, 0), n);
        let mut chosen: Vec<Centroid> = Vec::new();
        chosen.push(Centroid::from_point(&self.0[first]));
        proof {
            assert(self.0@[first as int].wf());
            assert(self.0@[first as int]@ == self@[first as int]);
            assert(chosen@.map(|_i: int, c: Centroid| c@) =~= kmeanspp_spec(self@, seed, 1));
            assert(centroid_at_some_point(chosen@[0]@, self@));
        }
        let mut step: usize = 1;
        while step < k
            invariant
                self.wf(),
                n == self@.len(),
                1 <= k <= n,
                1 <= step <= k,
                chosen@.len() == step,
                chosen@.map(|_i: int, c: Centroid| c@) == kmeanspp_spec(self@, seed, step as int),
                forall|t: int| 0 <= t < step ==> (#[trigger] chosen@[t]).wf(self.spec_dim()),
                forall|t: int| 0 <= t < step ==> (#[trigger] chosen@[t])@.1 == 1,
                forall|t: int|
                    0 <= t < step ==> centroid_at_some_point((#[trigger] chosen@[t])@, self@),
            decreases k - step,
        {
            let ghost cs = chosen@.map(|_i: int, c: Centroid| c@);
            let mut ws: Vec<u128> = Vec::new();
            let mut total: u128 = 0;
            let mut i: usize = 0;
            while i < n
                invariant
                    self.wf(),
                    n == self@.len(),
                    1 <= step,
                    chosen@.len() == step,
                    cs == chosen@.map(|_i: int, c: Centroid| c@),
                    forall|t: int| 0 <= t < step ==> (#[trigger] chosen@[t]).wf(self.spec_dim()),
                    forall|t: int| 0 <= t < step ==> (#[trigger] chosen@[t])@.1 == 1,
                    i <= n,
                    ws@.len() == i,
                    forall|t: int| 0 <= t < i ==> #[trigger] ws@[t] == pp_weights(self@, cs)[t],
                    total == weight_total_upto(ws@, i as int),
                    total <= i * 288230376151711744,
                decreases n - i,
            {
                proof {
                    assert(self.0@[i as int].wf());
                    assert(self.0@[i as int]@ == self@[i as int]);
                    assert(self.0@[i as int]@.len() == self.spec_dim());
                }
                let w: u64 = min_dist_to_chosen(&self.0[i], &chosen);
                let ghost ws_before = ws@;
                ws.push(w as u128);
                proof {
                    assert(pp_weights(self@, cs)[i as int] == min_sq_dist(
                        self@[i as int],
                        cs,
                        cs.len() as int,
                    ) as u128);
                    lemma_weight_total_upto_prefix(ws_before, ws@, i as int);
                    assert(weight_total_upto(ws@, i + 1) == weight_total_upto(ws@, i as int)
                        + ws@[i as int]);
                }
                total = total + (w as u128);
                i = i + 1;
            }
            proof {
                assert(ws@ =~= pp_weights(self@, cs));
                assert(total == weight_total(ws@));
            }
            let step64: u64 = step as u64;
            let pick: usize = if total == 0 {
                uniform_index(derive_seed(seed, step64), n)
            } else {
                weighted_index(derive_seed(seed, step64), &ws)
            };
            proof {
                assert(pick < n);
                assert(pick == pp_pick(self@, cs, seed, step64));
            }
            let next = Centroid::from_point(&self.0[pick]);
            proof {
                assert(self.0@[pick as int].wf());
                assert(self.0@[pick as int]@ == self@[pick as int]);
            }
            chosen.push(next);
            proof {
                assert(chosen@.map(|_i: int, c: Centroid| c@) =~= kmeanspp_spec(
                    self@,
                    seed,
                    step + 1,
                ));
                assert(centroid_at_some_point(chosen@[step as int]@, self@));
            }
            step = step + 1;
        }
        let r = Centroids { centroids: chosen };
        proof {
            assert(r@ == kmeanspp_spec(self@, seed, k as int));
            assert forall|t: int| 0 <= t < r@.len() implies centroid_at_some_point(
                #[trigger] r@[t],
                self@,
            ) by {
                assert(r@[t] == chosen@[t]@);
                assert(centroid_at_some_point(chosen@[t]@, self@));
            }
            assert(all_centroids_from(r@, self@));
        }
        Ok(r)
    }

    /// Computes the initial centroids for one fit: `k` centroids drawn
    /// from the dataset by the given method. With a seed the result is the
    /// one named by `init_centroids_spec`; without one it is that of some
    /// fresh seed. `k` of zero or beyond the dataset size is a
    /// configuration error.
    pub fn get_init_centroids(
        &self,
        centroids_init_method: CentroidsInitMethod,
        k: usize,
        random_seed: Option<u64>,
    ) -> (r: Result<Centroids, KmeansError>)
        requires
            self.wf(),
        ensures
            r is Ok <==> 1 <= k <= self@.len(),
            r is Err ==> r == Err::<Centroids, KmeansError>(KmeansError::Configuration),
            r is Ok ==> (r->Ok_0)@.len() == k,
            r is Ok ==> (r->Ok_0).wf(self.spec_dim()),
            r is Ok ==> forall|j: int| 0 <= j < k ==> (#[trigger] (r->Ok_0)@[j]).1 == 1,
            r is Ok ==> all_centroids_from((r->Ok_0)@, self@),
            r is Ok && random_seed is Some ==> (r->Ok_0)@ == init_centroids_spec(
                self@,
                centroids_init_method,
                k,
                random_seed->0,
            ),
            r is Ok ==> exists|s: u64|
                (r->Ok_0)@ == init_centroids_spec(self@, centroids_init_method, k, s),
    {
        let seed: u64 = match random_seed {
            Some(s) => s,
            None => fresh_seed(),
        };
        let r = match centroids_init_method {
            CentroidsInitMethod::Random => self.get_random_init_centroids(k, seed),
            CentroidsInitMethod::KmeansPlusPlus => self.get_kmeans_plus_init_centroids(k, seed),
        };
        proof {
            if r is Ok {
                assert((r->Ok_0)@ == init_centroids_spec(self@, centroids_init_method, k, seed));
            }
        }
        r
    }
}

/// A prefix total only reads the prefix: two weight sequences that agree
/// on their first `i` entries have one prefix total there.
proof fn lemma_weight_total_upto_prefix(a: Seq<u128>, b: Seq<u128>, i: int)
    requires
        i <= a.len(),
        i <= b.len(),
        forall|t: int| 0 <= t < i ==> a[t] == b[t],
    ensures
        weight_total_upto(a, i) == weight_total_upto(b, i),
    decreases i,
{
    if i > 0 {
        lemma_weight_total_upto_prefix(a, b, i - 1);
    }
}

} // verus!
