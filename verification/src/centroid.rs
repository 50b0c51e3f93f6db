//! Centroids as exact rationals, and nearest-centroid lookup.
//!
//! A centroid stands for the coordinate-wise arithmetic mean of the points
//! assigned to a cluster. It is stored exactly, as the coordinate-wise sum
//! of those points together with their count: coordinate `i` of the mean is
//! `sums[i] / count` as a rational number. The squared Euclidean distance
//! from a point `p` to such a centroid is
//! `sum_i (p[i] - sums[i]/count)^2 == sum_i (p[i]*count - sums[i])^2 / count^2`,
//! so two such distances are compared exactly by cross-multiplying the
//! integer numerators with the squared counts.

use vstd::prelude::*;

use crate::bounds::{MAX_ABS_COORDINATE, MAX_DIMENSION, MAX_POINT_COUNT};
use crate::cluster::{cluster_indices_wf, copy_indices, Cluster, Clusters};
use crate::point::{Point, Points};

verus! {

/// The representative of one cluster: the exact coordinate-wise sum of its
/// members and the member count. The mean it stands for is `sums / count`,
/// coordinate-wise and exact.
#[derive(Clone, Debug, PartialEq)]
pub struct Centroid {
    /// Coordinate-wise sum of the member points.
    pub sums: Vec<i64>,
    /// How many points the sum ranges over; always at least one.
    pub count: usize,
}

impl View for Centroid {
    type V = (Seq<int>, int);

    open spec fn view(&self) -> (Seq<int>, int) {
        (self.sums@.map(|_i: int, v: i64| v as int), self.count as int)
    }
}

impl Centroid {
    /// Dimension `d`, a positive count within the dataset-size bound, and
    /// every coordinate sum bounded by `count` points' worth of magnitude.
    pub open spec fn wf(&self, d: int) -> bool {
        &&& self@.0.len() == d
        &&& 1 <= self@.1 <= MAX_POINT_COUNT
        &&& forall|i: int|
            0 <= i < self@.0.len() ==> -(self@.1 * MAX_ABS_COORDINATE) <= #[trigger] self@.0[i]
                <= self@.1 * MAX_ABS_COORDINATE
    }

    /// The centroid standing exactly at one point: its coordinate sums are
    /// the point's coordinates and its count is one.
    pub fn from_point(p: &Point) -> (r: Centroid)
        requires
            p.wf(),
        ensures
            r@.0 == p@,
            r@.1 == 1,
            r.wf(p@.len() as int),
    {
        let r = Centroid { sums: crate::point::copy_coords(&p.values), count: 1 };
        proof {
            assert(r@.0 =~= p@);
        }
        r
    }
}

/// The numerator, over the first `i` coordinates, of the squared distance
/// between a point `p` and the rational point `sums / count`: the sum of
/// `(p[j]*count - sums[j])^2`. The full squared distance is this value
/// divided by `count^2`.
pub open spec fn cent_dist_num_upto(p: Seq<int>, sums: Seq<int>, count: int, i: int) -> int
    decreases i,
{
    if i <= 0 {
        0
    } else {
        cent_dist_num_upto(p, sums, count, i - 1) + (p[i - 1] * count - sums[i - 1]) * (p[i - 1]
            * count - sums[i - 1])
    }
}

/// The numerator of the squared distance between point `p` and centroid `c`;
/// the squared distance itself is `cent_dist_num(p, c) / (c.1 * c.1)`.
pub open spec fn cent_dist_num(p: Seq<int>, c: (Seq<int>, int)) -> int {
    cent_dist_num_upto(p, c.0, c.1, c.0.len() as int)
}

/// Whether point `p` lies strictly closer to centroid `a` than to centroid
/// `b`: the exact comparison `num_a / count_a^2 < num_b / count_b^2`,
/// cross-multiplied (counts are positive for well-formed centroids).
pub open spec fn strictly_closer(p: Seq<int>, a: (Seq<int>, int), b: (Seq<int>, int)) -> bool {
    cent_dist_num(p, a) * (b.1 * b.1) < cent_dist_num(p, b) * (a.1 * a.1)
}

/// The index of the centroid among `cs[0..i]` nearest to `p`, ties broken
/// in favor of the smallest index: a later centroid supersedes the best so
/// far only when it is strictly closer.
pub open spec fn nearest_upto(cs: Seq<(Seq<int>, int)>, p: Seq<int>, i: int) -> int
    decreases i,
{
    if i <= 1 {
        0
    } else {
        let best = nearest_upto(cs, p, i - 1);
        if strictly_closer(p, cs[i - 1], cs[best]) {
            i - 1
        } else {
            best
        }
    }
}

/// The index of the centroid of `cs` nearest to `p`, ties broken in favor
/// of the smallest index.
pub open spec fn nearest_index(cs: Seq<(Seq<int>, int)>, p: Seq<int>) -> int {
    nearest_upto(cs, p, cs.len() as int)
}

/// The nearest index among a non-empty prefix lies inside the prefix.
pub proof fn lemma_nearest_upto_range(cs: Seq<(Seq<int>, int)>, p: Seq<int>, i: int)
    requires
        1 <= i,
    ensures
        0 <= nearest_upto(cs, p, i) < i,
    decreases i,
{
    if i > 1 {
        lemma_nearest_upto_range(cs, p, i - 1);
    }
}

/// A cross-multiplied strict comparison composes with a non-strict one:
/// with positive denominators, `na/da < nb/db <= nc/dc` gives
/// `na/da < nc/dc`.
pub proof fn lemma_frac_lt_le_trans(na: int, da: int, nb: int, db: int, nc: int, dc: int)
    by (nonlinear_arith)
    requires
        0 < da,
        0 < db,
        0 < dc,
        na * db < nb * da,
        nb * dc <= nc * db,
    ensures
        na * dc < nc * da,
{
}

/// The nearest index is nearest: no centroid of the prefix is strictly
/// closer to `p` than the one at `nearest_upto`.
pub proof fn lemma_nearest_upto_is_nearest(cs: Seq<(Seq<int>, int)>, p: Seq<int>, i: int)
    requires
        1 <= i,
        forall|j: int| 0 <= j < i ==> 0 < (#[trigger] cs[j]).1,
    ensures
        forall|j: int|
            0 <= j < i ==> !strictly_closer(p, #[trigger] cs[j], cs[nearest_upto(cs, p, i)]),
    decreases i,
{
    lemma_nearest_upto_range(cs, p, i);
    if i == 1 {
        assert(!strictly_closer(p, cs[0], cs[0]));
    } else {
        lemma_nearest_upto_is_nearest(cs, p, i - 1);
        lemma_nearest_upto_range(cs, p, i - 1);
        let prev = nearest_upto(cs, p, i - 1);
        let best = nearest_upto(cs, p, i);
        if strictly_closer(p, cs[i - 1], cs[prev]) {
            assert(best == i - 1);
            assert forall|j: int| 0 <= j < i implies !strictly_closer(
                p,
                #[trigger] cs[j],
                cs[best],
            ) by {
                if j < i - 1 {
                    // prev is no worse than j, and i-1 is strictly better
                    // than prev, so i-1 is strictly better than j.
                    if strictly_closer(p, cs[j], cs[i - 1]) {
                        lemma_square_pos(cs[j].1);
                        lemma_square_pos(cs[i - 1].1);
                        lemma_square_pos(cs[prev].1);
                        lemma_frac_lt_le_trans(
                            cent_dist_num(p, cs[j]),
                            cs[j].1 * cs[j].1,
                            cent_dist_num(p, cs[i - 1]),
                            cs[i - 1].1 * cs[i - 1].1,
                            cent_dist_num(p, cs[prev]),
                            cs[prev].1 * cs[prev].1,
                        );
                        assert(strictly_closer(p, cs[j], cs[prev]));
                    }
                } else if j == i - 1 {
                    assert(!strictly_closer(p, cs[j], cs[j]));
                }
            }
        } else {
            assert(best == prev);
            assert forall|j: int| 0 <= j < i implies !strictly_closer(
                p,
                #[trigger] cs[j],
                cs[best],
            ) by {
                if j == i - 1 {
                    assert(!strictly_closer(p, cs[i - 1], cs[prev]));
                }
            }
        }
    }
}

/// A positive denominator squared is positive.
proof fn lemma_square_pos(c: int)
    by (nonlinear_arith)
    requires
        0 < c,
    ensures
        0 < c * c,
{
}

/// The point indices among `0..i` whose nearest centroid is `j`, in
/// increasing order.
pub open spec fn members_upto(
    points: Seq<Seq<int>>,
    cs: Seq<(Seq<int>, int)>,
    j: int,
    i: int,
) -> Seq<int>
    decreases i,
{
    if i <= 0 {
        Seq::empty()
    } else {
        let prefix = members_upto(points, cs, j, i - 1);
        if nearest_index(cs, points[i - 1]) == j {
            prefix.push(i - 1)
        } else {
            prefix
        }
    }
}

/// The point indices assigned to cluster `j`: those whose nearest centroid
/// is `cs[j]`, in increasing order.
pub open spec fn cluster_of(points: Seq<Seq<int>>, cs: Seq<(Seq<int>, int)>, j: int) -> Seq<int> {
    members_upto(points, cs, j, points.len() as int)
}

/// What assigning every point to its nearest centroid yields: for each
/// cluster index, the list of point indices assigned to it.
pub open spec fn clusters_of(points: Seq<Seq<int>>, cs: Seq<(Seq<int>, int)>) -> Seq<Seq<int>> {
    Seq::new(cs.len(), |j: int| cluster_of(points, cs, j))
}

/// A membership list is a valid index list: every entry below `i`, in
/// strictly increasing order.
pub proof fn lemma_members_upto_wf(points: Seq<Seq<int>>, cs: Seq<(Seq<int>, int)>, j: int, i: int)
    ensures
        crate::cluster::cluster_indices_wf(members_upto(points, cs, j, i), i),
    decreases i,
{
    if i > 0 {
        lemma_members_upto_wf(points, cs, j, i - 1);
        let prefix = members_upto(points, cs, j, i - 1);
        assert(forall|t: int| 0 <= t < prefix.len() ==> 0 <= #[trigger] prefix[t] < i - 1 + 1);
    }
}

/// A point index stands in a membership list exactly when its nearest
/// centroid is that cluster's.
pub proof fn lemma_members_upto_contains(
    points: Seq<Seq<int>>,
    cs: Seq<(Seq<int>, int)>,
    j: int,
    i: int,
    x: int,
)
    ensures
        members_upto(points, cs, j, i).contains(x) <==> (0 <= x < i && nearest_index(
            cs,
            points[x],
        ) == j),
    decreases i,
{
    if i > 0 {
        lemma_members_upto_contains(points, cs, j, i - 1, x);
        let prefix = members_upto(points, cs, j, i - 1);
        let whole = members_upto(points, cs, j, i);
        if nearest_index(cs, points[i - 1]) == j {
            assert(whole == prefix.push(i - 1));
            assert(whole.contains(x) <==> (prefix.contains(x) || x == i - 1)) by {
                if whole.contains(x) {
                    let t = choose|t: int| 0 <= t < whole.len() && whole[t] == x;
                    if t < prefix.len() {
                        assert(prefix[t] == x);
                    }
                }
                if prefix.contains(x) {
                    let t = choose|t: int| 0 <= t < prefix.len() && prefix[t] == x;
                    assert(whole[t] == x);
                }
                if x == i - 1 {
                    assert(whole[whole.len() - 1] == x);
                }
            }
        } else {
            assert(whole == prefix);
        }
    }
}

/// Nearest-centroid assignment partitions the point indices: every point
/// index `0..n-1` stands in the membership list of its nearest centroid,
/// in no other list, and (the lists being strictly increasing) exactly
/// once in that one.
pub proof fn lemma_assignment_is_partition(points: Seq<Seq<int>>, cs: Seq<(Seq<int>, int)>)
    requires
        1 <= cs.len(),
    ensures
        forall|i: int|
            0 <= i < points.len() ==> 0 <= nearest_index(cs, #[trigger] points[i]) < cs.len(),
        forall|i: int|
            0 <= i < points.len() ==> clusters_of(points, cs)[nearest_index(
                cs,
                #[trigger] points[i],
            )].contains(i),
        forall|i: int, j: int|
            0 <= i < points.len() && 0 <= j < cs.len() ==> (#[trigger] clusters_of(
                points,
                cs,
            )[j].contains(i) <==> nearest_index(cs, points[i]) == j),
        forall|j: int|
            0 <= j < cs.len() ==> crate::cluster::cluster_indices_wf(
                #[trigger] clusters_of(points, cs)[j],
                points.len() as int,
            ),
{
    let n = points.len() as int;
    assert forall|i: int| 0 <= i < n implies 0 <= nearest_index(cs, #[trigger] points[i])
        < cs.len() by {
        lemma_nearest_upto_range(cs, points[i], cs.len() as int);
    }
    assert forall|i: int, j: int| 0 <= i < n && 0 <= j < cs.len() implies (#[trigger] clusters_of(
        points,
        cs,
    )[j].contains(i) <==> nearest_index(cs, points[i]) == j) by {
        lemma_members_upto_contains(points, cs, j, n, i);
        assert(clusters_of(points, cs)[j] == cluster_of(points, cs, j));
    }
    assert forall|i: int| 0 <= i < n implies clusters_of(points, cs)[nearest_index(
        cs,
        #[trigger] points[i],
    )].contains(i) by {
        lemma_nearest_upto_range(cs, points[i], cs.len() as int);
        lemma_members_upto_contains(points, cs, nearest_index(cs, points[i]), n, i);
    }
    assert forall|j: int| 0 <= j < cs.len() implies crate::cluster::cluster_indices_wf(
        #[trigger] clusters_of(points, cs)[j],
        n,
    ) by {
        lemma_members_upto_wf(points, cs, j, n);
    }
}

/// The set of centroids of one fit: a dense array, indexed by cluster
/// index `0..k-1`.
#[derive(Clone, Debug, PartialEq)]
pub struct Centroids {
    pub centroids: Vec<Centroid>,
}

impl View for Centroids {
    type V = Seq<(Seq<int>, int)>;

    open spec fn view(&self) -> Seq<(Seq<int>, int)> {
        self.centroids@.map(|_i: int, c: Centroid| c@)
    }
}

impl Centroids {
    /// Every centroid well-formed at dimension `d`.
    pub open spec fn wf(&self, d: int) -> bool {
        forall|j: int| 0 <= j < self.centroids@.len() ==> (#[trigger] self.centroids@[j]).wf(d)
    }

    /// The number of centroids.
    pub fn len(&self) -> (k: usize)
        ensures
            k == self@.len(),
    {
        self.centroids.len()
    }

    /// The exact numerator of the squared distance between `p` and `c`,
    /// with the bound that makes cross-multiplication overflow-free.
    fn dist_num(p: &Point, c: &Centroid) -> (r: i128)
        requires
            p.wf(),
            c.wf(p@.len() as int),
        ensures
            r == cent_dist_num(p@, c@),
            0 <= r <= 1237940039285380274899124224,
    {
        let d = p.values.len();
        let cnt: i64 = c.count as i64;
        let mut acc: i128 = 0;
        let mut i: usize = 0;
        proof {
            assert(p@.len() == d && c@.0.len() == d);
        }
        while i < d
            invariant
                p.wf(),
                c.wf(p@.len() as int),
                d == p@.len(),
                d == c@.0.len(),
                d <= MAX_DIMENSION,
                cnt == c@.1,
                1 <= cnt <= 65536,
                i <= d,
                acc == cent_dist_num_upto(p@, c@.0, c@.1, i as int),
                0 <= acc,
                acc <= i * 18889465931478580854784,
            decreases d - i,
        {
            proof {
                assert(p@[i as int] == p.values@[i as int] as int);
                assert(c@.0[i as int] == c.sums@[i as int] as int);
                assert(-1048576 <= p@[i as int] <= 1048576);
                assert(-(c@.1 * MAX_ABS_COORDINATE) <= c@.0[i as int] <= c@.1
                    * MAX_ABS_COORDINATE);
                assert(-68719476736 <= p@[i as int] * (cnt as int) <= 68719476736)
                    by (nonlinear_arith)
                    requires
                        -1048576 <= p@[i as int] <= 1048576,
                        1 <= cnt <= 65536,
                ;
                assert(-68719476736 <= c@.0[i as int] <= 68719476736) by (nonlinear_arith)
                    requires
                        -(c@.1 * 1048576) <= c@.0[i as int] <= c@.1 * 1048576,
                        1 <= c@.1 <= 65536,
                ;
            }
            let term: i128 = (p.values[i] as i128) * (cnt as i128) - (c.sums[i] as i128);
            proof {
                let t = term as int;
                assert(0 <= t * t <= 18889465931478580854784) by (nonlinear_arith)
                    requires
                        -137438953472 <= t <= 137438953472,
                ;
            }
            let sq: i128 = term * term;
            acc = acc + sq;
            i = i + 1;
        }
        proof {
            assert(acc <= 1237940039285380274899124224);
        }
        acc
    }

    /// The index of the centroid nearest to `point` under the Euclidean
    /// metric, computed by exact comparison of squared distances; among
    /// equally near centroids the smallest index wins, so no centroid of
    /// the set is strictly nearer than the returned one.
    pub fn get_nearest_cluster_index(&self, point: &Point) -> (r: usize)
        requires
            point.wf(),
            self.wf(point@.len() as int),
            1 <= self@.len(),
        ensures
            r == nearest_index(self@, point@),
            r < self@.len(),
            forall|j: int|
                0 <= j < self@.len() ==> !strictly_closer(
                    point@,
                    #[trigger] self@[j],
                    self@[r as int],
                ),
    {
        let k = self.centroids.len();
        let mut best: usize = 0;
        let mut best_num: i128 = Centroids::dist_num(point, &self.centroids[0]);
        let mut j: usize = 1;
        while j < k
            invariant
                point.wf(),
                self.wf(point@.len() as int),
                k == self@.len(),
                1 <= j <= k,
                best < j,
                best == nearest_upto(self@, point@, j as int),
                best_num == cent_dist_num(point@, self@[best as int]),
                0 <= best_num <= 1237940039285380274899124224,
            decreases k - j,
        {
            let cand_num: i128 = Centroids::dist_num(point, &self.centroids[j]);
            let cb: i128 = self.centroids[best].count as i128;
            let cj: i128 = self.centroids[j].count as i128;
            proof {
                assert(self@[best as int] == self.centroids@[best as int]@);
                assert(self@[j as int] == self.centroids@[j as int]@);
                assert(1 <= cb <= 65536 && 1 <= cj <= 65536);
                assert(1 <= (cb as int) * (cb as int) <= 4294967296) by (nonlinear_arith)
                    requires
                        1 <= cb <= 65536,
                ;
                assert(1 <= (cj as int) * (cj as int) <= 4294967296) by (nonlinear_arith)
                    requires
                        1 <= cj <= 65536,
                ;
            }
            let cb_sq: i128 = cb * cb;
            let cj_sq: i128 = cj * cj;
            proof {
                assert(0 <= (cand_num as int) * (cb_sq as int)
                    <= 5316911983139663491615228241121378304) by (nonlinear_arith)
                    requires
                        0 <= cand_num <= 1237940039285380274899124224,
                        1 <= cb_sq <= 4294967296,
                ;
                assert(0 <= (best_num as int) * (cj_sq as int)
                    <= 5316911983139663491615228241121378304) by (nonlinear_arith)
                    requires
                        0 <= best_num <= 1237940039285380274899124224,
                        1 <= cj_sq <= 4294967296,
                ;
            }
            let lhs: i128 = cand_num * cb_sq;
            let rhs: i128 = best_num * cj_sq;
            if lhs < rhs {
                best = j;
                best_num = cand_num;
            }
            j = j + 1;
        }
        proof {
            assert forall|t: int| 0 <= t < self@.len() implies 0 < (#[trigger] self@[t]).1 by {
                assert(self@[t] == self.centroids@[t]@);
            }
            lemma_nearest_upto_is_nearest(self@, point@, self@.len() as int);
        }
        best
    }

    /// Assigns every point of the dataset to its nearest centroid: cluster
    /// `j` of the result lists, in increasing order, exactly the indices of
    /// the points whose nearest centroid is `j`. A cluster that receives no
    /// points is present and empty.
    pub fn get_clusters(&self, points: &Points) -> (r: Clusters)
        requires
            points.wf(),
            self.wf(points.spec_dim()),
            1 <= self@.len(),
        ensures
            r@ == clusters_of(points@, self@),
            r@.len() == self@.len(),
            r.wf(points@.len() as int),
    {
        let k = self.centroids.len();
        let n = points.0.len();
        let mut cls: Vec<Cluster> = Vec::new();
        let mut j: usize = 0;
        while j < k
            invariant
                j <= k,
                cls@.len() == j,
                forall|t: int| 0 <= t < j ==> (#[trigger] cls@[t])@ == Seq::<int>::empty(),
            decreases k - j,
        {
            let empty = Cluster { point_indices: Vec::new() };
            proof {
                assert(empty@ =~= Seq::<int>::empty());
            }
            cls.push(empty);
            j = j + 1;
        }
        let mut i: usize = 0;
        while i < n
            invariant
                points.wf(),
                self.wf(points.spec_dim()),
                1 <= k == self@.len(),
                n == points@.len(),
                i <= n,
                cls@.len() == k,
                forall|t: int|
                    0 <= t < k ==> (#[trigger] cls@[t])@ == members_upto(
                        points@,
                        self@,
                        t,
                        i as int,
                    ),
            decreases n - i,
        {
            proof {
                assert(points@[i as int] == points.0@[i as int]@);
                assert(points@[i as int].len() == points.spec_dim());
            }
            let target = self.get_nearest_cluster_index(&points.0[i]);
            let mut updated: Vec<usize> = copy_indices(&cls[target].point_indices);
            updated.push(i);
            let ghost cls_before = cls@;
            cls[target] = Cluster { point_indices: updated };
            proof {
                assert(cls@ == cls_before.update(
                    target as int,
                    Cluster { point_indices: updated },
                ));
                assert forall|t: int| 0 <= t < k implies (#[trigger] cls@[t])@ == members_upto(
                    points@,
                    self@,
                    t,
                    i + 1,
                ) by {
                    if t == target as int {
                        assert(cls@[t]@ =~= cls_before[t]@.push(i as int));
                        assert(members_upto(points@, self@, t, i + 1) == members_upto(
                            points@,
                            self@,
                            t,
                            i as int,
                        ).push(i as int));
                    } else {
                        assert(cls@[t] == cls_before[t]);
                        assert(members_upto(points@, self@, t, i + 1) == members_upto(
                            points@,
                            self@,
                            t,
                            i as int,
                        ));
                    }
                }
            }
            i = i + 1;
        }
        let r = Clusters { clusters: cls };
        proof {
            assert(r@ =~= clusters_of(points@, self@));
            assert forall|t: int| 0 <= t < r@.len() implies cluster_indices_wf(
                #[trigger] r@[t],
                n as int,
            ) by {
                lemma_members_upto_wf(points@, self@, t, n as int);
            }
        }
        r
    }
}

} // verus!
