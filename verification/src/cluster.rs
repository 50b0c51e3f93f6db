//! Cluster membership lists, centroid recomputation, and labels.

use vstd::prelude::*;

use crate::bounds::{MAX_ABS_COORDINATE, MAX_POINT_COUNT};
use crate::centroid::{Centroid, Centroids};
use crate::point::{copy_coords, Points};

verus! {

/// The point indices assigned to one cluster, in increasing order.
#[derive(Clone, Debug, Default, PartialEq, Eq)]
pub struct Cluster {
    pub point_indices: Vec<usize>,
}

impl View for Cluster {
    type V = Seq<int>;

    open spec fn view(&self) -> Seq<int> {
        self.point_indices@.map(|_i: int, v: usize| v as int)
    }
}

/// A list of point indices that is a valid membership list over `n`
/// points: every index below `n`, in strictly increasing order.
pub open spec fn cluster_indices_wf(s: Seq<int>, n: int) -> bool {
    &&& forall|t: int| 0 <= t < s.len() ==> 0 <= #[trigger] s[t] < n
    &&& forall|a: int, b: int| 0 <= a < b < s.len() ==> s[a] < s[b]
}

/// In a strictly increasing list the value at position `t` is at least `t`.
proof fn lemma_increasing_entry_at_least(s: Seq<int>, n: int, t: int)
    requires
        cluster_indices_wf(s, n),
        0 <= t < s.len(),
    ensures
        s[t] >= t,
    decreases t,
{
    if t > 0 {
        lemma_increasing_entry_at_least(s, n, t - 1);
    }
}

/// A valid membership list over `n` points holds at most `n` indices.
pub proof fn lemma_cluster_indices_len(s: Seq<int>, n: int)
    requires
        cluster_indices_wf(s, n),
        0 <= n,
    ensures
        s.len() <= n,
{
    if s.len() > n {
        lemma_increasing_entry_at_least(s, n, n as int);
        assert(s[n as int] >= n);
    }
}

/// An element-wise copy of an index vector.
pub fn copy_indices(v: &Vec<usize>) -> (r: Vec<usize>)
    ensures
        r@ == v@,
{
    let n = v.len();
    let mut r: Vec<usize> = Vec::new();
    let mut i: usize = 0;
    while i < n
        invariant
            n == v@.len(),
            i <= n,
            r@ =~= v@.take(i as int),
        decreases n - i,
    {
        r.push(v[i]);
        proof {
            assert(r@ =~= v@.take(i + 1));
        }
        i = i + 1;
    }
    proof {
        assert(v@.take(n as int) =~= v@);
    }
    r
}

/// The mapping from cluster index to the points assigned to it: a dense
/// array of membership lists, indexed by cluster index `0..k-1`. A cluster
/// with no members is a valid, degenerate state.
#[derive(Clone, Debug, Default, PartialEq, Eq)]
pub struct Clusters {
    pub clusters: Vec<Cluster>,
}

impl View for Clusters {
    type V = Seq<Seq<int>>;

    open spec fn view(&self) -> Seq<Seq<int>> {
        self.clusters@.map(|_i: int, c: Cluster| c@)
    }
}

/// The coordinate-wise sum of two coordinate sequences of one length.
pub open spec fn add_coords(a: Seq<int>, b: Seq<int>) -> Seq<int> {
    Seq::new(a.len(), |i: int| a[i] + b[i])
}

/// The coordinate-wise sum of the points at the first `t` indices of
/// `idxs`, as a `d`-dimensional coordinate sequence.
pub open spec fn sum_points_upto(points: Seq<Seq<int>>, idxs: Seq<int>, d: int, t: int) -> Seq<int>
    decreases t,
{
    if t <= 0 {
        Seq::new(d as nat, |_i: int| 0)
    } else {
        add_coords(sum_points_upto(points, idxs, d, t - 1), points[idxs[t - 1]])
    }
}

/// The coordinate-wise sum of the points at the indices of `idxs`.
pub open spec fn sum_points(points: Seq<Seq<int>>, idxs: Seq<int>, d: int) -> Seq<int> {
    sum_points_upto(points, idxs, d, idxs.len() as int)
}

/// What recomputing centroids from an assignment yields: for every
/// non-empty cluster, the exact mean of its members — the coordinate-wise
/// sum paired with the member count; a cluster with no members keeps its
/// previous centroid, so the number of clusters never silently shrinks.
pub open spec fn recompute_spec(
    points: Seq<Seq<int>>,
    clusters: Seq<Seq<int>>,
    previous: Seq<(Seq<int>, int)>,
) -> Seq<(Seq<int>, int)> {
    Seq::new(
        clusters.len(),
        |j: int|
            if clusters[j].len() == 0 {
                previous[j]
            } else {
                (sum_points(points, clusters[j], points[0].len() as int), clusters[j].len() as int)
            },
    )
}

/// Centroid correctness: the recomputed centroid of any non-empty cluster
/// is exactly the coordinate-wise arithmetic mean of its assigned points —
/// its coordinate sums are the exact sums of the members' coordinates and
/// its count is the member count, so coordinate `c` of the mean is the
/// exact rational `sums[c] / count`.
pub proof fn lemma_recomputed_centroid_is_exact_mean(
    points: Seq<Seq<int>>,
    clusters: Seq<Seq<int>>,
    previous: Seq<(Seq<int>, int)>,
    j: int,
)
    requires
        0 <= j < clusters.len(),
        clusters[j].len() > 0,
    ensures
        recompute_spec(points, clusters, previous)[j].0 == sum_points(
            points,
            clusters[j],
            points[0].len() as int,
        ),
        recompute_spec(points, clusters, previous)[j].1 == clusters[j].len() as int,
{
}

/// A coordinate vector of `d` zeroes.
fn zero_coords(d: usize) -> (r: Vec<i64>)
    ensures
        r@.len() == d,
        forall|i: int| 0 <= i < d ==> #[trigger] r@[i] == 0,
{
    let mut r: Vec<i64> = Vec::new();
    let mut i: usize = 0;
    while i < d
        invariant
            i <= d,
            r@.len() == i,
            forall|t: int| 0 <= t < i ==> #[trigger] r@[t] == 0,
        decreases d - i,
    {
        r.push(0);
        i = i + 1;
    }
    r
}

impl Clusters {
    /// Every membership list valid over `n` points.
    pub open spec fn wf(&self, n: int) -> bool {
        forall|j: int| 0 <= j < self@.len() ==> cluster_indices_wf(#[trigger] self@[j], n)
    }

    /// The number of clusters.
    pub fn len(&self) -> (k: usize)
        ensures
            k == self@.len(),
    {
        self.clusters.len()
    }

    /// Whether `self` and `other` assign exactly the same point indices to
    /// every cluster.
    pub fn same_assignment(&self, other: &Clusters) -> (r: bool)
        ensures
            r <==> self@ == other@,
    {
        let k = self.clusters.len();
        if k != other.clusters.len() {
            proof {
                assert(self@.len() != other@.len());
            }
            return false;
        }
        let mut j: usize = 0;
        while j < k
            invariant
                k == self@.len(),
                k == other@.len(),
                j <= k,
                forall|t: int| 0 <= t < j ==> #[trigger] self@[t] == other@[t],
            decreases k - j,
        {
            let same: bool = self.clusters[j].point_indices == other.clusters[j].point_indices;
            if !same {
                proof {
                    let a = self.clusters@[j as int].point_indices;
                    let b = other.clusters@[j as int].point_indices;
                    assert(self@[j as int] == a@.map(|_i: int, v: usize| v as int));
                    assert(other@[j as int] == b@.map(|_i: int, v: usize| v as int));
                    assert(!(a@.len() == b@.len() && forall|i: int|
                        0 <= i < a@.len() ==> a@[i] == b@[i]));
                    if self@[j as int] == other@[j as int] {
                        assert(a@.len() == b@.len());
                        assert forall|i: int| 0 <= i < a@.len() implies a@[i] == b@[i] by {
                            assert(self@[j as int][i] == a@[i] as int);
                            assert(other@[j as int][i] == b@[i] as int);
                        }
                    }
                }
                return false;
            }
            proof {
                let a = self.clusters@[j as int].point_indices;
                let b = other.clusters@[j as int].point_indices;
                assert(a@.len() == b@.len() && forall|i: int| 0 <= i < a@.len() ==> a@[i] == b@[i]);
                assert(self@[j as int] =~= other@[j as int]);
            }
            j = j + 1;
        }
        proof {
            assert(self@ =~= other@);
        }
        true
    }

    /// Recomputes the centroid of every cluster from its assigned points:
    /// a non-empty cluster's new centroid is the exact coordinate-wise mean
    /// of its members (coordinate sums over the member count), and a
    /// cluster with no members keeps its previous centroid.
    pub fn get_centroids(&self, points: &Points, previous: &Centroids) -> (r: Centroids)
        requires
            points.wf(),
            1 <= points@.len(),
            self.wf(points@.len() as int),
            previous.wf(points.spec_dim()),
            previous@.len() == self@.len(),
        ensures
            r@ == recompute_spec(points@, self@, previous@),
            r@.len() == self@.len(),
            r.wf(points.spec_dim()),
    {
        let k = self.clusters.len();
        let d = points.0[0].values.len();
        proof {
            assert(points@[0].len() == points.spec_dim());
        }
        let mut cents: Vec<Centroid> = Vec::new();
        let mut j: usize = 0;
        while j < k
            invariant
                points.wf(),
                1 <= points@.len(),
                self.wf(points@.len() as int),
                previous.wf(points.spec_dim()),
                previous@.len() == self@.len(),
                k == self@.len(),
                d == points.spec_dim(),
                j <= k,
                cents@.len() == j,
                forall|t: int|
                    0 <= t < j ==> (#[trigger] cents@[t])@ == recompute_spec(
                        points@,
                        self@,
                        previous@,
                    )[t],
                forall|t: int| 0 <= t < j ==> (#[trigger] cents@[t]).wf(points.spec_dim()),
            decreases k - j,
        {
            let m = self.clusters[j].point_indices.len();
            proof {
                assert(self@[j as int].len() == m);
                lemma_cluster_indices_len(self@[j as int], points@.len() as int);
            }
            if m == 0 {
                let kept = Centroid {
                    sums: copy_coords(&previous.centroids[j].sums),
                    count: previous.centroids[j].count,
                };
                proof {
                    assert(kept@ == previous.centroids@[j as int]@);
                    assert(previous@[j as int] == previous.centroids@[j as int]@);
                }
                cents.push(kept);
            } else {
                let mut sums: Vec<i64> = zero_coords(d);
                proof {
                    assert(sums@.map(|_i: int, v: i64| v as int) =~= sum_points_upto(
                        points@,
                        self@[j as int],
                        d as int,
                        0,
                    ));
                }
                let mut t: usize = 0;
                while t < m
                    invariant
                        points.wf(),
                        1 <= points@.len(),
                        self.wf(points@.len() as int),
                        k == self@.len(),
                        j < k,
                        d == points.spec_dim(),
                        m == self@[j as int].len(),
                        m <= points@.len(),
                        t <= m,
                        sums@.len() == d,
                        sums@.map(|_i: int, v: i64| v as int) == sum_points_upto(
                            points@,
                            self@[j as int],
                            d as int,
                            t as int,
                        ),
                        forall|c: int|
                            0 <= c < d ==> -(t * MAX_ABS_COORDINATE) <= #[trigger] sums@[c] as int
                                <= t * MAX_ABS_COORDINATE,
                    decreases m - t,
                {
                    let idx = self.clusters[j].point_indices[t];
                    proof {
                        assert(self@[j as int][t as int] == idx as int);
                        assert(0 <= idx < points@.len());
                        assert(points@[idx as int].len() == d);
                        assert((t + 1) * MAX_ABS_COORDINATE == t * MAX_ABS_COORDINATE
                            + MAX_ABS_COORDINATE) by (nonlinear_arith);
                        assert(t * MAX_ABS_COORDINATE <= 65535 * 1048576) by (nonlinear_arith)
                            requires
                                0 <= t <= 65535,
                        ;
                    }
                    let mut c: usize = 0;
                    let ghost sums_before = sums@;
                    while c < d
                        invariant
                            points.wf(),
                            1 <= points@.len(),
                            d == points.spec_dim(),
                            idx < points@.len(),
                            points@[idx as int].len() == d,
                            c <= d,
                            t < m,
                            m <= points@.len(),
                            points@.len() <= MAX_POINT_COUNT,
                            sums@.len() == d,
                            sums_before.len() == d,
                            forall|u: int|
                                0 <= u < d ==> -(t * MAX_ABS_COORDINATE)
                                    <= #[trigger] sums_before[u] as int <= t * MAX_ABS_COORDINATE,
                            forall|u: int|
                                c <= u < d ==> #[trigger] sums@[u] == sums_before[u],
                            forall|u: int|
                                0 <= u < c ==> #[trigger] sums@[u] as int == sums_before[u] as int
                                    + points@[idx as int][u],
                        decreases d - c,
                    {
                        proof {
                            assert(points@[idx as int][c as int] == points.0@[idx as int].values@[c as int] as int);
                            assert(-MAX_ABS_COORDINATE <= points@[idx as int][c as int]
                                <= MAX_ABS_COORDINATE);
                            assert((t + 1) * MAX_ABS_COORDINATE == t * MAX_ABS_COORDINATE
                                + MAX_ABS_COORDINATE) by (nonlinear_arith);
                            assert((t + 1) * MAX_ABS_COORDINATE <= 65536 * 1048576)
                                by (nonlinear_arith)
                                requires
                                    0 <= t + 1 <= 65536,
                            ;
                        }
                        let add: i64 = points.0[idx].values[c];
                        let updated: i64 = sums[c] + add;
                        sums[c] = updated;
                        c = c + 1;
                    }
                    proof {
                        assert(sums@.map(|_i: int, v: i64| v as int) =~= add_coords(
                            sums_before.map(|_i: int, v: i64| v as int),
                            points@[idx as int],
                        ));
                        assert(sums@.map(|_i: int, v: i64| v as int) == sum_points_upto(
                            points@,
                            self@[j as int],
                            d as int,
                            t + 1,
                        ));
                        assert forall|u: int| 0 <= u < d implies -((t + 1) * MAX_ABS_COORDINATE)
                            <= #[trigger] sums@[u] as int <= (t + 1) * MAX_ABS_COORDINATE by {
                            assert((t + 1) * MAX_ABS_COORDINATE == t * MAX_ABS_COORDINATE
                                + MAX_ABS_COORDINATE) by (nonlinear_arith);
                        }
                    }
                    t = t + 1;
                }
                let fresh = Centroid { sums, count: m };
                proof {
                    assert(fresh@.0 == sum_points(points@, self@[j as int], d as int));
                    assert(fresh@.1 == m as int);
                    assert(recompute_spec(points@, self@, previous@)[j as int] == (
                        sum_points(points@, self@[j as int], d as int),
                        m as int,
                    ));
                    assert(fresh.wf(points.spec_dim()));
                }
                cents.push(fresh);
            }
            j = j + 1;
        }
        let r = Centroids { centroids: cents };
        proof {
            assert(r@ =~= recompute_spec(points@, self@, previous@));
        }
        r
    }
}

/// Whether some cluster of `cl` lists point index `i`.
pub open spec fn has_cluster(cl: Seq<Seq<int>>, i: int) -> bool {
    exists|j: int| 0 <= j < cl.len() && (#[trigger] cl[j]).contains(i)
}

/// The cluster index that lists point `i`; well-defined wherever the
/// membership lists partition the point indices.
pub open spec fn assigned_cluster(cl: Seq<Seq<int>>, i: int) -> int {
    choose|j: int| 0 <= j < cl.len() && (#[trigger] cl[j]).contains(i)
}

/// The label vector an assignment flattens to: point `i` carries the index
/// of the cluster listing it, and zero if none does (which cannot happen
/// for an assignment produced by nearest-centroid assignment).
pub open spec fn labels_spec(cl: Seq<Seq<int>>, n: nat) -> Seq<int> {
    Seq::new(
        n,
        |i: int|
            if has_cluster(cl, i) {
                assigned_cluster(cl, i)
            } else {
                0
            },
    )
}

/// The label vector: a dense array mapping point index to the cluster
/// index the point was last assigned to.
#[derive(Clone, Debug, Default, PartialEq, Eq)]
pub struct Labels(pub Vec<usize>);

impl View for Labels {
    type V = Seq<int>;

    open spec fn view(&self) -> Seq<int> {
        self.0@.map(|_i: int, v: usize| v as int)
    }
}

impl Labels {
    /// Records that the point at `sample_index` belongs to cluster `label`.
    pub fn set(&mut self, sample_index: usize, label: usize)
        requires
            sample_index < old(self)@.len(),
        ensures
            final(self)@ == old(self)@.update(sample_index as int, label as int),
    {
        self.0[sample_index] = label;
        proof {
            assert(final(self)@ =~= old(self)@.update(sample_index as int, label as int));
        }
    }

    /// The number of labels.
    pub fn len(&self) -> (n: usize)
        ensures
            n == self@.len(),
    {
        self.0.len()
    }
}

} // verus!
