//! Model configuration and the fit controller.

use vstd::prelude::*;

use crate::bounds::{MAX_ABS_COORDINATE, MAX_DIMENSION, MAX_POINT_COUNT};
use crate::centroid::{clusters_of, lemma_assignment_is_partition, nearest_index, Centroids};
use crate::cluster::{
    assigned_cluster, cluster_indices_wf, has_cluster, labels_spec, recompute_spec, Clusters,
    Labels,
};
use crate::point::{init_centroids_spec, uniform_rows, values_view, Points};

verus! {

/// A typed failure surfaced by the library. No verified function of this
/// crate panics: every rejected input is reported through this enum.
#[derive(Clone, Copy, Debug, PartialEq, Eq, Structural)]
pub enum KmeansError {
    /// Invalid configuration: `k` of zero or exceeding the dataset size, an
    /// iteration cap of zero, or an unsupported method name.
    Configuration,
    /// Two points with differing coordinate counts were compared.
    DimensionMismatch,
    /// A fit was requested over zero points.
    EmptyDataset,
}

impl KmeansError {
    /// A short human-readable description of the failure.
    pub fn message(&self) -> (r: String)
        ensures
            *self is Configuration ==> r@ == "invalid configuration"@,
            *self is DimensionMismatch ==> r@ == "points with different dimensions are not supported"@,
            *self is EmptyDataset ==> r@ == "the dataset holds no points"@,
    {
        match self {
            KmeansError::Configuration => "invalid configuration".to_owned(),
            KmeansError::DimensionMismatch => {
                "points with different dimensions are not supported".to_owned()
            },
            KmeansError::EmptyDataset => "the dataset holds no points".to_owned(),
        }
    }
}

/// The distance function used for point distance. Only the Euclidean metric
/// is supported; all comparisons go through squared Euclidean distances,
/// which order points exactly as the metric itself does.
#[derive(Clone, Copy, Debug, PartialEq, Eq, Structural)]
pub enum DistanceMetric {
    Euclidean,
}

/// The centroid initialization strategy.
#[derive(Clone, Copy, Debug, PartialEq, Eq, Structural)]
pub enum CentroidsInitMethod {
    /// `k` points drawn uniformly at random, without replacement.
    Random,
    /// The k-means++ strategy: a first point drawn uniformly, every further
    /// one drawn with probability proportional to its squared distance to
    /// the nearest centroid chosen so far.
    KmeansPlusPlus,
}

/// Whether two string slices hold the same characters.
fn str_equals(a: &str, b: &str) -> (r: bool)
    ensures
        r == (a@ == b@),
{
    let a_owned: String = a.to_owned();
    let b_owned: String = b.to_owned();
    a_owned == b_owned
}

impl CentroidsInitMethod {
    /// Parses a method name; any name besides the two supported ones is a
    /// configuration error.
    pub fn parse(s: &str) -> (r: Result<CentroidsInitMethod, KmeansError>)
        ensures
            r == Ok::<CentroidsInitMethod, KmeansError>(CentroidsInitMethod::Random)
                <==> s@ == "random"@,
            r == Ok::<CentroidsInitMethod, KmeansError>(CentroidsInitMethod::KmeansPlusPlus)
                <==> s@ == "kmeans++"@,
            r is Err <==> s@ != "random"@ && s@ != "kmeans++"@,
            r is Err ==> r == Err::<CentroidsInitMethod, KmeansError>(KmeansError::Configuration),
    {
        proof {
            reveal_strlit("random");
            reveal_strlit("kmeans++");
            assert("random"@.len() == 6);
            assert("kmeans++"@.len() == 8);
        }
        if str_equals(s, "random") {
            Ok(CentroidsInitMethod::Random)
        } else if str_equals(s, "kmeans++") {
            Ok(CentroidsInitMethod::KmeansPlusPlus)
        } else {
            Err(KmeansError::Configuration)
        }
    }

    /// The name this method is parsed from.
    pub fn name(&self) -> (r: String)
        ensures
            *self is Random ==> r@ == "random"@,
            *self is KmeansPlusPlus ==> r@ == "kmeans++"@,
    {
        match self {
            CentroidsInitMethod::Random => "random".to_owned(),
            CentroidsInitMethod::KmeansPlusPlus => "kmeans++".to_owned(),
        }
    }
}

/// The state the iterate-until-convergence loop reaches from a given
/// assignment and centroid set with `fuel` iterations left: each step
/// assigns every point to its nearest centroid and recomputes the
/// centroids from that assignment; the loop stops early as soon as a step
/// reproduces the assignment it started from.
pub open spec fn fit_loop_spec(
    points: Seq<Seq<int>>,
    clusters: Seq<Seq<int>>,
    centroids: Seq<(Seq<int>, int)>,
    fuel: nat,
) -> (Seq<Seq<int>>, Seq<(Seq<int>, int)>)
    decreases fuel,
{
    if fuel == 0 {
        (clusters, centroids)
    } else {
        let a = clusters_of(points, centroids);
        let c = recompute_spec(points, a, centroids);
        if a == clusters {
            (a, c)
        } else {
            fit_loop_spec(points, a, c, (fuel - 1) as nat)
        }
    }
}

/// What a successful fit leaves behind, as a function of the dataset, the
/// configuration and the seed: the clusters and centroids the loop
/// reaches from the seeded initial centroids, and the labels that
/// assignment flattens to. For one seed there is exactly one such
/// outcome, so two fits of the same data, configuration and seed agree.
pub open spec fn is_fit_outcome(
    clusters: Seq<Seq<int>>,
    centroids: Seq<(Seq<int>, int)>,
    labels: Seq<int>,
    points: Seq<Seq<int>>,
    method: CentroidsInitMethod,
    k: usize,
    max_iter: usize,
    seed: u64,
) -> bool {
    let init = init_centroids_spec(points, method, k, seed);
    let end = fit_loop_spec(points, Seq::empty(), init, max_iter as nat);
    &&& clusters == end.0
    &&& centroids == end.1
    &&& labels == labels_spec(end.0, points.len())
}

/// The iterate-until-convergence loop always ends on a nearest-centroid
/// assignment: its final clusters are `clusters_of` some centroid set of
/// the same size as the one it started from, and its final centroids are
/// the ones recomputed from that assignment.
pub proof fn lemma_fit_loop_yields_assignment(
    points: Seq<Seq<int>>,
    clusters: Seq<Seq<int>>,
    centroids: Seq<(Seq<int>, int)>,
    fuel: nat,
)
    requires
        1 <= fuel,
    ensures
        exists|w: Seq<(Seq<int>, int)>|
            {
                &&& w.len() == centroids.len()
                &&& fit_loop_spec(points, clusters, centroids, fuel).0 == #[trigger] clusters_of(
                    points,
                    w,
                )
                &&& fit_loop_spec(points, clusters, centroids, fuel).1 == recompute_spec(
                    points,
                    fit_loop_spec(points, clusters, centroids, fuel).0,
                    w,
                )
            },
    decreases fuel,
{
    let a = clusters_of(points, centroids);
    let c = recompute_spec(points, a, centroids);
    if a == clusters {
        assert(fit_loop_spec(points, clusters, centroids, fuel) == (a, c));
        assert(fit_loop_spec(points, clusters, centroids, fuel).1 == recompute_spec(
            points,
            fit_loop_spec(points, clusters, centroids, fuel).0,
            centroids,
        ));
    } else if fuel == 1 {
        assert(fit_loop_spec(points, clusters, centroids, fuel) == fit_loop_spec(
            points,
            a,
            c,
            0,
        ));
        assert(fit_loop_spec(points, a, c, 0) == (a, c));
        assert(fit_loop_spec(points, clusters, centroids, fuel).1 == recompute_spec(
            points,
            fit_loop_spec(points, clusters, centroids, fuel).0,
            centroids,
        ));
    } else {
        lemma_fit_loop_yields_assignment(points, a, c, (fuel - 1) as nat);
        let w = choose|w: Seq<(Seq<int>, int)>|
            {
                &&& w.len() == c.len()
                &&& fit_loop_spec(points, a, c, (fuel - 1) as nat).0 == #[trigger] clusters_of(
                    points,
                    w,
                )
                &&& fit_loop_spec(points, a, c, (fuel - 1) as nat).1 == recompute_spec(
                    points,
                    fit_loop_spec(points, a, c, (fuel - 1) as nat).0,
                    w,
                )
            };
        assert(w.len() == c.len() && c.len() == a.len() && a.len() == centroids.len());
        assert(fit_loop_spec(points, clusters, centroids, fuel) == fit_loop_spec(
            points,
            a,
            c,
            (fuel - 1) as nat,
        ));
    }
}

/// Partition invariant at the fit level: the clusters a successful fit
/// leaves behind assign every point index to exactly one membership list
/// — the lists cover `0..n-1`, are pairwise disjoint, and each is
/// strictly increasing, so no list repeats an index; and every point's
/// label is the index of the one cluster listing it.
pub proof fn lemma_fit_outcome_is_partition(
    clusters: Seq<Seq<int>>,
    centroids: Seq<(Seq<int>, int)>,
    labels: Seq<int>,
    points: Seq<Seq<int>>,
    method: CentroidsInitMethod,
    k: usize,
    max_iter: usize,
    seed: u64,
)
    requires
        is_fit_outcome(clusters, centroids, labels, points, method, k, max_iter, seed),
        1 <= k,
        1 <= max_iter,
    ensures
        clusters.len() == k,
        labels.len() == points.len(),
        forall|i: int| 0 <= i < points.len() ==> #[trigger] has_cluster(clusters, i),
        forall|i: int, j1: int, j2: int|
            0 <= i < points.len() && 0 <= j1 < clusters.len() && 0 <= j2 < clusters.len()
                && clusters[j1].contains(i) && clusters[j2].contains(i) ==> j1 == j2,
        forall|j: int|
            0 <= j < clusters.len() ==> cluster_indices_wf(
                #[trigger] clusters[j],
                points.len() as int,
            ),
        forall|i: int|
            0 <= i < points.len() ==> 0 <= #[trigger] labels[i] < k && clusters[labels[i]].contains(
                i,
            ),
{
    let init = init_centroids_spec(points, method, k, seed);
    crate::point::lemma_init_centroids_spec_len(points, method, k, seed);
    lemma_fit_loop_yields_assignment(points, Seq::empty(), init, max_iter as nat);
    let w = choose|w: Seq<(Seq<int>, int)>|
        {
            &&& w.len() == init.len()
            &&& fit_loop_spec(points, Seq::empty(), init, max_iter as nat).0
                == #[trigger] clusters_of(points, w)
            &&& fit_loop_spec(points, Seq::empty(), init, max_iter as nat).1 == recompute_spec(
                points,
                fit_loop_spec(points, Seq::empty(), init, max_iter as nat).0,
                w,
            )
        };
    lemma_assignment_is_partition(points, w);
    assert(clusters == clusters_of(points, w));
    assert forall|i: int| 0 <= i < points.len() implies #[trigger] has_cluster(clusters, i) by {
        let ji = nearest_index(w, points[i]);
        assert(0 <= ji < clusters.len() && clusters[ji].contains(i));
    }
    assert forall|i: int| 0 <= i < points.len() implies 0 <= #[trigger] labels[i] < k
        && clusters[labels[i]].contains(i) by {
        let ji = nearest_index(w, points[i]);
        assert(clusters[ji].contains(i));
        assert(has_cluster(clusters, i));
        let jc = assigned_cluster(clusters, i);
        assert(0 <= jc < clusters.len() && clusters[jc].contains(i));
        assert(jc == ji);
        assert(labels[i] == labels_spec(clusters, points.len())[i]);
    }
}

/// Determinism: for one dataset, configuration and seed there is exactly
/// one fit outcome, so any two successful seeded fits of the same inputs
/// leave identical clusters, centroids and labels.
pub proof fn lemma_fit_outcome_is_unique(
    clusters1: Seq<Seq<int>>,
    centroids1: Seq<(Seq<int>, int)>,
    labels1: Seq<int>,
    clusters2: Seq<Seq<int>>,
    centroids2: Seq<(Seq<int>, int)>,
    labels2: Seq<int>,
    points: Seq<Seq<int>>,
    method: CentroidsInitMethod,
    k: usize,
    max_iter: usize,
    seed: u64,
)
    requires
        is_fit_outcome(clusters1, centroids1, labels1, points, method, k, max_iter, seed),
        is_fit_outcome(clusters2, centroids2, labels2, points, method, k, max_iter, seed),
    ensures
        clusters1 == clusters2,
        centroids1 == centroids2,
        labels1 == labels2,
{
}

/// The failure a fit of `values` under `k` and `max_iter` reports, if
/// any: an empty dataset, then rows of differing lengths, then an invalid
/// `k` or iteration cap.
pub open spec fn fit_error_spec(values: Seq<Vec<i64>>, k: usize, max_iter: usize) -> Option<
    KmeansError,
> {
    if values.len() == 0 {
        Some(KmeansError::EmptyDataset)
    } else if !uniform_rows(values) {
        Some(KmeansError::DimensionMismatch)
    } else if k == 0 || k > values.len() || max_iter == 0 {
        Some(KmeansError::Configuration)
    } else {
        None
    }
}

/// Recomputing centroids twice from one assignment changes nothing the
/// second time: clusters that kept their previous centroid keep it again,
/// and the others depend only on the assignment.
pub proof fn lemma_recompute_idempotent(
    points: Seq<Seq<int>>,
    clusters: Seq<Seq<int>>,
    c0: Seq<(Seq<int>, int)>,
)
    requires
        c0.len() == clusters.len(),
    ensures
        recompute_spec(points, clusters, recompute_spec(points, clusters, c0)) == recompute_spec(
            points,
            clusters,
            c0,
        ),
{
    let c1 = recompute_spec(points, clusters, c0);
    let c2 = recompute_spec(points, clusters, c1);
    assert forall|j: int| 0 <= j < clusters.len() implies c2[j] == c1[j] by {
        if clusters[j].len() == 0 {
            assert(c2[j] == c1[j]);
        }
    }
    assert(c2 =~= c1);
}

/// Idempotence under stability: once an assign/update step reproduces the
/// assignment it started from, one further step reproduces it again — a
/// converged fit is at a fixed point.
pub proof fn lemma_stable_assignment_is_fixed_point(
    points: Seq<Seq<int>>,
    c0: Seq<(Seq<int>, int)>,
)
    requires
        clusters_of(points, recompute_spec(points, clusters_of(points, c0), c0)) == clusters_of(
            points,
            c0,
        ),
    ensures
        clusters_of(
            points,
            recompute_spec(
                points,
                clusters_of(points, c0),
                recompute_spec(points, clusters_of(points, c0), c0),
            ),
        ) == clusters_of(points, c0),
{
    let a = clusters_of(points, c0);
    assert(a.len() == c0.len());
    lemma_recompute_idempotent(points, a, c0);
}

impl DistanceMetric {
    /// Parses a metric name; only `euclidean` is supported.
    pub fn parse(s: &str) -> (r: Result<DistanceMetric, KmeansError>)
        ensures
            r == Ok::<DistanceMetric, KmeansError>(DistanceMetric::Euclidean) <==> s@ == "euclidean"@,
            r is Err <==> s@ != "euclidean"@,
            r is Err ==> r == Err::<DistanceMetric, KmeansError>(KmeansError::Configuration),
    {
        if str_equals(s, "euclidean") {
            Ok(DistanceMetric::Euclidean)
        } else {
            Err(KmeansError::Configuration)
        }
    }

    /// The name this metric is parsed from.
    pub fn name(&self) -> (r: String)
        ensures
            r@ == "euclidean"@,
    {
        match self {
            DistanceMetric::Euclidean => "euclidean".to_owned(),
        }
    }
}

/// The fit controller: it owns the configuration, drives initialization
/// and the iterate-until-convergence loop, and keeps the final clusters,
/// centroids and labels of the last fit.
#[derive(Debug)]
pub struct Kmeans {
    /// The desired cluster count; a fit demands `1 <= k <= n`.
    pub k: usize,
    /// The iteration cap; a fit demands at least one.
    pub max_iter: usize,
    /// The centroid initialization strategy.
    pub centroids_init_method: CentroidsInitMethod,
    /// The seed for all pseudo-random draws; absent, each fit draws a
    /// fresh one, and repeated fits need not agree.
    pub random_seed: Option<u64>,
    /// The distance metric; Euclidean is the only one.
    pub distance_metric: DistanceMetric,
    /// The cluster assignment of the last fit; read it through
    /// `get_clusters`.
    pub clusters: Clusters,
    /// The centroids of the last fit; read them through `get_centroids`.
    pub centroids: Centroids,
    /// The labels of the last fit; read them through `get_labels`.
    pub labels: Labels,
}

impl Default for Kmeans {
    /// Two clusters, an iteration cap of five hundred, uniform random
    /// initialization, no seed, and empty fit state.
    fn default() -> (r: Kmeans)
        ensures
            r.k == 2,
            r.max_iter == 500,
            r.centroids_init_method is Random,
            r.random_seed is None,
            r.distance_metric is Euclidean,
            r.clusters@ == Seq::<Seq<int>>::empty(),
            r.centroids@ == Seq::<(Seq<int>, int)>::empty(),
            r.labels@ == Seq::<int>::empty(),
    {
        let r = Kmeans {
            k: 2,
            max_iter: 500,
            centroids_init_method: CentroidsInitMethod::Random,
            random_seed: None,
            distance_metric: DistanceMetric::Euclidean,
            clusters: Clusters { clusters: Vec::new() },
            centroids: Centroids { centroids: Vec::new() },
            labels: Labels(Vec::new()),
        };
        proof {
            assert(r.clusters@ =~= Seq::<Seq<int>>::empty());
            assert(r.centroids@ =~= Seq::<(Seq<int>, int)>::empty());
            assert(r.labels@ =~= Seq::<int>::empty());
        }
        r
    }
}

impl Kmeans {
    /// A controller with the given configuration and empty fit state.
    pub fn new(
        k: usize,
        max_iter: usize,
        centroids_init_method: CentroidsInitMethod,
        distance_metric: DistanceMetric,
        random_seed: Option<u64>,
    ) -> (r: Kmeans)
        ensures
            r.k == k,
            r.max_iter == max_iter,
            r.centroids_init_method == centroids_init_method,
            r.distance_metric == distance_metric,
            r.random_seed == random_seed,
            r.clusters@ == Seq::<Seq<int>>::empty(),
            r.centroids@ == Seq::<(Seq<int>, int)>::empty(),
            r.labels@ == Seq::<int>::empty(),
    {
        let r = Kmeans {
            k,
            max_iter,
            centroids_init_method,
            random_seed,
            distance_metric,
            clusters: Clusters { clusters: Vec::new() },
            centroids: Centroids { centroids: Vec::new() },
            labels: Labels(Vec::new()),
        };
        proof {
            assert(r.clusters@ =~= Seq::<Seq<int>>::empty());
            assert(r.centroids@ =~= Seq::<(Seq<int>, int)>::empty());
            assert(r.labels@ =~= Seq::<int>::empty());
        }
        r
    }

    /// The clusters of the last fit.
    pub fn get_clusters(&self) -> (r: &Clusters)
        ensures
            *r == self.clusters,
    {
        &self.clusters
    }

    /// The centroids of the last fit.
    pub fn get_centroids(&self) -> (r: &Centroids)
        ensures
            *r == self.centroids,
    {
        &self.centroids
    }

    /// The labels of the last fit.
    pub fn get_labels(&self) -> (r: &Labels)
        ensures
            *r == self.labels,
    {
        &self.labels
    }

    /// One assign/update step: every point moves to its nearest centroid,
    /// then every cluster's centroid is recomputed from its members (a
    /// cluster left empty keeps its centroid).
    pub fn fit_one_step(&mut self, points: &Points)
        requires
            points.wf(),
            1 <= points@.len(),
            old(self).centroids.wf(points.spec_dim()),
            1 <= old(self).centroids@.len(),
        ensures
            final(self).clusters@ == clusters_of(points@, old(self).centroids@),
            final(self).centroids@ == recompute_spec(
                points@,
                final(self).clusters@,
                old(self).centroids@,
            ),
            final(self).clusters@.len() == old(self).centroids@.len(),
            final(self).centroids@.len() == old(self).centroids@.len(),
            final(self).clusters.wf(points@.len() as int),
            final(self).centroids.wf(points.spec_dim()),
            final(self).k == old(self).k,
            final(self).max_iter == old(self).max_iter,
            final(self).centroids_init_method == old(self).centroids_init_method,
            final(self).random_seed == old(self).random_seed,
            final(self).distance_metric == old(self).distance_metric,
            final(self).labels == old(self).labels,
    {
        let a = self.centroids.get_clusters(points);
        let c = a.get_centroids(points, &self.centroids);
        self.clusters = a;
        self.centroids = c;
    }

    /// Fits the model to the dataset: validates the configuration,
    /// computes seeded initial centroids, alternates assignment and
    /// update until the assignment stops changing or the iteration cap is
    /// reached, and flattens the final assignment into the labels. With a
    /// seed the entire outcome is the one function of the inputs named by
    /// `is_fit_outcome`; without one it is that of some fresh seed. On
    /// failure the fit state is untouched.
    #[verifier::loop_isolation(false)]
    pub fn fit(&mut self, point_values: Vec<Vec<i64>>) -> (r: Result<(), KmeansError>)
        requires
            point_values@.len() <= MAX_POINT_COUNT,
            forall|i: int|
                0 <= i < point_values@.len() ==> (#[trigger] point_values@[i]).len()
                    <= MAX_DIMENSION,
            forall|i: int, j: int|
                0 <= i < point_values@.len() && 0 <= j < point_values@[i].len()
                    ==> -MAX_ABS_COORDINATE <= #[trigger] point_values@[i][j]
                    <= MAX_ABS_COORDINATE,
        ensures
            final(self).k == old(self).k,
            final(self).max_iter == old(self).max_iter,
            final(self).centroids_init_method == old(self).centroids_init_method,
            final(self).random_seed == old(self).random_seed,
            final(self).distance_metric == old(self).distance_metric,
            r is Ok <==> fit_error_spec(point_values@, old(self).k, old(self).max_iter) is None,
            r is Err ==> Some(r->Err_0) == fit_error_spec(
                point_values@,
                old(self).k,
                old(self).max_iter,
            ),
            r is Err ==> final(self).clusters@ == old(self).clusters@ && final(self).centroids@
                == old(self).centroids@ && final(self).labels@ == old(self).labels@,
            r is Ok ==> final(self).clusters@.len() == old(self).k,
            r is Ok ==> final(self).centroids@.len() == old(self).k,
            r is Ok ==> final(self).labels@.len() == point_values@.len(),
            r is Ok ==> forall|i: int|
                0 <= i < final(self).labels@.len() ==> 0 <= #[trigger] final(self).labels@[i]
                    < old(self).k,
            r is Ok && old(self).random_seed is Some ==> is_fit_outcome(
                final(self).clusters@,
                final(self).centroids@,
                final(self).labels@,
                values_view(point_values@),
                old(self).centroids_init_method,
                old(self).k,
                old(self).max_iter,
                old(self).random_seed->0,
            ),
            r is Ok ==> exists|s: u64|
                is_fit_outcome(
                    final(self).clusters@,
                    final(self).centroids@,
                    final(self).labels@,
                    values_view(point_values@),
                    old(self).centroids_init_method,
                    old(self).k,
                    old(self).max_iter,
                    s,
                ),
    {
        let n = point_values.len();
        if n == 0 {
            return Err(KmeansError::EmptyDataset);
        }
        let points = match Points::from_values(point_values) {
            Ok(p) => p,
            Err(_) => {
                return Err(KmeansError::DimensionMismatch);
            },
        };
        let k = self.k;
        let max_iter = self.max_iter;
        if k == 0 || k > n || max_iter == 0 {
            return Err(KmeansError::Configuration);
        }
        let init = match points.get_init_centroids(self.centroids_init_method, k, self.random_seed)
            {
            Ok(c) => c,
            Err(e) => {
                // cannot happen: `k` and the dataset were validated above
                proof {
                    assert(false);
                }
                return Err(e);
            },
        };
        let ghost pts = points@;
        let ghost init_cs = init@;
        self.centroids = init;
        self.clusters = Clusters { clusters: Vec::new() };
        proof {
            assert(self.clusters@ =~= Seq::<Seq<int>>::empty());
        }
        let mut converged: bool = false;
        let mut iter: usize = 0;
        let ghost mut last_cs: Seq<(Seq<int>, int)> = init_cs;
        while iter < max_iter && !converged
            invariant
                self.k == k,
                self.max_iter == max_iter,
                self.centroids_init_method == old(self).centroids_init_method,
                self.random_seed == old(self).random_seed,
                self.distance_metric == old(self).distance_metric,
                self.labels == old(self).labels,
                iter <= max_iter,
                self.centroids.wf(points.spec_dim()),
                self.centroids@.len() == k,
                self.clusters.wf(n as int),
                converged ==> fit_loop_spec(pts, Seq::empty(), init_cs, max_iter as nat) == (
                    self.clusters@,
                    self.centroids@,
                ),
                !converged ==> fit_loop_spec(pts, Seq::empty(), init_cs, max_iter as nat)
                    == fit_loop_spec(
                    pts,
                    self.clusters@,
                    self.centroids@,
                    (max_iter - iter) as nat,
                ),
                iter == 0 && !converged ==> self.clusters@.len() == 0,
                iter > 0 || converged ==> self.clusters@ == clusters_of(pts, last_cs)
                    && last_cs.len() == k && self.clusters@.len() == k,
            decreases
                    max_iter - iter,
                    (if converged {
                        0int
                    } else {
                        1int
                    }),
        {
            let ghost pre_cl = self.clusters@;
            let ghost pre_ce = self.centroids@;
            let ghost fuel = (max_iter - iter) as nat;
            let a = self.centroids.get_clusters(&points);
            let stable = a.same_assignment(&self.clusters);
            let c = a.get_centroids(&points, &self.centroids);
            proof {
                last_cs = self.centroids@;
                assert(fuel > 0);
                assert(a@ == clusters_of(pts, pre_ce));
                assert(c@ == recompute_spec(pts, a@, pre_ce));
                if a@ == pre_cl {
                    assert(fit_loop_spec(pts, pre_cl, pre_ce, fuel) == (a@, c@));
                } else {
                    assert(fit_loop_spec(pts, pre_cl, pre_ce, fuel) == fit_loop_spec(
                        pts,
                        a@,
                        c@,
                        (fuel - 1) as nat,
                    ));
                }
            }
            self.clusters = a;
            self.centroids = c;
            if stable {
                converged = true;
            } else {
                iter = iter + 1;
            }
        }
        proof {
            if !converged {
                assert(iter == max_iter);
                assert(fit_loop_spec(pts, self.clusters@, self.centroids@, 0) == (
                    self.clusters@,
                    self.centroids@,
                ));
            }
            assert(fit_loop_spec(pts, Seq::empty(), init_cs, max_iter as nat) == (
                self.clusters@,
                self.centroids@,
            ));
            assert(self.clusters@ == clusters_of(pts, last_cs));
            lemma_assignment_is_partition(pts, last_cs);
        }
        let ghost cl = self.clusters@;
        let mut lab: Vec<usize> = Vec::new();
        let mut z: usize = 0;
        while z < n
            invariant
                z <= n,
                lab@.len() == z,
                forall|i: int| 0 <= i < z ==> #[trigger] lab@[i] == 0,
            decreases n - z,
        {
            lab.push(0);
            z = z + 1;
        }
        let kk = self.clusters.clusters.len();
        let mut j: usize = 0;
        while j < kk
            invariant
                j <= kk,
                kk == cl.len(),
                cl == self.clusters@,
                lab@.len() == n,
                forall|i: int, jj: int|
                    0 <= i < n && 0 <= jj < j && #[trigger] cl[jj].contains(i) ==> lab@[i] as int
                        == jj,
                forall|i: int|
                    0 <= i < n && (forall|jj: int| 0 <= jj < j ==> !(#[trigger] cl[jj]).contains(
                        i,
                    )) ==> #[trigger] lab@[i] == 0,
            decreases kk - j,
        {
            let m = self.clusters.clusters[j].point_indices.len();
            let mut t: usize = 0;
            while t < m
                invariant
                    j < kk,
                    t <= m,
                    m == cl[j as int].len(),
                    cl == self.clusters@,
                    lab@.len() == n,
                    forall|i: int, jj: int|
                        0 <= i < n && 0 <= jj < j && #[trigger] cl[jj].contains(i) ==> lab@[i] as int
                            == jj,
                    forall|p: int| 0 <= p < t ==> lab@[#[trigger] cl[j as int][p]] as int == j,
                    forall|i: int|
                        0 <= i < n && (forall|jj: int|
                            0 <= jj < j ==> !(#[trigger] cl[jj]).contains(i)) && (forall|p: int|
                            0 <= p < t ==> #[trigger] cl[j as int][p] != i) ==> #[trigger] lab@[i]
                            == 0,
                decreases m - t,
            {
                let idx = self.clusters.clusters[j].point_indices[t];
                proof {
                    assert(cl[j as int][t as int] == idx as int);
                    assert(cluster_indices_wf(cl[j as int], n as int));
                    assert(0 <= idx < n);
                    assert(cl[j as int].contains(idx as int));
                    assert(nearest_index(last_cs, pts[idx as int]) == j as int);
                }
                let ghost lab_before = lab@;
                lab[idx] = j;
                proof {
                    assert(lab@ == lab_before.update(idx as int, j));
                    assert forall|i: int, jj: int|
                        0 <= i < n && 0 <= jj < (j as int) && #[trigger] cl[jj].contains(i)
                        implies lab@[i] as int == jj by {
                        assert(nearest_index(last_cs, pts[i]) == jj);
                        assert(i != idx as int);
                    }
                    assert forall|p: int| 0 <= p < t + 1 implies lab@[#[trigger] cl[j as int][p]]
                        as int == j by {
                        if p < t {
                            assert(cl[j as int][p] != cl[j as int][t as int]);
                        }
                    }
                }
                t = t + 1;
            }
            proof {
                assert forall|i: int, jj: int|
                    0 <= i < n && 0 <= jj < j + 1 && #[trigger] cl[jj].contains(i)
                    implies lab@[i] as int == jj by {
                    if jj == j as int {
                        let p = choose|p: int| 0 <= p < cl[jj].len() && cl[jj][p] == i;
                        assert(lab@[cl[jj][p]] as int == jj);
                    }
                }
                assert forall|i: int|
                    0 <= i < n && (forall|jj: int|
                        0 <= jj < j + 1 ==> !(#[trigger] cl[jj]).contains(i))
                    implies #[trigger] lab@[i] == 0 by {
                    assert(!cl[j as int].contains(i));
                    assert forall|p: int| 0 <= p < cl[j as int].len() implies #[trigger] cl[j as int][p]
                        != i by {
                        if cl[j as int][p] == i {
                            assert(cl[j as int].contains(i));
                        }
                    }
                }
            }
            j = j + 1;
        }
        self.labels = Labels(lab);
        proof {
            assert forall|i: int| 0 <= i < n implies 0 <= #[trigger] self.labels@[i] < k by {
                let ji = nearest_index(last_cs, pts[i]);
                assert(cl[ji].contains(i));
                assert(self.labels@[i] == lab@[i] as int);
            }
            assert(self.labels@ =~= labels_spec(cl, pts.len())) by {
                assert forall|i: int| 0 <= i < n implies self.labels@[i] == labels_spec(
                    cl,
                    pts.len(),
                )[i] by {
                    let ji = nearest_index(last_cs, pts[i]);
                    assert(cl[ji].contains(i));
                    assert(has_cluster(cl, i));
                    let jc = assigned_cluster(cl, i);
                    assert(0 <= jc < cl.len() && cl[jc].contains(i));
                    assert(jc == ji);
                    assert(lab@[i] as int == ji);
                }
            }
            let s = choose|s: u64|
                init_cs == init_centroids_spec(pts, old(self).centroids_init_method, k, s);
            assert(is_fit_outcome(
                self.clusters@,
                self.centroids@,
                self.labels@,
                pts,
                old(self).centroids_init_method,
                k,
                max_iter,
                s,
            ));
        }
        Ok(())
    }

    /// Fits the model and hands back the labels: `fit` followed by
    /// `get_labels`.
    pub fn fit_predict(&mut self, point_values: Vec<Vec<i64>>) -> (r: Result<&Labels, KmeansError>)
        requires
            point_values@.len() <= MAX_POINT_COUNT,
            forall|i: int|
                0 <= i < point_values@.len() ==> (#[trigger] point_values@[i]).len()
                    <= MAX_DIMENSION,
            forall|i: int, j: int|
                0 <= i < point_values@.len() && 0 <= j < point_values@[i].len()
                    ==> -MAX_ABS_COORDINATE <= #[trigger] point_values@[i][j]
                    <= MAX_ABS_COORDINATE,
        ensures
            final(self).k == old(self).k,
            final(self).max_iter == old(self).max_iter,
            final(self).centroids_init_method == old(self).centroids_init_method,
            final(self).random_seed == old(self).random_seed,
            final(self).distance_metric == old(self).distance_metric,
            r is Ok <==> fit_error_spec(point_values@, old(self).k, old(self).max_iter) is None,
            r is Err ==> Some(r->Err_0) == fit_error_spec(
                point_values@,
                old(self).k,
                old(self).max_iter,
            ),
            r is Ok ==> *r->Ok_0 == final(self).labels,
            r is Ok ==> final(self).labels@.len() == point_values@.len(),
            r is Ok && old(self).random_seed is Some ==> is_fit_outcome(
                final(self).clusters@,
                final(self).centroids@,
                final(self).labels@,
                values_view(point_values@),
                old(self).centroids_init_method,
                old(self).k,
                old(self).max_iter,
                old(self).random_seed->0,
            ),
            r is Ok ==> exists|s: u64|
                is_fit_outcome(
                    final(self).clusters@,
                    final(self).centroids@,
                    final(self).labels@,
                    values_view(point_values@),
                    old(self).centroids_init_method,
                    old(self).k,
                    old(self).max_iter,
                    s,
                ),
    {
        match self.fit(point_values) {
            Ok(()) => Ok(&self.labels),
            Err(e) => Err(e),
        }
    }
}

} // verus!
