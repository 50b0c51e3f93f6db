use toymlrs_clustering::centroid::Centroids;
use toymlrs_clustering::kmeans::{CentroidsInitMethod, DistanceMetric, Kmeans, KmeansError};
use toymlrs_clustering::point::{Point, Points};

fn create_test_points() -> Vec<Vec<i64>> {
    vec![
        vec![1, 0],
        vec![1, 1],
        vec![1, 2],
        vec![10, 0],
        vec![10, 1],
        vec![10, 2],
    ]
}

fn fitted(method: CentroidsInitMethod, k: usize, max_iter: usize, seed: Option<u64>) -> Kmeans {
    let mut kmeans = Kmeans::new(k, max_iter, method, DistanceMetric::Euclidean, seed);
    kmeans.fit(create_test_points()).unwrap();
    kmeans
}

#[test]
fn determinism_random_init() {
    let a = fitted(CentroidsInitMethod::Random, 2, 100, Some(7));
    let b = fitted(CentroidsInitMethod::Random, 2, 100, Some(7));
    assert_eq!(a.get_labels().0, b.get_labels().0);
    assert_eq!(a.get_centroids(), b.get_centroids());
    assert_eq!(a.get_clusters(), b.get_clusters());
}

#[test]
fn determinism_kmeans_plus_plus_init() {
    let a = fitted(CentroidsInitMethod::KmeansPlusPlus, 3, 100, Some(11));
    let b = fitted(CentroidsInitMethod::KmeansPlusPlus, 3, 100, Some(11));
    assert_eq!(a.get_labels().0, b.get_labels().0);
    assert_eq!(a.get_centroids(), b.get_centroids());
    assert_eq!(a.get_clusters(), b.get_clusters());
}

#[test]
fn partition_after_fit() {
    let kmeans = fitted(CentroidsInitMethod::KmeansPlusPlus, 2, 100, Some(5));
    let clusters = kmeans.get_clusters();
    let n = 6usize;
    for i in 0..n {
        let occurrences: usize = clusters
            .clusters
            .iter()
            .map(|c| c.point_indices.iter().filter(|&&x| x == i).count())
            .sum();
        assert_eq!(occurrences, 1, "point index {} must appear exactly once", i);
    }
}

#[test]
fn centroids_are_exact_means() {
    let data = create_test_points();
    let kmeans = fitted(CentroidsInitMethod::KmeansPlusPlus, 2, 100, Some(5));
    let clusters = kmeans.get_clusters();
    let centroids = kmeans.get_centroids();
    for (j, cluster) in clusters.clusters.iter().enumerate() {
        if cluster.point_indices.is_empty() {
            continue;
        }
        let count = cluster.point_indices.len();
        assert_eq!(centroids.centroids[j].count, count);
        for c in 0..2 {
            let sum: i64 = cluster.point_indices.iter().map(|&i| data[i][c]).sum();
            assert_eq!(centroids.centroids[j].sums[c], sum);
            let mean = centroids.centroids[j].sums[c] as f64 / count as f64;
            let expected = sum as f64 / count as f64;
            assert!((mean - expected).abs() < 1e-9);
        }
    }
}

#[test]
fn stable_assignment_is_fixed_point() {
    let data = create_test_points();
    let mut kmeans = fitted(CentroidsInitMethod::Random, 2, 1000, Some(7));
    let converged_clusters = kmeans.get_clusters().clone();
    // one further assign/update step reproduces the converged assignment
    let points = Points(
        data
            .into_iter()
            .map(|v| Point { values: v })
            .collect(),
    );
    kmeans.fit_one_step(&points);
    assert_eq!(kmeans.get_clusters(), &converged_clusters);
    kmeans.fit_one_step(&points);
    assert_eq!(kmeans.get_clusters(), &converged_clusters);
}

#[test]
fn dimension_guard() {
    let p1 = Point { values: vec![1, 2] };
    let p2 = Point {
        values: vec![1, 2, 3],
    };
    assert_eq!(
        p1.distance(&p2, None),
        Err(KmeansError::DimensionMismatch)
    );
    let mut kmeans = Kmeans {
        k: 1,
        max_iter: 10,
        ..Default::default()
    };
    assert_eq!(
        kmeans.fit(vec![vec![1, 2], vec![3]]),
        Err(KmeansError::DimensionMismatch)
    );
}

#[test]
fn two_well_separated_clusters() {
    let mut kmeans = Kmeans::new(
        2,
        100,
        CentroidsInitMethod::KmeansPlusPlus,
        DistanceMetric::Euclidean,
        Some(1),
    );
    kmeans.fit(create_test_points()).unwrap();
    let clusters = kmeans.get_clusters();
    let centroids = kmeans.get_centroids();

    let mut low: Vec<usize> = Vec::new();
    let mut high: Vec<usize> = Vec::new();
    for (j, cluster) in clusters.clusters.iter().enumerate() {
        let mut members = cluster.point_indices.clone();
        members.sort();
        if members == vec![0, 1, 2] {
            low.push(j);
        } else if members == vec![3, 4, 5] {
            high.push(j);
        }
    }
    assert_eq!(low.len(), 1, "one cluster holds the three points near x=1");
    assert_eq!(high.len(), 1, "one cluster holds the three points near x=10");
    // exact means: (1, 1) and (10, 1)
    assert_eq!(centroids.centroids[low[0]].sums, vec![3, 3]);
    assert_eq!(centroids.centroids[low[0]].count, 3);
    assert_eq!(centroids.centroids[high[0]].sums, vec![30, 3]);
    assert_eq!(centroids.centroids[high[0]].count, 3);
}

#[test]
fn k_zero_is_a_configuration_error() {
    let mut kmeans = Kmeans {
        k: 0,
        max_iter: 100,
        ..Default::default()
    };
    assert_eq!(
        kmeans.fit(create_test_points()),
        Err(KmeansError::Configuration)
    );
    assert!(kmeans.get_labels().0.is_empty());
    assert!(kmeans.get_clusters().clusters.is_empty());
}

#[test]
fn k_beyond_dataset_is_a_configuration_error() {
    let mut kmeans = Kmeans {
        k: 7,
        max_iter: 100,
        ..Default::default()
    };
    assert_eq!(
        kmeans.fit(create_test_points()),
        Err(KmeansError::Configuration)
    );
}

#[test]
fn zero_iteration_cap_is_a_configuration_error() {
    let mut kmeans = Kmeans {
        k: 2,
        max_iter: 0,
        ..Default::default()
    };
    assert_eq!(
        kmeans.fit(create_test_points()),
        Err(KmeansError::Configuration)
    );
}

#[test]
fn empty_dataset_is_an_error() {
    let mut kmeans = Kmeans {
        k: 2,
        max_iter: 100,
        ..Default::default()
    };
    assert_eq!(kmeans.fit(Vec::new()), Err(KmeansError::EmptyDataset));
}

#[test]
fn k_equal_to_dataset_size_gives_singletons() {
    let data = create_test_points();
    let mut kmeans = Kmeans::new(
        6,
        100,
        CentroidsInitMethod::KmeansPlusPlus,
        DistanceMetric::Euclidean,
        Some(2),
    );
    kmeans.fit(data.clone()).unwrap();
    let clusters = kmeans.get_clusters();
    let centroids = kmeans.get_centroids();
    assert_eq!(clusters.clusters.len(), 6);
    for (j, cluster) in clusters.clusters.iter().enumerate() {
        assert_eq!(cluster.point_indices.len(), 1);
        let member = cluster.point_indices[0];
        // the centroid is the point itself
        assert_eq!(centroids.centroids[j].count, 1);
        assert_eq!(centroids.centroids[j].sums, data[member]);
    }
    // labels are a permutation of the cluster indices
    let mut labels = kmeans.get_labels().0.clone();
    labels.sort();
    assert_eq!(labels, vec![0, 1, 2, 3, 4, 5]);
}

#[test]
fn sample_of_full_size_is_a_permutation() {
    let dataset = Points(
        create_test_points()
            .into_iter()
            .map(|v| Point { values: v })
            .collect(),
    );
    let sampled = dataset.sample(6, Some(9)).unwrap();
    assert_eq!(sampled.0.len(), 6);
    let mut got: Vec<Vec<i64>> = sampled.0.iter().map(|p| p.values.clone()).collect();
    let mut want = create_test_points();
    got.sort();
    want.sort();
    assert_eq!(got, want);
}

#[test]
fn sample_rejects_oversized_draws() {
    let dataset = Points(
        create_test_points()
            .into_iter()
            .map(|v| Point { values: v })
            .collect(),
    );
    assert!(matches!(
        dataset.sample(7, Some(1)),
        Err(KmeansError::Configuration)
    ));
}

#[test]
fn weighted_draw_never_repeats_a_chosen_point() {
    // with two points, the second k-means++ draw has weight zero on the
    // first pick, so both points always become centroids, whatever the seed
    for seed in 0..20u64 {
        let dataset = Points(vec![
            Point { values: vec![0, 0] },
            Point {
                values: vec![100, 0],
            },
        ]);
        let centroids: Centroids = dataset
            .get_init_centroids(CentroidsInitMethod::KmeansPlusPlus, 2, Some(seed))
            .unwrap();
        let mut xs: Vec<i64> = centroids.centroids.iter().map(|c| c.sums[0]).collect();
        xs.sort();
        assert_eq!(xs, vec![0, 100]);
    }
}

#[test]
fn kmeans_plus_plus_with_one_cluster_picks_a_point() {
    let dataset = Points(vec![
        Point { values: vec![0, 0] },
        Point { values: vec![4, 4] },
    ]);
    let centroids = dataset
        .get_init_centroids(CentroidsInitMethod::KmeansPlusPlus, 1, Some(3))
        .unwrap();
    assert_eq!(centroids.centroids.len(), 1);
    assert!(
        centroids.centroids[0].sums == vec![0, 0] || centroids.centroids[0].sums == vec![4, 4]
    );
}

#[test]
fn init_method_parsing() {
    assert_eq!(
        CentroidsInitMethod::parse("random"),
        Ok(CentroidsInitMethod::Random)
    );
    assert_eq!(
        CentroidsInitMethod::parse("kmeans++"),
        Ok(CentroidsInitMethod::KmeansPlusPlus)
    );
    assert_eq!(
        CentroidsInitMethod::parse("median"),
        Err(KmeansError::Configuration)
    );
    assert_eq!(CentroidsInitMethod::Random.name(), "random");
    assert_eq!(CentroidsInitMethod::KmeansPlusPlus.name(), "kmeans++");
}

#[test]
fn distance_metric_parsing() {
    assert_eq!(
        DistanceMetric::parse("euclidean"),
        Ok(DistanceMetric::Euclidean)
    );
    assert_eq!(
        DistanceMetric::parse("manhattan"),
        Err(KmeansError::Configuration)
    );
    assert_eq!(DistanceMetric::Euclidean.name(), "euclidean");
}

#[test]
fn duplicate_points_and_empty_clusters_are_handled() {
    // with two identical points every k-means++ weight is zero after the
    // first draw, so the second falls back to a uniform draw; both points
    // then share cluster 0 and the empty cluster keeps its centroid
    let mut kmeans = Kmeans::new(
        2,
        50,
        CentroidsInitMethod::KmeansPlusPlus,
        DistanceMetric::Euclidean,
        Some(4),
    );
    kmeans.fit(vec![vec![5, 5], vec![5, 5]]).unwrap();
    let clusters = kmeans.get_clusters();
    assert_eq!(clusters.clusters.len(), 2);
    assert_eq!(clusters.clusters[0].point_indices, vec![0, 1]);
    assert!(clusters.clusters[1].point_indices.is_empty());
    let centroids = kmeans.get_centroids();
    assert_eq!(centroids.centroids.len(), 2);
    assert_eq!(centroids.centroids[0].sums, vec![10, 10]);
    assert_eq!(centroids.centroids[0].count, 2);
    // the empty cluster kept its initial centroid, a dataset point
    assert_eq!(centroids.centroids[1].sums, vec![5, 5]);
    assert_eq!(centroids.centroids[1].count, 1);
    assert_eq!(kmeans.get_labels().0, vec![0, 0]);
}

#[test]
fn refit_recreates_the_state() {
    let mut kmeans = Kmeans::new(
        2,
        100,
        CentroidsInitMethod::Random,
        DistanceMetric::Euclidean,
        Some(7),
    );
    kmeans.fit(create_test_points()).unwrap();
    let first_labels = kmeans.get_labels().0.clone();
    let first_centroids = kmeans.get_centroids().clone();
    // a second fit of the same inputs carries nothing over and agrees
    kmeans.fit(create_test_points()).unwrap();
    assert_eq!(kmeans.get_labels().0, first_labels);
    assert_eq!(kmeans.get_centroids(), &first_centroids);
}

#[test]
fn error_messages_name_the_failure() {
    assert_eq!(KmeansError::Configuration.message(), "invalid configuration");
    assert_eq!(
        KmeansError::DimensionMismatch.message(),
        "points with different dimensions are not supported"
    );
    assert_eq!(
        KmeansError::EmptyDataset.message(),
        "the dataset holds no points"
    );
}

#[test]
fn fit_predict_returns_the_labels() {
    let mut kmeans = Kmeans::new(
        2,
        100,
        CentroidsInitMethod::Random,
        DistanceMetric::Euclidean,
        Some(7),
    );
    let labels = kmeans.fit_predict(create_test_points()).unwrap().0.clone();
    assert_eq!(labels.len(), 6);
    assert_eq!(&labels, &kmeans.get_labels().0);
}
