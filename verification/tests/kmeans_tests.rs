use toymlrs_clustering::centroid::{Centroid, Centroids};
use toymlrs_clustering::cluster::{Cluster, Clusters};
use toymlrs_clustering::kmeans::{CentroidsInitMethod, DistanceMetric, Kmeans, KmeansError};
use toymlrs_clustering::point::{Point, Points};

fn create_test_points() -> Vec<Vec<i64>> {
    vec![
        vec![1, 0],
        vec![1, 1],
        vec![1, 2],
        vec![10, 0],
        vec![10, 1],
        vec![10, 2],
    ]
}

fn points_from(values: Vec<Vec<i64>>) -> Points {
    Points(
        values
            .into_iter()
            .map(|v| Point { values: v })
            .collect(),
    )
}

#[test]
fn test_kmeans_fit() {
    let mut kmeans = Kmeans {
        k: 2,
        max_iter: 100,
        ..Default::default()
    };
    let dataset = create_test_points();
    kmeans.fit(dataset).unwrap();
    assert_eq!(kmeans.centroids.centroids.len(), 2);
}

#[test]
fn test_dataset_get_random_init_centroids() {
    let dataset = points_from(create_test_points());
    let centroids = dataset
        .get_init_centroids(CentroidsInitMethod::Random, 2, None)
        .unwrap();

    assert_eq!(centroids.centroids.len(), 2);
    for centroid in centroids.centroids.iter() {
        assert_eq!(centroid.sums.len(), 2);
        assert_eq!(centroid.count, 1);
    }
}

#[test]
fn test_dataset_get_kmeans_plus_init_centroids() {
    let dataset = points_from(create_test_points());
    let centroids = dataset
        .get_init_centroids(CentroidsInitMethod::KmeansPlusPlus, 2, Some(10))
        .unwrap();

    assert_eq!(centroids.centroids.len(), 2);
    for centroid in centroids.centroids.iter() {
        assert_eq!(centroid.sums.len(), 2);
        assert_eq!(centroid.count, 1);
    }
    // the two init centroids come from the two different point groups
    assert_eq!(
        centroids
            .centroids
            .iter()
            .map(|c| c.sums[0])
            .sum::<i64>(),
        1 + 10
    );
}

#[test]
fn test_point_distance() {
    let p1 = Point {
        values: vec![1, 2, 3],
    };
    let p2 = Point {
        values: vec![4, 5, 6],
    };
    // the library computes the squared Euclidean distance exactly:
    // 3^2 + 3^2 + 3^2 = 27 (the metric distance is its square root)
    assert_eq!(
        p1.distance(&p2, Some(DistanceMetric::Euclidean)).unwrap(),
        27
    );
}

#[test]
fn test_point_distance_different_dimensions() {
    let p1 = Point {
        values: vec![1, 2],
    };
    let p2 = Point {
        values: vec![4, 5, 6],
    };
    assert_eq!(
        p1.distance(&p2, Some(DistanceMetric::Euclidean)),
        Err(KmeansError::DimensionMismatch)
    );
}

#[test]
fn test_clusters_get_centroids() {
    let points = points_from(vec![
        vec![1, 1],
        vec![2, 2],
        vec![3, 3],
        vec![10, 10],
        vec![11, 11],
    ]);
    let clusters = Clusters {
        clusters: vec![
            Cluster {
                point_indices: vec![0, 1, 2],
            },
            Cluster {
                point_indices: vec![3, 4],
            },
        ],
    };
    let previous = Centroids {
        centroids: vec![
            Centroid {
                sums: vec![0, 0],
                count: 1,
            },
            Centroid {
                sums: vec![0, 0],
                count: 1,
            },
        ],
    };

    let centroids = clusters.get_centroids(&points, &previous);
    assert_eq!(centroids.centroids.len(), 2);
    // exact mean (2, 2): sums (6, 6) over 3 members
    assert_eq!(centroids.centroids[0].sums, vec![6, 6]);
    assert_eq!(centroids.centroids[0].count, 3);
    // exact mean (10.5, 10.5): sums (21, 21) over 2 members
    assert_eq!(centroids.centroids[1].sums, vec![21, 21]);
    assert_eq!(centroids.centroids[1].count, 2);
    assert!((centroids.centroids[1].sums[0] as f64 / centroids.centroids[1].count as f64 - 10.5).abs() < 1e-9);
}

#[test]
fn test_centroids_get_nearest_cluster_index() {
    let centroids = Centroids {
        centroids: vec![
            Centroid {
                sums: vec![1, 1],
                count: 1,
            },
            Centroid {
                sums: vec![5, 5],
                count: 1,
            },
        ],
    };
    let point = Point {
        values: vec![2, 2],
    };
    assert_eq!(centroids.get_nearest_cluster_index(&point), 0);

    let point = Point {
        values: vec![4, 4],
    };
    assert_eq!(centroids.get_nearest_cluster_index(&point), 1);
}

#[test]
fn test_kmeans_fit_convergence() {
    let mut kmeans = Kmeans {
        k: 2,
        max_iter: 1000,
        random_seed: Some(3),
        ..Default::default()
    };
    let dataset = create_test_points();
    kmeans.fit(dataset).unwrap();

    // Check if the clusters are as expected
    let clusters = kmeans.get_clusters();
    assert_eq!(clusters.clusters.len(), 2);

    // The exact cluster assignments may vary due to random initialization,
    // so we'll check if the points are grouped correctly
    let cluster1 = &clusters.clusters[0].point_indices;
    let cluster2 = &clusters.clusters[1].point_indices;

    assert!(
        (cluster1.len() == 3 && cluster2.len() == 3)
            || (cluster1.len() == 6 && cluster2.is_empty())
            || (cluster1.is_empty() && cluster2.len() == 6)
    );

    if cluster1.len() == 3 && cluster2.len() == 3 {
        assert!(
            (cluster1.contains(&0) && cluster1.contains(&1) && cluster1.contains(&2))
                || (cluster1.contains(&3) && cluster1.contains(&4) && cluster1.contains(&5))
        );
    }
}

#[test]
fn test_dataset_sample() {
    let dataset = points_from(create_test_points());
    let sampled = dataset.sample(2, Some(42)).unwrap();

    assert_eq!(sampled.0.len(), 2);
    for point in sampled.0.iter() {
        assert!(dataset.0.contains(point));
    }
}

#[test]
fn test_dataset_get_init_centroids() {
    let dataset = points_from(create_test_points());
    let centroids = dataset
        .get_init_centroids(CentroidsInitMethod::Random, 2, Some(42))
        .unwrap();

    assert_eq!(centroids.centroids.len(), 2);
    for centroid in centroids.centroids.iter() {
        assert_eq!(centroid.sums.len(), 2);
    }
}
