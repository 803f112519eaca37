use vivotk::formats::pointxyzrgba::PointXyzRgba;
use vivotk::formats::PointCloud;
use vivotk::lodify::{ladder_from_layers, lodify, partition, Partitioner};
use vivotk::subsample::{deal_cell, grid_factor_of, subsample};
use vivotk::Error;

fn point(x: i32, y: i32, z: i32) -> PointXyzRgba {
    PointXyzRgba::new(x, y, z, 0, 0, 0, 0)
}

fn tagged(x: i32, y: i32, z: i32, tag: u8) -> PointXyzRgba {
    PointXyzRgba::new(x, y, z, tag, 0, 0, 255)
}

fn sorted(points: &[PointXyzRgba]) -> Vec<(i32, i32, i32, u8, u8, u8, u8)> {
    let mut keys: Vec<(i32, i32, i32, u8, u8, u8, u8)> = points
        .iter()
        .map(|p| (p.x, p.y, p.z, p.r, p.g, p.b, p.a))
        .collect();
    keys.sort();
    keys
}

/// 600 points spread evenly over a 10 x 10 x 6 block.
fn uniform_600() -> PointCloud {
    let mut points = Vec::new();
    for x in 0..10 {
        for y in 0..10 {
            for z in 0..6 {
                points.push(tagged(x * 7, y * 7, z * 7, (x + y + z) as u8));
            }
        }
    }
    PointCloud::new(points.len(), points)
}

#[test]
fn test_partition() {
    let points = vec![
        PointXyzRgba {
            x: 0,
            y: 0,
            z: 0,
            r: 0,
            g: 0,
            b: 0,
            a: 0,
        },
        PointXyzRgba {
            x: 1,
            y: 1,
            z: 1,
            r: 0,
            g: 0,
            b: 0,
            a: 0,
        },
        PointXyzRgba {
            x: 2,
            y: 2,
            z: 2,
            r: 0,
            g: 0,
            b: 0,
            a: 0,
        },
        PointXyzRgba {
            x: 3,
            y: 3,
            z: 3,
            r: 0,
            g: 0,
            b: 0,
            a: 0,
        },
    ];

    let pc = PointCloud::new(4, points);

    let result = partition(&pc, (2, 2, 2)).unwrap();

    assert_eq!(result.points.len(), 4);
    assert_eq!(result.segments.len(), 8);
    assert_eq!(result.segments[0].points.len(), 2);
    assert_eq!(result.segments[1].points.len(), 0);
    assert_eq!(result.segments[2].points.len(), 0);
    assert_eq!(result.segments[3].points.len(), 0);
    assert_eq!(result.segments[4].points.len(), 0);
    assert_eq!(result.segments[5].points.len(), 0);
    assert_eq!(result.segments[6].points.len(), 0);
    assert_eq!(result.segments[7].points.len(), 2);
}

#[test]
fn partition_puts_points_into_their_segments() {
    let pc = PointCloud::new(
        4,
        vec![point(0, 0, 0), point(1, 1, 1), point(2, 2, 2), point(3, 3, 3)],
    );
    let result = partition(&pc, (2, 2, 2)).unwrap();
    assert_eq!(result.segments[0].points, vec![point(0, 0, 0), point(1, 1, 1)]);
    assert_eq!(result.segments[7].points, vec![point(2, 2, 2), point(3, 3, 3)]);
    assert_eq!(result.number_of_points, 4);
}

#[test]
fn partition_keeps_the_order_within_a_segment() {
    let pc = PointCloud::new(
        5,
        vec![
            tagged(9, 0, 0, 1),
            tagged(0, 0, 0, 2),
            tagged(8, 0, 0, 3),
            tagged(1, 0, 0, 4),
            tagged(10, 0, 0, 5),
        ],
    );
    let result = partition(&pc, (2, 1, 1)).unwrap();
    let low: Vec<u8> = result.segments[0].points.iter().map(|p| p.r).collect();
    let high: Vec<u8> = result.segments[1].points.iter().map(|p| p.r).collect();
    assert_eq!(low, vec![2, 4]);
    assert_eq!(high, vec![1, 3, 5]);
    // the points of the result are the segments one after the other
    let all: Vec<u8> = result.points.iter().map(|p| p.r).collect();
    assert_eq!(all, vec![2, 4, 1, 3, 5]);
}

#[test]
fn partition_is_a_rearrangement() {
    let pc = uniform_600();
    let result = partition(&pc, (3, 2, 5)).unwrap();
    assert_eq!(result.segments.len(), 30);
    let total: usize = result.segments.iter().map(|s| s.points.len()).sum();
    assert_eq!(total, 600);
    let mut joined = Vec::new();
    for segment in &result.segments {
        joined.extend(segment.points.iter().cloned());
    }
    assert_eq!(sorted(&joined), sorted(&pc.points));
    assert_eq!(joined, result.points);
}

#[test]
fn partition_rejects_a_zero() {
    let pc = PointCloud::new(1, vec![point(0, 0, 0)]);
    assert_eq!(partition(&pc, (2, 0, 2)).err(), Some(Error::InvalidPartition));
    let empty = PointCloud::new(0, vec![]);
    assert_eq!(partition(&empty, (0, 1, 1)).err(), Some(Error::InvalidPartition));
}

#[test]
fn partition_of_an_empty_cloud_has_empty_segments() {
    let empty = PointCloud::new(0, vec![]);
    let result = partition(&empty, (2, 2, 2)).unwrap();
    assert_eq!(result.segments.len(), 8);
    assert!(result.segments.iter().all(|s| s.points.is_empty()));
    assert!(result.points.is_empty());
}

#[test]
fn grid_factor_is_the_coarsest_fine_enough() {
    // 600 points, at most 10 per voxel: 60 voxels are needed, 4 * 4 * 4 is
    // the first cube that has as many
    assert_eq!(grid_factor_of(600, 10), 4);
    assert_eq!(grid_factor_of(640, 10), 4);
    assert_eq!(grid_factor_of(641, 10), 5);
    assert_eq!(grid_factor_of(1, 10), 1);
    assert_eq!(grid_factor_of(0, 10), 1);
    assert_eq!(grid_factor_of(8, 1), 2);
    // a threshold of zero is read as one
    assert_eq!(grid_factor_of(27, 0), 3);
}

#[test]
fn deal_cell_follows_the_proportions() {
    let cell: Vec<PointXyzRgba> = (0..9).map(|k| tagged(k, 0, 0, k as u8)).collect();
    let mut layers: Vec<Vec<PointXyzRgba>> = vec![vec![], vec![], vec![]];
    deal_cell(&cell, &vec![4, 1, 1], &mut layers);
    // boundaries at 9 * 4 / 6 = 6 and 9 * 5 / 6 = 7
    assert_eq!(layers[0], cell[0..6].to_vec());
    assert_eq!(layers[1], cell[6..7].to_vec());
    assert_eq!(layers[2], cell[7..9].to_vec());
    // a second cell is appended
    deal_cell(&cell[0..3].to_vec(), &vec![4, 1, 1], &mut layers);
    assert_eq!(layers[0].len(), 8);
    assert_eq!(layers[1].len(), 1);
    assert_eq!(layers[2].len(), 3);
}

#[test]
fn deal_cell_with_zero_proportions_fills_the_base() {
    let cell: Vec<PointXyzRgba> = (0..5).map(|k| point(k, 0, 0)).collect();
    let mut layers: Vec<Vec<PointXyzRgba>> = vec![vec![], vec![]];
    deal_cell(&cell, &vec![0, 0], &mut layers);
    assert_eq!(layers[0].len(), 5);
    assert_eq!(layers[1].len(), 0);
}

#[test]
fn subsample_keeps_every_point() {
    let pc = uniform_600();
    let layers = subsample(&pc, vec![4, 1, 1], 10);
    assert_eq!(layers.len(), 3);
    let total: usize = layers.iter().map(|l| l.points.len()).sum();
    assert_eq!(total, 600);
    let mut joined = Vec::new();
    for layer in &layers {
        assert_eq!(layer.number_of_points, layer.points.len());
        assert!(layer.segments.is_empty());
        joined.extend(layer.points.iter().cloned());
    }
    assert_eq!(sorted(&joined), sorted(&pc.points));
    // two thirds of the points, up to the rounding in each of the 64 voxels
    let base = layers[0].points.len() as i64;
    assert!((base - 400).abs() <= 64, "base has {} points", base);
}

#[test]
fn subsample_layer_sizes_do_not_depend_on_the_shuffle() {
    let pc = uniform_600();
    let first: Vec<usize> = subsample(&pc, vec![4, 1, 1], 10)
        .iter()
        .map(|l| l.points.len())
        .collect();
    for _ in 0..5 {
        let again: Vec<usize> = subsample(&pc, vec![4, 1, 1], 10)
            .iter()
            .map(|l| l.points.len())
            .collect();
        assert_eq!(again, first);
    }
}

#[test]
fn subsample_shuffles_within_a_voxel() {
    // one voxel of 300 distinct points: if the points were dealt in their
    // given order, the base would be the first 150 of them
    let points: Vec<PointXyzRgba> = (0..300).map(|k| point(k, 0, 0)).collect();
    let pc = PointCloud::new(300, points.clone());
    let mut differs = false;
    for _ in 0..6 {
        let layers = subsample(&pc, vec![1, 1], 300);
        assert_eq!(layers[0].points.len(), 150);
        assert_eq!(layers[1].points.len(), 150);
        if layers[0].points != points[0..150].to_vec() {
            differs = true;
        }
    }
    assert!(differs);
}

#[test]
fn subsample_of_edge_cases() {
    let empty = PointCloud::new(0, vec![]);
    let layers = subsample(&empty, vec![4, 1, 1], 10);
    assert_eq!(layers.len(), 1);
    assert!(layers[0].points.is_empty());

    let pc = uniform_600();
    let single = subsample(&pc, vec![7], 10);
    assert_eq!(single.len(), 1);
    assert_eq!(single[0].points, pc.points);

    let none = subsample(&pc, vec![], 10);
    assert!(none.is_empty());
}

#[test]
fn lodify_of_an_empty_cloud() {
    let empty = PointCloud::new(0, vec![]);
    let (base, segments, counts) = lodify(&empty, (2, 2, 2), vec![4, 1, 1], 10).unwrap();
    assert!(base.points.is_empty());
    assert!(segments.is_empty());
    assert!(counts.is_empty());
}

#[test]
fn lodify_with_a_single_proportion() {
    let pc = uniform_600();
    let (base, segments, counts) = lodify(&pc, (2, 2, 2), vec![3], 10).unwrap();
    assert_eq!(base.points, pc.points);
    assert!(segments.is_empty());
    assert!(counts.is_empty());
    // the partition is not looked at
    let (base, segments, counts) = lodify(&pc, (0, 0, 0), vec![3], 10).unwrap();
    assert_eq!(base.points, pc.points);
    assert!(segments.is_empty());
    assert!(counts.is_empty());
}

#[test]
fn lodify_rejects_a_zero_in_the_partition() {
    let pc = uniform_600();
    assert_eq!(
        lodify(&pc, (2, 0, 2), vec![4, 1, 1], 10).err(),
        Some(Error::InvalidPartition)
    );
}

#[test]
fn lodify_builds_the_ladder() {
    let pc = uniform_600();
    let (base, segments, counts) = lodify(&pc, (2, 2, 2), vec![4, 1, 1], 10).unwrap();
    assert_eq!(segments.len(), 8);
    assert_eq!(counts.len(), 8);
    let mut joined: Vec<PointXyzRgba> = base.points.clone();
    for s in 0..8 {
        assert_eq!(counts[s].len(), 2);
        assert_eq!(counts[s].iter().sum::<usize>(), segments[s].points.len());
        joined.extend(segments[s].points.iter().cloned());
    }
    assert_eq!(sorted(&joined), sorted(&pc.points));
}

#[test]
fn ladder_from_layers_regroups_by_segment() {
    let base = PointCloud::new(1, vec![tagged(5, 5, 5, 0)]);
    let first = PointCloud::new(
        3,
        vec![tagged(0, 0, 0, 1), tagged(10, 0, 0, 2), tagged(1, 0, 0, 3)],
    );
    let second = PointCloud::new(2, vec![tagged(20, 0, 0, 4), tagged(0, 0, 0, 5)]);
    let (base_out, segments, counts) =
        ladder_from_layers(vec![base, first, second], (2, 1, 1)).unwrap();
    assert_eq!(base_out.points, vec![tagged(5, 5, 5, 0)]);
    assert_eq!(segments.len(), 2);
    let low: Vec<u8> = segments[0].points.iter().map(|p| p.r).collect();
    let high: Vec<u8> = segments[1].points.iter().map(|p| p.r).collect();
    // resolution 0 first, then resolution 1, each cut along its own box
    assert_eq!(low, vec![1, 3, 5]);
    assert_eq!(high, vec![2, 4]);
    assert_eq!(counts, vec![vec![2, 1], vec![1, 1]]);
    assert_eq!(segments[0].number_of_points, 3);
}

#[test]
fn partitioner_rejects_a_zero() {
    let partitioner = Partitioner::new(vec![PointCloud::new(1, vec![point(0, 0, 0)])], (1, 0, 1));
    assert_eq!(
        partitioner.get_additional_points_by_segment().err(),
        Some(Error::InvalidPartition)
    );
}

#[test]
fn partitioner_without_clouds_has_empty_segments() {
    let partitioner = Partitioner::new(vec![], (2, 1, 1));
    let (segments, counts) = partitioner.get_additional_points_by_segment().unwrap();
    assert_eq!(segments.len(), 2);
    assert!(segments.iter().all(|s| s.points.is_empty()));
    assert_eq!(counts, vec![Vec::<usize>::new(), Vec::<usize>::new()]);
}

#[test]
fn new_with_segments_concatenates() {
    let cloud = PointCloud::new_with_segments(vec![
        vec![point(1, 0, 0)],
        vec![],
        vec![point(2, 0, 0), point(3, 0, 0)],
    ]);
    assert_eq!(cloud.number_of_points, 3);
    assert_eq!(cloud.points, vec![point(1, 0, 0), point(2, 0, 0), point(3, 0, 0)]);
    assert_eq!(cloud.segments.len(), 3);
    assert_eq!(cloud.segments[2].points.len(), 2);
    let copy = cloud.clone();
    assert_eq!(copy.points, cloud.points);
    assert_eq!(copy.segments.len(), 3);
    assert_eq!(copy.len(), 3);
    assert!(!copy.is_empty());
}
