use vivotk::color::PointColor;
use vivotk::coordinate::PointCoordinate;
use vivotk::materials::interpolate::{interpolate_with, Penalties, ScoreScale};
use vivotk::materials::points::{Point, Points, POINT_SIZE_NEAR_CRACK, POINT_SIZE_ONE};
use vivotk::materials::recovery::{chunk_size, parallel_query_nearests, query_nearest_neighbours};
use vivotk::materials::spatial::{distance, inf_norm, squared_euclidean, Metric, SpatialIndex};
use vivotk::numeric::isqrt;
use vivotk::Error;

fn at(x: i32, y: i32, z: i32, index: usize) -> Point {
    Point::new(
        PointCoordinate::new(x, y, z),
        PointColor::new(10, 20, 30),
        0,
        index,
        0,
        POINT_SIZE_ONE,
        false,
    )
}

fn coloured(x: i32, colour: (u8, u8, u8), index: usize) -> Point {
    Point::new(
        PointCoordinate::new(x, 0, 0),
        PointColor::new(colour.0, colour.1, colour.2),
        0,
        index,
        0,
        POINT_SIZE_ONE,
        false,
    )
}

fn same(a: &Point, b: &Point) -> bool {
    a.point_coord == b.point_coord
        && a.point_color == b.point_color
        && a.mapping == b.mapping
        && a.index == b.index
        && a.point_density == b.point_density
        && a.point_size == b.point_size
        && a.near_crack == b.near_crack
}

fn frame() -> Vec<Point> {
    let mut data = Vec::new();
    for k in 0..12 {
        data.push(Point::new(
            PointCoordinate::new(k * 5, (k % 3) * 7, (k % 4) * 3),
            PointColor::new((k * 20) as u8, (255 - k * 10) as u8, (k * 3) as u8),
            0,
            k as usize,
            0,
            POINT_SIZE_ONE,
            false,
        ));
    }
    data
}

#[test]
fn inf_norm_is_the_largest_axis_difference() {
    assert_eq!(inf_norm(&[0, 0, 0], &[1, -5, 3]), 5);
    assert_eq!(inf_norm(&[2, 2, 2], &[2, 2, 2]), 0);
    assert_eq!(inf_norm(&[i32::MIN, 0, 0], &[i32::MAX, 0, 0]), u32::MAX);
    assert_eq!(squared_euclidean(&[0, 0, 0], &[1, -2, 3]), 14);
    assert_eq!(distance(Metric::InfinityNorm, &[0, 0, 0], &[1, -2, 3]), 3);
    assert_eq!(distance(Metric::SquaredEuclidean, &[0, 0, 0], &[1, -2, 3]), 14);
    assert_eq!(
        squared_euclidean(&[i32::MIN, i32::MIN, i32::MIN], &[i32::MAX, i32::MAX, i32::MAX]),
        3 * (u32::MAX as u128) * (u32::MAX as u128)
    );
}

#[test]
fn isqrt_rounds_down() {
    assert_eq!(isqrt(0), 0);
    assert_eq!(isqrt(1), 1);
    assert_eq!(isqrt(3), 1);
    assert_eq!(isqrt(4), 2);
    assert_eq!(isqrt(99), 9);
    assert_eq!(isqrt(100), 10);
    assert_eq!(isqrt(3 * 512 * 512), 886);
    assert_eq!(isqrt(u128::MAX), u64::MAX);
}

#[test]
fn within_finds_what_brute_force_finds() {
    let mut index = SpatialIndex::new();
    let mut positions = Vec::new();
    for k in 0..40i32 {
        let p = [(k * 7) % 11, (k * 5) % 13, (k * 3) % 17];
        index.add(&p, k as usize);
        positions.push(p);
    }
    assert_eq!(index.size(), 40);
    for metric in [Metric::InfinityNorm, Metric::SquaredEuclidean] {
        for radius in [0u128, 1, 4, 9, 50, 400] {
            let query = [5, 6, 7];
            let found = index.within_unsorted(&query, radius, metric);
            let mut expected = Vec::new();
            for (k, p) in positions.iter().enumerate() {
                let d = distance(metric, &query, p);
                if d <= radius {
                    expected.push((d, k));
                }
            }
            assert_eq!(found, expected);
        }
    }
}

#[test]
fn within_includes_the_boundary() {
    let mut index = SpatialIndex::new();
    index.add(&[2, 0, 0], 0);
    index.add(&[3, 0, 0], 1);
    let found = index.within_unsorted(&[0, 0, 0], 2, Metric::InfinityNorm);
    assert_eq!(found, vec![(2, 0)]);
}

#[test]
fn nearest_is_sorted_and_stable() {
    let mut index = SpatialIndex::new();
    index.add(&[5, 0, 0], 0);
    index.add(&[1, 0, 0], 1);
    index.add(&[-1, 0, 0], 2);
    index.add(&[3, 0, 0], 3);
    index.add(&[0, 1, 0], 4);
    let found = index.nearest(&[0, 0, 0], 3, Metric::InfinityNorm);
    // three at distance 1, in the order in which they were added
    assert_eq!(found, vec![(1, 1), (1, 2), (1, 4)]);
    let found = index.nearest(&[0, 0, 0], 4, Metric::SquaredEuclidean);
    assert_eq!(found, vec![(1, 1), (1, 2), (1, 4), (9, 3)]);
    let all = index.nearest(&[0, 0, 0], 10, Metric::InfinityNorm);
    assert_eq!(all, vec![(1, 1), (1, 2), (1, 4), (3, 3), (5, 0)]);
    assert!(index.nearest(&[0, 0, 0], 0, Metric::InfinityNorm).is_empty());
}

#[test]
fn nearest_matches_a_sort() {
    let mut index = SpatialIndex::new();
    let mut expected = Vec::new();
    let query = [3, 3, 3];
    for k in 0..50i32 {
        let p = [(k * 7) % 11, (k * 5) % 13, (k * 3) % 17];
        index.add(&p, k as usize);
        expected.push((distance(Metric::SquaredEuclidean, &query, &p), k as usize));
    }
    expected.sort();
    let found = index.nearest(&query, 7, Metric::SquaredEuclidean);
    assert_eq!(found, expected[0..7].to_vec());
}

#[test]
fn kdtree_holds_every_point_once() {
    let points = Points::of(frame());
    let index = points.clone().to_kdtree();
    assert_eq!(index.size(), 12);
    let mut payloads: Vec<usize> = index.entries.iter().map(|e| e.1).collect();
    payloads.sort();
    assert_eq!(payloads, (0..12).collect::<Vec<usize>>());
    for entry in &index.entries {
        let p = &points.data[entry.1];
        assert_eq!(entry.0, [p.point_coord.x, p.point_coord.y, p.point_coord.z]);
    }
}

#[test]
fn kdtree_is_built_in_a_shuffled_order() {
    let data: Vec<Point> = (0..200).map(|k| at(k, 0, 0, k as usize)).collect();
    let points = Points::of(data);
    let in_order: Vec<usize> = (0..200).collect();
    let mut differs = false;
    for _ in 0..4 {
        let index = points.clone().to_kdtree();
        let payloads: Vec<usize> = index.entries.iter().map(|e| e.1).collect();
        if payloads != in_order {
            differs = true;
        }
    }
    assert!(differs);
}

#[test]
fn average_of_two_points() {
    let a = Point::new(
        PointCoordinate::new(1, -3, 10),
        PointColor::new(10, 255, 0),
        4,
        7,
        9,
        POINT_SIZE_ONE,
        true,
    );
    let b = Point::new(
        PointCoordinate::new(4, -4, 20),
        PointColor::new(20, 254, 1),
        2,
        3,
        5,
        POINT_SIZE_NEAR_CRACK,
        true,
    );
    let m = a.get_average(&b);
    // each coordinate rounded down
    assert_eq!(m.point_coord, PointCoordinate::new(2, -4, 15));
    assert_eq!(m.point_color, PointColor::new(15, 254, 0));
    assert_eq!(m.mapping, 0);
    assert_eq!(m.index, 3);
    assert_eq!(m.point_density, 5);
    assert_eq!(m.point_size, POINT_SIZE_ONE + POINT_SIZE_ONE / 2);
    assert!(!m.near_crack);
}

#[test]
fn points_are_equal_by_position_and_colour() {
    let a = at(1, 2, 3, 0);
    let mut b = at(1, 2, 3, 9);
    b.mapping = 5;
    b.near_crack = true;
    assert!(a == b);
    assert!(a != at(1, 2, 4, 0));
    assert!(a != coloured(1, (0, 0, 0), 0));
}

#[test]
fn score_of_a_candidate() {
    let scale = ScoreScale::standard();
    let a = coloured(0, (0, 0, 0), 0);
    let b = coloured(3, (0, 0, 0), 1);
    let only_space = Penalties { coordinate: 1, colour: 0, mapped: 0 };
    // 65536 * floor(3 * 65536) / floor(sqrt(3) * 512 * 65536)
    let expected = (65536u128 * 196608) / isqrt(3 * 512 * 512 * 65536 * 65536) as u128;
    assert_eq!(a.get_difference(&b, &only_space, 0, &scale), expected);
    assert_eq!(expected, 221);
    let only_mapped = Penalties { coordinate: 0, colour: 0, mapped: 2 };
    assert_eq!(a.get_difference(&b, &only_mapped, 5, &scale), 2 * 65536 * 5);
    let c = coloured(0, (3, 4, 0), 2);
    let only_colour = Penalties { coordinate: 0, colour: 7, mapped: 0 };
    // the colour distance is 5, the normaliser sqrt(100^2 + 2 * 256^2)
    let expected = (7 * 65536u128 * (5 * 65536)) / isqrt(141072 * 65536 * 65536) as u128;
    assert_eq!(a.get_difference(&c, &only_colour, 0, &scale), expected);
    // the three parts add up
    let all = Penalties { coordinate: 1, colour: 7, mapped: 2 };
    let d = coloured(3, (3, 4, 0), 3);
    assert_eq!(a.get_difference(&d, &all, 5, &scale), 221 + expected + 2 * 65536 * 5);
    // a normaliser of zero leaves the distance out
    let flat = ScoreScale { coordinate_bound: 0, colour_bound: 0, luminance_cap: 0 };
    assert_eq!(a.get_difference(&d, &all, 5, &flat), 2 * 65536 * 5);
}

#[test]
fn closest_is_the_first_of_the_best() {
    let targets = vec![at(10, 0, 0, 0), at(2, 0, 0, 1), at(-2, 0, 0, 2), at(1, 0, 0, 3)];
    let source = at(0, 0, 0, 0);
    let penalties = Penalties { coordinate: 1, colour: 1, mapped: 1 };
    let scale = ScoreScale::standard();
    let mut counts = vec![0usize; 4];
    let chosen = source.get_closest(&targets, &vec![0, 1, 2], &penalties, &mut counts, &scale);
    // 1 and 2 are equally near: the first of them wins
    assert_eq!(chosen.index, 1);
    assert_eq!(counts, vec![0, 1, 0, 0]);
    // now 1 has been chosen once, which costs more than the tie
    let chosen = source.get_closest(&targets, &vec![0, 1, 2], &penalties, &mut counts, &scale);
    assert_eq!(chosen.index, 2);
    assert_eq!(counts, vec![0, 1, 1, 0]);
    let chosen = source.get_closest(&targets, &vec![0], &penalties, &mut counts, &scale);
    assert_eq!(chosen.index, 0);
    assert_eq!(counts, vec![1, 1, 1, 0]);
}

#[test]
fn mapping_penalty_spreads_the_choice() {
    // three sources at the same place, three targets at growing distance
    let sources = vec![at(0, 0, 0, 0), at(0, 0, 0, 1), at(0, 0, 0, 2)];
    let targets = vec![at(1, 0, 0, 0), at(2, 0, 0, 1), at(3, 0, 0, 2)];
    let nearests = vec![vec![0, 1, 2], vec![0, 1, 2], vec![0, 1, 2]];
    let scale = ScoreScale::standard();
    let heavy = Penalties { coordinate: 1, colour: 0, mapped: 1 };
    let (out, counts) = interpolate_with(&sources, &targets, &nearests, &heavy, &scale);
    assert_eq!(counts, vec![1, 1, 1]);
    assert_eq!(out.iter().map(|p| p.index).collect::<Vec<usize>>(), vec![0, 1, 2]);
    let none = Penalties { coordinate: 1, colour: 0, mapped: 0 };
    let (out, counts) = interpolate_with(&sources, &targets, &nearests, &none, &scale);
    assert_eq!(counts, vec![3, 0, 0]);
    assert_eq!(out.iter().map(|p| p.index).collect::<Vec<usize>>(), vec![0, 0, 0]);
}

#[test]
fn sources_find_their_candidates_by_their_index() {
    let sources = vec![at(0, 0, 0, 1), at(0, 0, 0, 0)];
    let targets = vec![at(4, 0, 0, 0), at(8, 0, 0, 1)];
    let nearests = vec![vec![0], vec![1]];
    let penalties = Penalties { coordinate: 1, colour: 1, mapped: 1 };
    let (out, counts) =
        interpolate_with(&sources, &targets, &nearests, &penalties, &ScoreScale::standard());
    assert_eq!(out[0].point_coord, PointCoordinate::new(4, 0, 0));
    assert_eq!(out[1].point_coord, PointCoordinate::new(2, 0, 0));
    assert_eq!(counts, vec![1, 1]);
}

#[test]
fn interpolating_a_frame_towards_itself() {
    let data = frame();
    let mut a = Points::of(data.clone());
    let b = Points::of(data.clone());
    let (out, reference, marked) =
        a.closest_with_ratio_average_points_recovery(&b, 3, 2, 1, 1000, 4, false, false, false, false);
    assert_eq!(out.data.len(), data.len());
    for (got, want) in out.data.iter().zip(data.iter()) {
        assert!(same(got, want));
    }
    // every target was chosen exactly once
    assert_eq!(reference.data.len(), data.len());
    for (got, want) in reference.data.iter().zip(data.iter()) {
        assert_eq!(got.mapping, 1);
        assert_eq!(got.index, want.index);
        assert_eq!(got.point_coord, want.point_coord);
    }
    assert!(marked.data.is_empty());
    assert_eq!(a.reference_frame.len(), data.len());
    assert!(a.delta_pos_vector.is_empty());
    assert_eq!(a.data.len(), data.len());
}

#[test]
fn interpolating_towards_an_empty_frame() {
    let source = Point::new(
        PointCoordinate::new(1, 2, 3),
        PointColor::new(4, 5, 6),
        7,
        0,
        8,
        POINT_SIZE_ONE,
        true,
    );
    let mut a = Points::of(vec![source]);
    let b = Points::new();
    let (out, reference, marked) =
        a.closest_with_ratio_average_points_recovery(&b, 1, 1, 1, 2, 4, true, false, false, true);
    assert_eq!(out.data.len(), 1);
    assert!(same(&out.data[0], &source));
    assert!(reference.data.is_empty());
    assert!(marked.data.is_empty());
    assert_eq!(a.delta_pos_vector, vec![[0, 0, 0]]);
    assert_eq!(a.delta_colours, vec![[0, 0, 0]]);
}

#[test]
fn interpolation_averages_with_the_match_in_reach() {
    let mut a = Points::of(vec![at(0, 0, 0, 0), at(100, 0, 0, 1)]);
    let b = Points::of(vec![at(2, 2, 2, 0), at(50, 0, 0, 1)]);
    let (out, reference, _) =
        a.closest_with_ratio_average_points_recovery(&b, 1, 1, 1, 2, 4, false, false, false, true);
    // the first source has the first target in reach, the second has none
    assert_eq!(out.data[0].point_coord, PointCoordinate::new(1, 1, 1));
    assert_eq!(out.data[0].index, 0);
    assert!(same(&out.data[1], &at(100, 0, 0, 1)));
    assert_eq!(reference.data[0].mapping, 1);
    assert_eq!(reference.data[1].mapping, 0);
    // the deltas run from the interpolated frame to the source frame
    assert_eq!(a.delta_pos_vector, vec![[-1, -1, -1], [0, 0, 0]]);
    assert_eq!(a.delta_colours, vec![[0, 0, 0], [0, 0, 0]]);
}

#[test]
fn interpolated_indices_refer_to_targets() {
    let data = frame();
    let mut a = Points::of(data.clone());
    let targets: Vec<Point> = (0..5).map(|k| at(k * 9, 3, 3, k as usize)).collect();
    let b = Points::of(targets);
    let (out, _, _) =
        a.closest_with_ratio_average_points_recovery(&b, 1, 1, 1, 6, 4, false, false, false, false);
    let index = b.clone().to_kdtree();
    let nearests = parallel_query_nearests(&data, &index, 6);
    assert_eq!(out.data.len(), data.len());
    for (k, p) in out.data.iter().enumerate() {
        if nearests[k].is_empty() {
            assert!(same(p, &data[k]));
        } else {
            assert!(p.index < b.data.len());
            assert!(nearests[k].contains(&p.index));
        }
    }
}

#[test]
fn unmapped_neighbourhoods_are_flagged() {
    // targets 0 and 1 are chosen, 2..5 lie far away and are never chosen
    let mut a = Points::of(vec![at(0, 0, 0, 0), at(1, 0, 0, 1)]);
    let b = Points::of(vec![
        at(0, 0, 0, 0),
        at(1, 0, 0, 1),
        at(100, 0, 0, 2),
        at(101, 0, 0, 3),
        at(102, 0, 0, 4),
        at(103, 0, 0, 5),
    ]);
    let (_, reference, _) =
        a.closest_with_ratio_average_points_recovery(&b, 1, 1, 0, 1, 4, true, false, false, false);
    let green = PointColor::new(0, 255, 0);
    assert_eq!(reference.data[0].mapping + reference.data[1].mapping, 2);
    assert!(reference.data[0].point_color != green);
    assert!(reference.data[1].point_color != green);
    for k in 2..6 {
        assert_eq!(reference.data[k].mapping, 0);
        assert_eq!(reference.data[k].point_color, green);
    }
}

#[test]
fn mark_unmapped_with_given_neighbours() {
    let mut points = Points::new();
    let mut frame = vec![at(0, 0, 0, 0), at(1, 0, 0, 1), at(2, 0, 0, 2), at(3, 0, 0, 3)];
    frame[1].mapping = 2;
    points.reference_frame = frame;
    // 0 has the mapped 1 among its neighbours; 2 and 3 have only each other
    let mapped = points.mark_unmapped_with(&vec![vec![0, 1], vec![0, 1], vec![2, 3], vec![3]]);
    assert_eq!(mapped, 1);
    let green = PointColor::new(0, 255, 0);
    let colours: Vec<bool> = points
        .reference_frame
        .iter()
        .map(|p| p.point_color == green)
        .collect();
    assert_eq!(colours, vec![false, false, true, true]);
}

#[test]
fn points_near_cracks_are_enlarged() {
    let mut data = vec![at(0, 0, 0, 0), at(1, 0, 0, 1), at(2, 0, 0, 2), at(50, 0, 0, 3)];
    for p in data.iter_mut() {
        p.point_density = 2;
    }
    let mut points = Points::of(data);
    points.adjust_point_sizes(1);
    // neighbours within 1, the point itself included: 2, 3, 2, 1
    let near: Vec<bool> = points.data.iter().map(|p| p.near_crack).collect();
    assert_eq!(near, vec![true, false, true, true]);
    let sizes: Vec<u32> = points.data.iter().map(|p| p.point_size).collect();
    assert_eq!(
        sizes,
        vec![POINT_SIZE_NEAR_CRACK, POINT_SIZE_ONE, POINT_SIZE_NEAR_CRACK, POINT_SIZE_NEAR_CRACK]
    );
    let mut other = Points::new();
    let marked = other.mark_points_near_cracks(&points);
    let red = PointColor::new(255, 0, 0);
    for (m, p) in marked.data.iter().zip(points.data.iter()) {
        assert_eq!(m.point_size, POINT_SIZE_ONE);
        assert_eq!(m.point_color == red, p.near_crack);
    }
}

#[test]
fn recovery_marks_cracks_on_request() {
    let mut source = frame();
    for p in source.iter_mut() {
        p.point_density = 1;
    }
    let mut a = Points::of(source.clone());
    let b = Points::of(source);
    let (out, _, marked) =
        a.closest_with_ratio_average_points_recovery(&b, 1, 1, 1, 2, 4, false, true, true, false);
    assert_eq!(marked.data.len(), out.data.len());
    assert!(out.data.iter().all(|p| p.near_crack));
    assert!(out.data.iter().all(|p| p.point_size == POINT_SIZE_NEAR_CRACK));
    assert!(marked.data.iter().all(|p| p.point_color == PointColor::new(255, 0, 0)));
    assert!(marked.data.iter().all(|p| p.point_size == POINT_SIZE_ONE));
}

#[test]
fn frame_delta_of_frames() {
    let mut next = Points::of(vec![coloured(5, (10, 0, 250), 0), coloured(-3, (0, 0, 0), 1)]);
    let prev = Points::of(vec![coloured(2, (20, 0, 0), 0), coloured(4, (0, 255, 0), 1)]);
    assert_eq!(next.frame_delta(prev), Ok(()));
    assert_eq!(next.get_delta_pos_vector(), vec![[3, 0, 0], [-7, 0, 0]]);
    assert_eq!(next.get_delta_colours(), vec![[-10, 0, 250], [0, -255, 0]]);
    let short = Points::of(vec![coloured(0, (0, 0, 0), 0)]);
    assert_eq!(next.frame_delta(short), Err(Error::ShapeMismatch));
    assert_eq!(next.delta_pos_vector.len(), 2);
    assert_eq!(next.delta_colours.len(), 2);
}

#[test]
fn points_accessors() {
    let mut points = Points::new();
    assert!(points.is_empty());
    points.add(coloured(1, (1, 2, 3), 0));
    points.add(coloured(2, (4, 5, 6), 1));
    assert_eq!(points.len(), 2);
    assert_eq!(points.get_clone_data().len(), 2);
    let (coords, colours) = points.clone().get_coords_cols();
    assert_eq!(
        coords.get_point_coor_vec(),
        &vec![PointCoordinate::new(1, 0, 0), PointCoordinate::new(2, 0, 0)]
    );
    assert_eq!(
        colours.get_point_col_vec(),
        &vec![PointColor::new(1, 2, 3), PointColor::new(4, 5, 6)]
    );
    assert_eq!(points.clone().get_coords().data.len(), 2);
    assert_eq!(points.clone().get_colors().data[1], PointColor::new(4, 5, 6));
    let mut p = Point::new_default();
    assert_eq!(p.point_size, POINT_SIZE_ONE);
    assert_eq!(p.get_index(), 0);
    p.set_index(4);
    assert_eq!(p.get_index(), 4);
    assert_eq!(*p.get_coord(), PointCoordinate::new(0, 0, 0));
    assert_eq!(*p.get_color(), PointColor::new(0, 0, 0));
    assert_eq!(points.get_data().len(), 2);
}

#[test]
fn chunks_cover_the_points() {
    assert_eq!(chunk_size(10, 4), 3);
    assert_eq!(chunk_size(8, 4), 2);
    assert_eq!(chunk_size(0, 4), 0);
    assert_eq!(chunk_size(1, 4), 1);
    assert_eq!(chunk_size(usize::MAX, 1), usize::MAX);
    assert_eq!(chunk_size(usize::MAX, 2), usize::MAX / 2 + 1);
}

#[test]
fn nearests_of_a_point() {
    let points = Points::of(vec![at(0, 0, 0, 0), at(2, 2, 2, 1), at(3, 0, 0, 2)]);
    let index = points.clone().to_kdtree();
    let mut found = at(1, 1, 1, 0).get_nearests(&index, 1);
    found.sort();
    assert_eq!(found, vec![0, 1]);
    let mut found = at(1, 1, 1, 0).get_nearests(&index, 2);
    found.sort();
    assert_eq!(found, vec![0, 1, 2]);
}

#[test]
fn default_frame_is_empty() {
    let points = Points::default();
    assert!(points.is_empty());
    assert!(points.reference_frame.is_empty());
    assert!(points.delta_pos_vector.is_empty());
    assert!(points.delta_colours.is_empty());
}

#[test]
fn candidates_by_number() {
    let targets = vec![at(0, 0, 0, 0), at(4, 0, 0, 1), at(9, 0, 0, 2)];
    let sources = vec![at(3, 0, 0, 0), at(8, 0, 0, 1)];
    let mut index = SpatialIndex::new();
    for p in &targets {
        index.add(&[p.point_coord.x, p.point_coord.y, p.point_coord.z], p.index);
    }
    let nearests = query_nearest_neighbours(&sources, &index, 2);
    assert_eq!(nearests, vec![vec![1, 0], vec![2, 1]]);
    let penalties = Penalties { coordinate: 1, colour: 0, mapped: 0 };
    let (out, counts) =
        interpolate_with(&sources, &targets, &nearests, &penalties, &ScoreScale::standard());
    assert_eq!(out[0].index, 1);
    assert_eq!(out[1].index, 2);
    assert_eq!(counts, vec![0, 1, 1]);
}
