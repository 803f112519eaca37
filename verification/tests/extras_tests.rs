use std::cmp::Ordering;
use vivotk::color::PointColor;
use vivotk::coordinate::PointCoordinate;
use vivotk::formats::bounds::{cells_fit, Bounds};
use vivotk::formats::metadata::MetaData;
use vivotk::formats::pointxyzrgba::PointXyzRgba;
use vivotk::counts::{sum_fits, total_of};
use vivotk::materials::interpolate::{check_candidates_fit, check_lists_below};
use vivotk::materials::passes::check_neighbours_fit;
use vivotk::materials::points::{Point, Points, POINT_SIZE_ONE};
use vivotk::materials::recovery::check_indices_in_range;
use vivotk::pipeline::subcommands::lodify::{Args, Lodifier};
use vivotk::ply::{encoding_of, same_text, Encoding, Property};
use vivotk::render::async_reader::{FrameRequest, PcdAsyncReader};
use vivotk::render::resolution_controller::{
    check_frame_servable, is_non_decreasing, ResolutionController,
};
use vivotk::formats::PointCloud;
use vivotk::Error;

fn at(x: i32, y: i32, z: i32, index: usize) -> Point {
    Point::new(
        PointCoordinate::new(x, y, z),
        PointColor::new(1, 2, 3),
        0,
        index,
        0,
        POINT_SIZE_ONE,
        false,
    )
}

fn request(offset: u64) -> FrameRequest {
    FrameRequest { object_id: 0, quality: 0, frame_offset: offset }
}

fn offsets(requests: &[FrameRequest]) -> Vec<u64> {
    requests
        .iter()
        .map(|r| {
            assert_eq!(r.object_id, 0);
            assert_eq!(r.quality, 0);
            r.frame_offset
        })
        .collect()
}

#[test]
fn points_compare_by_distance_from_the_origin() {
    // the distance of the first against the squared distance of the second
    let a = at(3, 4, 0, 0);
    assert_eq!(a.partial_cmp(&at(2, 0, 0, 0)), Some(Ordering::Greater)); // 5 > 4
    assert_eq!(a.partial_cmp(&at(2, 1, 0, 0)), Some(Ordering::Equal)); // 5 == 5
    assert_eq!(a.partial_cmp(&at(2, 1, 1, 0)), Some(Ordering::Less)); // 5 < 6
    assert_eq!(at(0, 0, 0, 0).partial_cmp(&at(0, 0, 0, 0)), Some(Ordering::Equal));
    let far = at(i32::MIN, i32::MIN, i32::MIN, 0);
    assert_eq!(far.partial_cmp(&far), Some(Ordering::Less));
    assert_eq!(far.origin_distance_squared(), 3 * (1u64 << 62));
}

#[test]
fn filter_and_transform() {
    let points = Points::of(vec![at(1, 0, 0, 0), at(-2, 0, 0, 1), at(3, 0, 0, 2)]);
    let positive = |p: &Point| p.point_coord.x > 0;
    let double = |p: &Point| at(p.point_coord.x * 2, 0, 0, p.index);
    let zero = |p: &Point| at(0, 0, 0, p.index);
    let res = points.fat(&positive, &double, &zero);
    let xs: Vec<i32> = res.data.iter().map(|p| p.point_coord.x).collect();
    assert_eq!(xs, vec![2, 0, 6]);
    assert!(res.reference_frame.is_empty());
    assert!(Points::new().fat(&positive, &double, &zero).is_empty());
}

#[test]
fn ply_encoding_for_a_form() {
    assert_eq!(encoding_of(None), Some(Encoding::Ascii));
    assert_eq!(encoding_of(Some("ascii")), Some(Encoding::Ascii));
    assert_eq!(encoding_of(Some("binary")), Some(Encoding::BinaryLittleEndian));
    assert_eq!(encoding_of(Some("Binary")), None);
    assert_eq!(encoding_of(Some("")), None);
    assert!(same_text("", ""));
    assert!(same_text("héllo", "héllo"));
    assert!(!same_text("hello", "hellp"));
    assert!(!same_text("hello", "hell"));
}

#[test]
fn ply_properties_of_a_point() {
    let mut p = Point::new_default();
    assert!(p.set_property("x", Property::Coordinate(-7)));
    assert!(p.set_property("y", Property::Coordinate(8)));
    assert!(p.set_property("z", Property::Coordinate(9)));
    assert!(p.set_property("red", Property::Colour(1)));
    assert!(p.set_property("green", Property::Colour(2)));
    assert!(p.set_property("blue", Property::Colour(3)));
    assert_eq!(p.point_coord, PointCoordinate::new(-7, 8, 9));
    assert_eq!(p.point_color, PointColor::new(1, 2, 3));
    // a key of the wrong kind, and an unknown key, change nothing
    assert!(!p.set_property("x", Property::Colour(5)));
    assert!(!p.set_property("red", Property::Coordinate(5)));
    assert!(!p.set_property("alpha", Property::Colour(5)));
    assert_eq!(p.point_coord, PointCoordinate::new(-7, 8, 9));
    assert_eq!(p.point_color, PointColor::new(1, 2, 3));
}

#[test]
fn sums_and_products_that_fit() {
    assert!(sum_fits(&vec![1, 2, 3]));
    assert!(sum_fits(&vec![]));
    assert!(sum_fits(&vec![usize::MAX, 0]));
    assert!(!sum_fits(&vec![usize::MAX, 1]));
    assert!(!sum_fits(&vec![usize::MAX / 2 + 1, usize::MAX / 2 + 1, 0]));
    assert_eq!(total_of(&vec![4, 1, 1]), 6);
    assert!(cells_fit((2, 3, 4)));
    assert!(cells_fit((usize::MAX, 1, 1)));
    assert!(cells_fit((usize::MAX, usize::MAX, 0)));
    assert!(!cells_fit((usize::MAX, 2, 1)));
    assert!(!cells_fit((1 << 32, 1 << 31, 2)));
}

#[test]
fn lodifier_readiness() {
    let ready = |partitions: (usize, usize, usize), proportions: Vec<usize>| {
        Lodifier::from_args(Args {
            x_partition: partitions.0,
            y_partition: partitions.1,
            z_partition: partitions.2,
            proportions,
            points_per_voxel_threshold: 10,
        })
        .check_ready()
    };
    assert!(ready((2, 2, 2), vec![4, 1, 1]));
    assert!(ready((0, 2, 2), vec![1]));
    assert!(!ready((2, 2, 2), vec![]));
    assert!(!ready((2, 2, 2), vec![usize::MAX, 1]));
    assert!(!ready((usize::MAX, 2, 2), vec![1]));
}

#[test]
fn frames_that_can_be_served() {
    let mut metadata = MetaData::default();
    metadata.next(Bounds::new(0, 1, 0, 1, 0, 1), vec![10, 20], vec![vec![1, 2], vec![3]]);
    metadata.next(Bounds::new(0, 1, 0, 1, 0, 1), vec![10, 20], vec![vec![2, 1], vec![3]]);
    metadata.next(Bounds::new(0, 1, 0, 1, 0, 1), vec![10, 20], vec![vec![], vec![3]]);
    metadata.next(Bounds::new(0, 1, 0, 1, 0, 1), vec![10, usize::MAX], vec![vec![1], vec![3]]);
    assert!(check_frame_servable(&metadata, 0, 2));
    assert!(!check_frame_servable(&metadata, 0, 3));
    assert!(!check_frame_servable(&metadata, 1, 2));
    assert!(!check_frame_servable(&metadata, 2, 2));
    assert!(!check_frame_servable(&metadata, 3, 2));
    assert!(!check_frame_servable(&metadata, 4, 2));
    assert!(is_non_decreasing(&vec![]));
    assert!(is_non_decreasing(&vec![5]));
    assert!(is_non_decreasing(&vec![1, 1, 2]));
    assert!(!is_non_decreasing(&vec![1, 3, 2]));
}

#[test]
fn candidate_lists_that_fit() {
    let sources = vec![at(0, 0, 0, 0), at(0, 0, 0, 1)];
    let targets = vec![at(0, 0, 0, 0)];
    assert!(check_candidates_fit(&sources, &targets, &vec![vec![0], vec![]]));
    assert!(!check_candidates_fit(&sources, &targets, &vec![vec![0]]));
    assert!(!check_candidates_fit(&sources, &targets, &vec![vec![0], vec![1]]));
    assert!(check_lists_below(&vec![vec![1, 2], vec![]], 3));
    assert!(!check_lists_below(&vec![vec![1, 2], vec![3]], 3));
    assert!(check_neighbours_fit(&targets, &vec![vec![0, 0]]));
    assert!(!check_neighbours_fit(&targets, &vec![vec![0], vec![0]]));
    assert!(!check_neighbours_fit(&targets, &vec![vec![1]]));
    assert!(check_indices_in_range(&sources));
    assert!(!check_indices_in_range(&vec![at(0, 0, 0, 1)]));
}

#[test]
fn spacing_of_a_cloud() {
    let line: Vec<PointXyzRgba> = (0..5).map(|k| PointXyzRgba::new(k * 2, 0, 0, 0, 0, 0, 0)).collect();
    // the three nearest others are at 2, 4 and 6 from an end and at 2, 2
    // and 4 from every other point
    let spacing = ResolutionController::calculate_spacing(&line).unwrap();
    let ends = (2 + 4 + 6) * 1024 / 3;
    let others = (2 + 2 + 4) * 1024 / 3;
    assert_eq!(spacing, ((2 * ends + 3 * others) / 5) as u64);
    // fewer than four points: a third of what there is
    let pair = vec![PointXyzRgba::new(0, 0, 0, 0, 0, 0, 0), PointXyzRgba::new(3, 4, 0, 0, 0, 0, 0)];
    assert_eq!(ResolutionController::calculate_spacing(&pair), Ok(5 * 1024 / 3));
    let diagonal = vec![PointXyzRgba::new(0, 0, 0, 0, 0, 0, 0), PointXyzRgba::new(1, 1, 0, 0, 0, 0, 0)];
    // floor(1024 * sqrt(2)) = 1448
    assert_eq!(ResolutionController::calculate_spacing(&diagonal), Ok(1448 / 3));
    assert_eq!(ResolutionController::calculate_spacing(&vec![]), Err(Error::EmptyInput));
}

#[test]
fn async_reader_starts_by_requesting_ahead() {
    let mut reader = PcdAsyncReader::new(None);
    assert_eq!(reader.len(), 30);
    assert!(!reader.is_empty());
    assert!(reader.check_steady());
    let first = reader.start_requests();
    assert_eq!(offsets(&first), (0..10).collect::<Vec<u64>>());
    // nothing more is due until a frame has been shown
    assert!(reader.send_next_req().is_empty());
    // after each frame one more request
    assert_eq!(offsets(&reader.advance()), vec![10]);
    assert_eq!(offsets(&reader.advance()), vec![11]);
    let small = PcdAsyncReader::new(Some(3));
    assert!(small.check_steady());
    let mut huge = PcdAsyncReader::new(Some(30));
    assert!(!huge.check_steady());
    huge.set_len(31);
    assert!(huge.check_steady());
    assert_eq!(huge.len(), 31);
}

#[test]
fn async_reader_wraps_around() {
    let mut reader = PcdAsyncReader::new(Some(4));
    reader.set_len(6);
    assert_eq!(offsets(&reader.start_requests()), vec![0, 1, 2, 3]);
    // frame 1 is shown: request up to frame 4
    assert_eq!(offsets(&reader.advance()), vec![4]);
    // frame 2: up to the last frame, after which requesting starts over
    assert_eq!(offsets(&reader.advance()), vec![5]);
    // the next request would be for frame 0, which is behind: nothing is due
    assert!(reader.advance().is_empty());
    assert!(reader.advance().is_empty());
    assert!(reader.advance().is_empty());
    // the frame shown wraps to 0: four frames ahead again
    assert_eq!(offsets(&reader.advance()), vec![0, 1, 2, 3]);
    assert!(reader.check_steady());
}

#[test]
fn async_reader_buffers_early_frames() {
    let mut reader = PcdAsyncReader::new(None);
    let frame = |n: usize| PointCloud::new(n, vec![PointXyzRgba::new(0, 0, 0, 0, 0, 0, 0); n]);
    assert!(reader.take_buffered(0).is_none());
    // frame 2 arrives while frame 0 is waited for
    assert!(reader.receive(request(2), frame(2), 0).is_none());
    assert!(reader.receive(request(1), frame(1), 0).is_none());
    assert_eq!(reader.buffered_len(), 2);
    // frame 0 arrives and is handed on
    let got = reader.receive(request(0), frame(7), 0).unwrap();
    assert_eq!(got.points.len(), 7);
    assert_eq!(reader.buffered_len(), 2);
    // a second frame for the same request replaces the first
    assert!(reader.receive(request(2), frame(3), 0).is_none());
    assert_eq!(reader.buffered_len(), 2);
    assert_eq!(reader.take_buffered(2).unwrap().points.len(), 3);
    assert!(reader.take_buffered(2).is_none());
    assert_eq!(reader.take_buffered(1).unwrap().points.len(), 1);
    assert_eq!(reader.buffered_len(), 0);
    // frames of other objects are kept apart
    let other = FrameRequest { object_id: 1, quality: 0, frame_offset: 5 };
    assert!(reader.receive(other, frame(4), 0).is_none());
    assert!(reader.take_buffered(5).is_none());
    assert_eq!(PcdAsyncReader::key(&other), (1u128 << 72) + 5);
}
