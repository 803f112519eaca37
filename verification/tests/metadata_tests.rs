use vivotk::formats::bounds::Bounds;
use vivotk::formats::metadata::{cumulative_counts, cumulative_point_nums, MetaData};
use vivotk::render::resolution_controller::{
    closest_depth, largest_extent, pixel_spacing, segment_margin, ResolutionController,
    MAX_ANCHOR_SPACING,
};
use vivotk::Error;

fn frame_metadata(base: Vec<usize>, additional: Vec<Vec<usize>>) -> MetaData {
    let mut metadata = MetaData::default();
    metadata.next(Bounds::new(0, 10, 0, 10, 0, 10), base, additional);
    metadata
}

#[test]
fn metadata_new_keeps_its_arguments() {
    let metadata = MetaData::new(
        vec![Bounds::new(0, 1, 0, 1, 0, 1)],
        vec![vec![1, 2]],
        vec![vec![vec![3], vec![4]]],
        1,
        (2, 1, 1),
    );
    assert_eq!(metadata.bounds, vec![Bounds::new(0, 1, 0, 1, 0, 1)]);
    assert_eq!(metadata.base_point_num, vec![vec![1, 2]]);
    assert_eq!(metadata.additional_point_nums, vec![vec![vec![3], vec![4]]]);
    assert_eq!(metadata.num_of_additional_file, 1);
    assert_eq!(metadata.partitions, (2, 1, 1));
}

#[test]
fn metadata_default_is_empty() {
    let metadata = MetaData::default();
    assert!(metadata.bounds.is_empty());
    assert!(metadata.base_point_num.is_empty());
    assert!(metadata.additional_point_nums.is_empty());
    assert_eq!(metadata.num_of_additional_file, 0);
    assert_eq!(metadata.partitions, (0, 0, 0));
}

#[test]
fn metadata_next_appends_a_frame() {
    let mut metadata = MetaData::default();
    metadata.next(Bounds::new(0, 1, 0, 1, 0, 1), vec![5], vec![vec![1, 2]]);
    metadata.next(Bounds::new(0, 2, 0, 2, 0, 2), vec![6], vec![vec![3, 4]]);
    assert_eq!(metadata.bounds.len(), 2);
    assert_eq!(metadata.bounds[1], Bounds::new(0, 2, 0, 2, 0, 2));
    assert_eq!(metadata.base_point_num, vec![vec![5], vec![6]]);
    assert_eq!(
        metadata.additional_point_nums,
        vec![vec![vec![1, 2]], vec![vec![3, 4]]]
    );
}

#[test]
fn cumulative_counts_are_running_totals() {
    assert_eq!(cumulative_counts(&vec![50, 100, 250]), vec![50, 150, 400]);
    assert_eq!(cumulative_counts(&vec![]), Vec::<usize>::new());
    assert_eq!(cumulative_counts(&vec![0, 0, 3, 0]), vec![0, 0, 3, 3]);
    assert_eq!(
        cumulative_point_nums(&vec![vec![1, 2, 3], vec![], vec![4]]),
        vec![vec![1, 3, 6], vec![], vec![4]]
    );
}

#[test]
fn cumulative_counts_never_decrease() {
    let totals = cumulative_counts(&vec![3, 0, 7, 1, 0, 0, 12]);
    for pair in totals.windows(2) {
        assert!(pair[0] <= pair[1]);
    }
}

#[test]
fn metadata_record_stores_running_totals() {
    let mut metadata = MetaData::default();
    metadata.record(
        Bounds::new(0, 1, 0, 1, 0, 1),
        vec![100, 10],
        &vec![vec![50, 100, 250], vec![1, 1, 1]],
    );
    assert_eq!(metadata.base_point_num, vec![vec![100, 10]]);
    assert_eq!(
        metadata.additional_point_nums,
        vec![vec![vec![50, 150, 400], vec![1, 2, 3]]]
    );
}

#[test]
fn binary_search_finds_the_smallest_total_that_covers() {
    let row = vec![50, 150, 400];
    assert_eq!(ResolutionController::binary_search(&row, 0), 50);
    assert_eq!(ResolutionController::binary_search(&row, 50), 50);
    assert_eq!(ResolutionController::binary_search(&row, 51), 150);
    assert_eq!(ResolutionController::binary_search(&row, 150), 150);
    assert_eq!(ResolutionController::binary_search(&row, 151), 400);
    assert_eq!(ResolutionController::binary_search(&row, 400), 400);
    // more than is available: capped at the last total
    assert_eq!(ResolutionController::binary_search(&row, 700), 400);
    assert_eq!(ResolutionController::binary_search(&vec![7], 100), 7);
    assert_eq!(ResolutionController::binary_search(&vec![5, 5, 5, 9], 5), 5);
}

#[test]
fn desired_counts_scenario() {
    // anchor spacing 1, desired spacing 0.5, in units of 1/1024
    let metadata = frame_metadata(vec![100], vec![vec![50, 150, 400]]);
    let controller = ResolutionController::new(1024, Some(metadata));
    // f = 8, needed = 800
    assert_eq!(controller.get_desired_num_points_at(512, 100), 800);
    // deficit = 700, the search is capped at 400
    assert_eq!(
        controller.get_desired_num_points(0, &vec![512], false),
        Ok(vec![500])
    );
    assert_eq!(
        controller.get_desired_num_points(0, &vec![512], true),
        Ok(vec![400])
    );
}

#[test]
fn desired_counts_per_segment() {
    let metadata = frame_metadata(
        vec![100, 100, 100, 0],
        vec![
            vec![50, 150, 400],
            vec![50, 150, 400],
            vec![50, 150, 400],
            vec![50, 150, 400],
        ],
    );
    let controller = ResolutionController::new(1000, Some(metadata));
    // far away: nothing more is needed, the first total is 50 all the same:
    // the search returns the smallest total that covers a deficit of zero
    // spacing 2000: f = 1/8, needed 12, deficit 0 -> 50
    // spacing 1000: f = 1, needed 100, deficit 0 -> 50
    // spacing 800: f = 1.953125, needed 195, deficit 95 -> 150
    // no base points: needed 0, deficit 0 -> 50
    assert_eq!(
        controller.get_desired_num_points(0, &vec![2000, 1000, 800, 500], true),
        Ok(vec![50, 50, 150, 50])
    );
    assert_eq!(
        controller.get_desired_num_points(0, &vec![2000, 1000, 800, 500], false),
        Ok(vec![150, 150, 250, 50])
    );
}

#[test]
fn desired_points_formula() {
    let controller = ResolutionController::new(3, None);
    // 10 * (3 / 2)^3 = 33.75
    assert_eq!(controller.get_desired_num_points_at(2, 10), 33);
    // 7 * (3 / 5)^3 = 1.512
    assert_eq!(controller.get_desired_num_points_at(5, 7), 1);
    assert_eq!(controller.get_desired_num_points_at(3, 7), 7);
    // a desired spacing of zero asks for everything
    assert_eq!(controller.get_desired_num_points_at(0, 7), usize::MAX);
    assert_eq!(controller.get_desired_num_points_at(0, 0), 0);
    let still = ResolutionController::new(0, None);
    assert_eq!(still.get_desired_num_points_at(0, 7), 0);
    assert_eq!(still.get_desired_num_points_at(4, 7), 0);
    // saturation
    let wide = ResolutionController::new(MAX_ANCHOR_SPACING, None);
    assert_eq!(wide.get_desired_num_points_at(1, usize::MAX), usize::MAX);
}

#[test]
fn controller_without_metadata() {
    let controller = ResolutionController::new(1024, None);
    assert_eq!(
        controller.get_desired_num_points(0, &vec![512], false),
        Err(Error::MissingMetadata)
    );
    let metadata = frame_metadata(vec![100], vec![vec![50, 150, 400]]);
    let controller = ResolutionController::new(1024, Some(metadata));
    assert_eq!(
        controller.get_desired_num_points(1, &vec![512], false),
        Err(Error::MissingMetadata)
    );
}

#[test]
fn controller_with_no_segments() {
    let metadata = frame_metadata(vec![], vec![]);
    let controller = ResolutionController::new(1024, Some(metadata));
    assert_eq!(controller.get_desired_num_points(0, &vec![], false), Ok(vec![]));
}

#[test]
fn depth_and_spacing_helpers() {
    assert_eq!(largest_extent(&Bounds::new(0, 4, -3, 3, 1, 2)), 6);
    assert_eq!(largest_extent(&Bounds::new(i32::MIN, i32::MAX, 0, 0, 0, 0)), u32::MAX);
    assert_eq!(largest_extent(&Bounds::new(4, 0, 0, 0, 0, 0)), 0);
    // half of the longest edge, converted by 3 / 2
    assert_eq!(segment_margin(&Bounds::new(0, 4, -3, 3, 1, 2), 3, 2), 4);
    assert_eq!(segment_margin(&Bounds::new(0, 5, 0, 0, 0, 0), 1, 1), 2);
    assert_eq!(segment_margin(&Bounds::new(0, 5, 0, 0, 0, 0), 1, 0), u64::MAX);
    assert_eq!(closest_depth(&vec![30, 12, 50], 5), 7);
    assert_eq!(closest_depth(&vec![30, 12, 50], 12), 0);
    assert_eq!(closest_depth(&vec![30, 12, 50], 40), 0);
    assert_eq!(closest_depth(&vec![9], u64::MAX), 0);
    assert_eq!(pixel_spacing(1000, 500, 100, 100), 5);
    assert_eq!(pixel_spacing(1000, 5000, 100, 100), 10);
    assert_eq!(pixel_spacing(1000, 5000, 0, 100), 50);
    assert_eq!(pixel_spacing(1000, 5000, 0, 0), u32::MAX);
    assert_eq!(pixel_spacing(u64::MAX, u64::MAX, 1, 1), u32::MAX);
}

#[test]
fn controller_accessors() {
    let controller = ResolutionController::new(77, Some(frame_metadata(vec![1], vec![vec![2]])));
    assert_eq!(controller.get_anchor_spacing(), 77);
    assert_eq!(controller.get_metadata().unwrap().base_point_num, vec![vec![1]]);
    assert!(ResolutionController::new(0, None).get_metadata().is_none());
}
