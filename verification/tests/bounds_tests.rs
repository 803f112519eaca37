use vivotk::formats::bounds::Bounds;
use vivotk::formats::pointxyzrgba::PointXyzRgba;
use vivotk::formats::PointCloud;
use vivotk::midpoint::generate::generate_midpoint;
use vivotk::utils::get_pc_bound;
use vivotk::Error;

fn point(x: i32, y: i32, z: i32) -> PointXyzRgba {
    PointXyzRgba::new(x, y, z, 0, 0, 0, 0)
}

#[test]
fn bounds_of_two_points() {
    let pc = PointCloud::new(2, vec![point(-1, 0, 2), point(3, 4, -1)]);
    let bound = get_pc_bound(&pc).unwrap();
    assert_eq!(bound, Bounds::new(-1, 3, 0, 4, -1, 2));
}

#[test]
fn midpoint_of_two_points() {
    let pc = PointCloud::new(2, vec![point(-1, 0, 2), point(3, 4, -1)]);
    let doubled = generate_midpoint(pc).unwrap();
    let midpoint = [
        doubled[0] as f32 / 2.0,
        doubled[1] as f32 / 2.0,
        doubled[2] as f32 / 2.0,
    ];
    assert_eq!(midpoint, [1.0, 2.0, 0.5]);
}

#[test]
fn half_extent_is_not_the_midpoint() {
    let bound = Bounds::new(-1, 3, 0, 4, -1, 2);
    assert_eq!(bound.half_extent(), [4, 4, 3]);
    assert_eq!(bound.midpoint(), [2, 4, 1]);
}

#[test]
fn bounds_of_empty_cloud_is_an_error() {
    let pc = PointCloud::new(0, vec![]);
    assert_eq!(get_pc_bound(&pc), Err(Error::EmptyInput));
    assert_eq!(generate_midpoint(pc), Err(Error::EmptyInput));
}

#[test]
fn cell_index_clamps_on_the_upper_face() {
    let bound = Bounds::new(0, 3, 0, 3, 0, 3);
    assert_eq!(bound.get_bound_index(&point(3, 3, 3), (2, 2, 2)), Ok(7));
    assert_eq!(bound.get_bound_index(&point(3, 0, 0), (2, 2, 2)), Ok(4));
    assert_eq!(bound.get_bound_index(&point(0, 3, 0), (2, 2, 2)), Ok(2));
    assert_eq!(bound.get_bound_index(&point(0, 0, 3), (2, 2, 2)), Ok(1));
    assert_eq!(bound.get_bound_index(&point(3, 3, 3), (4, 1, 1)), Ok(3));
}

#[test]
fn cell_index_is_row_major() {
    let bound = Bounds::new(0, 8, 0, 8, 0, 8);
    // ix = 1, iy = 2, iz = 3 of (2, 4, 8): 1 * 32 + 2 * 8 + 3
    assert_eq!(bound.get_bound_index(&point(4, 4, 3), (2, 4, 8)), Ok(51));
    assert_eq!(bound.get_bound_index(&point(0, 0, 0), (2, 4, 8)), Ok(0));
    assert_eq!(bound.get_bound_index(&point(1, 1, 1), (2, 2, 2)), Ok(0));
}

#[test]
fn cell_index_rejects_bad_input() {
    let bound = Bounds::new(0, 3, 0, 3, 0, 3);
    assert_eq!(
        bound.get_bound_index(&point(1, 1, 1), (0, 2, 2)),
        Err(Error::InvalidPartition)
    );
    assert_eq!(
        bound.get_bound_index(&point(4, 1, 1), (2, 2, 2)),
        Err(Error::OutOfBounds)
    );
    assert_eq!(
        bound.get_bound_index(&point(4, 1, 1), (2, 0, 2)),
        Err(Error::InvalidPartition)
    );
}

#[test]
fn flat_box_has_all_points_in_cell_zero() {
    let bound = Bounds::new(5, 5, 5, 5, 5, 5);
    assert_eq!(bound.get_bound_index(&point(5, 5, 5), (3, 3, 3)), Ok(0));
}

#[test]
fn partition_of_bounds() {
    let bound = Bounds::new(0, 4, 0, 2, -3, 3);
    let cells = bound.partition((2, 1, 3)).unwrap();
    assert_eq!(cells.len(), 6);
    assert_eq!(cells[0], Bounds::new(0, 2, 0, 2, -3, -1));
    assert_eq!(cells[1], Bounds::new(0, 2, 0, 2, -1, 1));
    assert_eq!(cells[2], Bounds::new(0, 2, 0, 2, 1, 3));
    assert_eq!(cells[3], Bounds::new(2, 4, 0, 2, -3, -1));
    assert_eq!(cells[5], Bounds::new(2, 4, 0, 2, 1, 3));
    assert_eq!(bound.partition((2, 0, 3)), Err(Error::InvalidPartition));
}

#[test]
fn partition_of_bounds_rounds_cuts_down() {
    let bound = Bounds::new(0, 3, 0, 0, 0, 0);
    let cells = bound.partition((2, 1, 1)).unwrap();
    assert_eq!(cells[0], Bounds::new(0, 1, 0, 0, 0, 0));
    assert_eq!(cells[1], Bounds::new(1, 3, 0, 0, 0, 0));
}

#[test]
fn vertexes_of_a_box() {
    let bound = Bounds::new(0, 1, 2, 3, 4, 5);
    let corners = bound.get_vertexes();
    assert_eq!(corners.len(), 8);
    assert_eq!(corners[0], [0, 2, 4]);
    assert_eq!(corners[1], [0, 2, 5]);
    assert_eq!(corners[6], [1, 3, 4]);
    assert_eq!(corners[7], [1, 3, 5]);
}

#[test]
fn error_descriptions() {
    assert_eq!(Error::EmptyInput.describe(), "empty input");
    assert_eq!(Error::InvalidPartition.describe(), "invalid partition");
    assert_eq!(Error::OutOfBounds.describe(), "point out of bounds");
    assert_eq!(Error::ShapeMismatch.describe(), "shape mismatch");
    assert_eq!(Error::MissingMetadata.describe(), "missing metadata");
}
