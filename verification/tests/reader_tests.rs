use vivotk::formats::pointxyzrgba::PointXyzRgba;
use vivotk::formats::PointCloud;
use vivotk::render::reader::{
    has_extension_of, PcdFileReader, PcdMemoryReader, PointCloudFileReader, RenderReader,
};

fn listing(names: &[&str]) -> Vec<String> {
    names.iter().map(|n| n.to_string()).collect()
}

#[test]
fn extension_of_a_path() {
    assert!(has_extension_of("frame.pcd", "pcd"));
    assert!(has_extension_of("dir/sub/frame.0001.pcd", "pcd"));
    assert!(!has_extension_of("frame.ply", "pcd"));
    assert!(!has_extension_of("framepcd", "pcd"));
    assert!(!has_extension_of(".pcd", "pcd"));
    assert!(!has_extension_of("dir/.pcd", "pcd"));
    assert!(!has_extension_of("frame.pcd.bak", "pcd"));
    assert!(!has_extension_of("frame.tar.gz", "tar.gz"));
    assert!(has_extension_of("frame.tar.gz", "gz"));
    assert!(!has_extension_of("pcd", "pcd"));
    assert!(has_extension_of("a.", ""));
    assert!(has_extension_of("é.ply", "ply"));
}

#[test]
fn file_reader_keeps_and_sorts_pcd_files() {
    let reader = PcdFileReader::from_directory(listing(&[
        "d/frame_2.pcd",
        "d/notes.txt",
        "d/frame_10.pcd",
        "d/frame_1.pcd",
        "d/.pcd",
    ]));
    assert_eq!(reader.file_at(0), Some(&"d/frame_1.pcd".to_string()));
    assert_eq!(reader.file_at(1), Some(&"d/frame_10.pcd".to_string()));
    assert_eq!(reader.file_at(2), Some(&"d/frame_2.pcd".to_string()));
    assert_eq!(reader.file_at(3), None);
    assert_eq!(reader.len(), 1);
    assert!(!reader.is_empty());
}

#[test]
fn file_reader_over_levels() {
    let mut reader = PcdFileReader::from_directories(vec![
        listing(&["low/b.pcd", "low/a.pcd"]),
        listing(&["high/a.pcd"]),
    ]);
    assert_eq!(reader.len(), 2);
    // the first frame of the last level
    assert_eq!(reader.start(), Some("high/a.pcd".to_string()));
    assert_eq!(reader.get_at(1), Some("low/b.pcd".to_string()));
    assert_eq!(reader.get_at_with_lod(0, 1), Some("high/a.pcd".to_string()));
    assert_eq!(reader.get_at_with_lod(1, 1), None);
    assert_eq!(reader.get_at_with_lod(0, 2), None);
    reader.set_len(7);
    assert_eq!(reader.len(), 2);
    let mut none = PcdFileReader::from_directories(vec![]);
    assert!(none.is_empty());
    assert_eq!(none.start(), None);
    assert_eq!(none.file_at(0), None);
}

#[test]
fn point_cloud_file_reader_by_type() {
    let mut reader = PointCloudFileReader::from_directory(
        listing(&["d/2.ply", "d/1.pcd", "d/1.ply", "d/3.ply"]),
        "ply",
    );
    assert_eq!(reader.len(), 3);
    assert!(!reader.is_empty());
    assert_eq!(reader.start(), Some("d/1.ply".to_string()));
    assert_eq!(reader.get_at(2), Some("d/3.ply".to_string()));
    assert_eq!(reader.get_at(3), None);
    let mut levels = PointCloudFileReader::from_directories(
        vec![listing(&["a/1.ply", "a/0.ply"]), listing(&["b/0.ply"])],
        "ply",
    );
    assert_eq!(levels.len(), 2);
    assert_eq!(levels.start(), Some("b/0.ply".to_string()));
    assert_eq!(levels.get_at_with_lod(1, 0), Some("a/1.ply".to_string()));
    let mut empty = PointCloudFileReader::from_directories(vec![], "ply");
    assert_eq!(empty.len(), 0);
    assert!(empty.is_empty());
    assert_eq!(empty.start(), None);
    let nothing = PointCloudFileReader::from_directory(listing(&["d/1.pcd"]), "ply");
    assert!(nothing.is_empty());
}

#[test]
fn memory_reader_hands_out_copies() {
    let first = PointCloud::new(1, vec![PointXyzRgba::new(1, 2, 3, 4, 5, 6, 7)]);
    let second = PointCloud::new(0, vec![]);
    let mut reader = PcdMemoryReader::from_vec(vec![first, second]);
    assert_eq!(reader.len(), 2);
    assert!(!reader.is_empty());
    let frame = reader.start().unwrap();
    assert_eq!(frame.points, vec![PointXyzRgba::new(1, 2, 3, 4, 5, 6, 7)]);
    assert_eq!(reader.get_at(1).unwrap().points.len(), 0);
    assert!(reader.get_at(2).is_none());
    assert_eq!(reader.get_at_with_lod(0, 9).unwrap().number_of_points, 1);
    reader.set_len(9);
    assert_eq!(reader.len(), 2);
    let mut empty = PcdMemoryReader::from_vec(vec![]);
    assert!(empty.is_empty());
    assert!(empty.start().is_none());
}
