use vivotk::formats::bounds::Bounds;
use vivotk::formats::pointxyzrgba::PointXyzRgba;
use vivotk::formats::PointCloud;
use vivotk::pipeline::subcommands::lodify::{frame_messages, Args as LodifyArgs, Lodifier};
use vivotk::pipeline::subcommands::midpoint::{Args as MidpointArgs, Midpoint};
use vivotk::pipeline::{decimal, PipelineMessage};
use vivotk::Error;

fn cloud(n: i32) -> PointCloud {
    let points: Vec<PointXyzRgba> = (0..n)
        .map(|k| PointXyzRgba::new(k % 10, (k / 10) % 10, k / 100, k as u8, 0, 0, 255))
        .collect();
    PointCloud::new(points.len(), points)
}

fn lodifier(partitions: (usize, usize, usize), proportions: Vec<usize>) -> Lodifier {
    Lodifier::from_args(LodifyArgs {
        x_partition: partitions.0,
        y_partition: partitions.1,
        z_partition: partitions.2,
        proportions,
        points_per_voxel_threshold: 10,
    })
}

fn names_of(messages: &[PipelineMessage]) -> Vec<String> {
    messages
        .iter()
        .filter_map(|m| match m {
            PipelineMessage::IndexedPointCloudWithName(_, _, name) => Some(name.clone()),
            _ => None,
        })
        .collect()
}

#[test]
fn decimal_digits() {
    assert_eq!(decimal(0), "0");
    assert_eq!(decimal(7), "7");
    assert_eq!(decimal(10), "10");
    assert_eq!(decimal(1234567890), "1234567890");
    assert_eq!(decimal(usize::MAX), usize::MAX.to_string());
}

#[test]
fn lodifier_from_args() {
    let stage = lodifier((2, 3, 4), vec![4, 1, 1]);
    assert_eq!(stage.partitions, (2, 3, 4));
    assert_eq!(stage.proportions, vec![4, 1, 1]);
    assert_eq!(stage.points_per_voxel_threshold, 10);
}

#[test]
fn messages_of_a_frame() {
    let base = PointCloud::new(1, vec![PointXyzRgba::new(0, 0, 0, 0, 0, 0, 0)]);
    let segments = vec![cloud(2), cloud(0), cloud(3)];
    let out = frame_messages(
        Bounds::new(0, 1, 0, 1, 0, 1),
        9,
        base,
        vec![1, 0, 0],
        segments,
        (3, 1, 1),
        vec![vec![1, 1], vec![0, 0], vec![2, 1]],
    );
    assert_eq!(out.len(), 5);
    assert_eq!(names_of(&out), vec!["base", "0", "1", "2"]);
    match &out[0] {
        PipelineMessage::IndexedPointCloudWithName(pc, i, _) => {
            assert_eq!(pc.points.len(), 1);
            assert_eq!(*i, 9);
        }
        _ => panic!("the base comes first"),
    }
    match &out[3] {
        PipelineMessage::IndexedPointCloudWithName(pc, i, name) => {
            assert_eq!(pc.points.len(), 3);
            assert_eq!(*i, 9);
            assert_eq!(name, "2");
        }
        _ => panic!("the segments follow the base"),
    }
    match &out[4] {
        PipelineMessage::MetaData(bound, base, levels, partitions, counts) => {
            assert_eq!(*bound, Bounds::new(0, 1, 0, 1, 0, 1));
            assert_eq!(base, &vec![1, 0, 0]);
            assert_eq!(*levels, 2);
            assert_eq!(*partitions, (3, 1, 1));
            assert_eq!(counts, &vec![vec![1, 1], vec![0, 0], vec![2, 1]]);
        }
        _ => panic!("the description comes last"),
    }
}

#[test]
fn lodifier_answers_a_frame() {
    let mut stage = lodifier((2, 2, 1), vec![2, 1, 1]);
    let out = stage
        .handle(vec![
            PipelineMessage::DummyForIncrement,
            PipelineMessage::IndexedPointCloud(cloud(300), 4),
            PipelineMessage::End,
        ])
        .unwrap();
    // the base, four segments, the description, the end
    assert_eq!(out.len(), 7);
    assert_eq!(names_of(&out), vec!["base", "0", "1", "2", "3"]);
    let mut total = 0;
    let mut segment_sizes = Vec::new();
    for message in &out[0..5] {
        match message {
            PipelineMessage::IndexedPointCloudWithName(pc, i, name) => {
                assert_eq!(*i, 4);
                total += pc.points.len();
                if name != "base" {
                    segment_sizes.push(pc.points.len());
                }
            }
            _ => panic!("a part of the frame was expected"),
        }
    }
    assert_eq!(total, 300);
    match &out[5] {
        PipelineMessage::MetaData(bound, base, levels, partitions, counts) => {
            assert_eq!(*bound, Bounds::new(0, 9, 0, 9, 0, 2));
            assert_eq!(base.len(), 4);
            assert_eq!(base.iter().sum::<usize>() + segment_sizes.iter().sum::<usize>(), 300);
            assert_eq!(*levels, 2);
            assert_eq!(*partitions, (2, 2, 1));
            let sums: Vec<usize> = counts.iter().map(|c| c.iter().sum()).collect();
            assert_eq!(sums, segment_sizes);
        }
        _ => panic!("the description was expected"),
    }
    assert!(matches!(out[6], PipelineMessage::End));
}

#[test]
fn lodifier_with_a_single_layer() {
    let mut stage = lodifier((2, 1, 1), vec![1]);
    let out = stage
        .handle(vec![PipelineMessage::IndexedPointCloud(cloud(20), 0)])
        .unwrap();
    assert_eq!(out.len(), 2);
    assert_eq!(names_of(&out), vec!["base"]);
    match &out[1] {
        PipelineMessage::MetaData(_, base, levels, _, counts) => {
            assert_eq!(base.iter().sum::<usize>(), 20);
            assert_eq!(*levels, 0);
            assert!(counts.is_empty());
        }
        _ => panic!("the description was expected"),
    }
}

#[test]
fn lodifier_rejects_frames() {
    let mut stage = lodifier((2, 2, 2), vec![2, 1]);
    assert_eq!(
        stage
            .handle(vec![
                PipelineMessage::IndexedPointCloud(cloud(30), 0),
                PipelineMessage::IndexedPointCloud(cloud(0), 1),
            ])
            .err(),
        Some(Error::EmptyInput)
    );
    let mut zero = lodifier((2, 0, 2), vec![2, 1]);
    assert_eq!(
        zero.handle(vec![PipelineMessage::IndexedPointCloud(cloud(30), 0)]).err(),
        Some(Error::InvalidPartition)
    );
    assert_eq!(
        zero.handle(vec![PipelineMessage::IndexedPointCloud(cloud(0), 0)]).err(),
        Some(Error::EmptyInput)
    );
    // without a frame there is nothing to reject
    let out = zero.handle(vec![PipelineMessage::End]).unwrap();
    assert_eq!(out.len(), 1);
    assert_eq!(
        stage.handle_frame(&cloud(0), 3).err(),
        Some(Error::EmptyInput)
    );
}

#[test]
fn midpoint_stage_collects_midpoints() {
    let mut stage = Midpoint::from_args(MidpointArgs { des: "midpoints.json".to_string() });
    assert_eq!(stage.des, "midpoints.json");
    let first = PointCloud::new(
        2,
        vec![PointXyzRgba::new(-1, 0, 2, 0, 0, 0, 0), PointXyzRgba::new(3, 4, -1, 0, 0, 0, 0)],
    );
    let out = stage
        .handle(vec![
            PipelineMessage::IndexedPointCloud(first, 0),
            PipelineMessage::DummyForIncrement,
            PipelineMessage::End,
            PipelineMessage::IndexedPointCloud(cloud(100), 1),
        ])
        .unwrap();
    assert_eq!(out.len(), 1);
    assert!(matches!(out[0], PipelineMessage::End));
    assert_eq!(stage.midpoints, vec![[2, 4, 1], [9, 9, 0]]);
    // a frame without points is rejected and nothing is kept
    let failed = stage.handle(vec![
        PipelineMessage::IndexedPointCloud(cloud(5), 2),
        PipelineMessage::IndexedPointCloud(cloud(0), 3),
    ]);
    assert_eq!(failed.err(), Some(Error::EmptyInput));
    assert_eq!(stage.midpoints.len(), 2);
}
