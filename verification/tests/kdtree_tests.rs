use vivotk::materials::spatial::{distance, Metric, SpatialIndex};

fn positions() -> Vec<[i32; 3]> {
    let mut all = Vec::new();
    let mut seed: u32 = 12345;
    for _ in 0..300 {
        let mut p = [0i32; 3];
        for c in p.iter_mut() {
            seed = seed.wrapping_mul(1103515245).wrapping_add(12345);
            *c = ((seed >> 16) % 41) as i32 - 20;
        }
        all.push(p);
    }
    all
}

fn as_floats(p: &[i32; 3]) -> [f32; 3] {
    [p[0] as f32, p[1] as f32, p[2] as f32]
}

fn float_inf_norm(a: &[f32; 3], b: &[f32; 3]) -> f32 {
    let dx = (a[0] - b[0]).abs();
    let dy = (a[1] - b[1]).abs();
    let dz = (a[2] - b[2]).abs();
    dx.max(dy).max(dz)
}

fn float_squared_euclidean(a: &[f32; 3], b: &[f32; 3]) -> f32 {
    let dx = a[0] - b[0];
    let dy = a[1] - b[1];
    let dz = a[2] - b[2];
    dx * dx + dy * dy + dz * dz
}

#[test]
fn radius_queries_agree_with_a_kd_tree() {
    let all = positions();
    let mut index = SpatialIndex::new();
    let mut tree: kiddo::KdTree<f32, usize, 3> = kiddo::KdTree::with_capacity(64).unwrap();
    for (k, p) in all.iter().enumerate() {
        index.add(p, k);
        tree.add(&as_floats(p), k).unwrap();
    }
    for query in [[0, 0, 0], [5, -7, 11], [-20, 20, 0], [100, 100, 100]] {
        for radius in [0u32, 1, 2, 5, 13, 60] {
            let mut ours: Vec<(u128, usize)> =
                index.within_unsorted(&query, radius as u128, Metric::InfinityNorm);
            let mut theirs: Vec<(u128, usize)> = tree
                .within_unsorted(&as_floats(&query), radius as f32, &float_inf_norm)
                .unwrap()
                .into_iter()
                .map(|(d, k)| (d as u128, *k))
                .collect();
            ours.sort();
            theirs.sort();
            assert_eq!(ours, theirs);

            let squared = (radius as u128) * (radius as u128);
            let mut ours: Vec<(u128, usize)> =
                index.within_unsorted(&query, squared, Metric::SquaredEuclidean);
            let mut theirs: Vec<(u128, usize)> = tree
                .within_unsorted(&as_floats(&query), squared as f32, &float_squared_euclidean)
                .unwrap()
                .into_iter()
                .map(|(d, k)| (d as u128, *k))
                .collect();
            ours.sort();
            theirs.sort();
            assert_eq!(ours, theirs);
        }
    }
}

#[test]
fn nearest_queries_agree_with_a_kd_tree() {
    let all = positions();
    let mut index = SpatialIndex::new();
    let mut tree = kdtree::KdTree::new(3);
    for (k, p) in all.iter().enumerate() {
        index.add(p, k);
        tree.add(as_floats(p), k).unwrap();
    }
    for query in [[0, 0, 0], [5, -7, 11], [-20, 20, 0], [100, 100, 100]] {
        for k in [1usize, 4, 17, 300, 400] {
            let ours: Vec<u128> = index
                .nearest(&query, k, Metric::SquaredEuclidean)
                .into_iter()
                .map(|(d, _)| d)
                .collect();
            let theirs: Vec<u128> = tree
                .nearest(&as_floats(&query), k, &kdtree::distance::squared_euclidean)
                .unwrap()
                .into_iter()
                .map(|(d, _)| d as u128)
                .collect();
            // the distances agree; which of several equally distant points
            // is found is up to each index
            assert_eq!(ours, theirs);
            for (d, payload) in index.nearest(&query, k, Metric::SquaredEuclidean) {
                assert_eq!(d, distance(Metric::SquaredEuclidean, &query, &all[payload]));
            }
        }
    }
}
