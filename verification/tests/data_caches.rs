use grandma::data_caches::{find_split, CoveredData, UncoveredData};
use grandma::distance::NEG_INFINITY;

/// The distance between two points on a line, as the L2 metric measures it.
fn line_distance(x: f32, y: f32) -> f32 {
    ((x - y) * (x - y)).sqrt()
}

/// The bits of the distances from the point `center` to the points `indexes`.
fn distances_from(data: &[f32], center: u64, indexes: &[u64]) -> Vec<u32> {
    indexes
        .iter()
        .map(|i| line_distance(data[center as usize], data[*i as usize]).to_bits())
        .collect()
}

/// Nineteen points at 3.0 or above, then one at 0.0.
fn clustered_points() -> Vec<f32> {
    let mut data = Vec::with_capacity(20);
    for _i in 0..19 {
        data.push(rand::random::<f32>() + 3.0);
    }
    data.push(0.0);
    data
}

/// The covered set of the root: the last point is the center and all others
/// are covered, each with its distance.
fn root_cover(data: &[f32]) -> CoveredData {
    let mut pool = UncoveredData::new((0..data.len() as u64).collect());
    let center = pool.last_center();
    let coverage = pool.to_indexes();
    let dists = distances_from(data, center, &coverage);
    CoveredData::new(center, coverage, dists)
}

#[test]
fn splits_correctly_1() {
    let data = clustered_points();
    let cache = root_cover(&data);
    let (close, far) = cache.split(1.0f32.to_bits()).unwrap();

    assert_eq!(1, close.len());
    assert_eq!(19, far.len());
}

#[test]
fn uncovered_splits_correctly_1() {
    let data = clustered_points();
    let mut cache = UncoveredData::new((0..19 as u64).collect());
    let center = cache.pick_center();
    let dists = distances_from(&data, center, cache.indexes());
    let close = cache.cover(center, &dists, 1.0f32.to_bits());

    assert!(!close.coverage().contains(&close.center_index()));
    assert!(!cache.indexes().contains(&close.center_index()));
    for i in close.coverage() {
        assert!(!cache.indexes().contains(i));
    }
    for i in cache.indexes() {
        assert!(!close.coverage().contains(i));
    }
}

#[test]
fn correct_dists() {
    let data = clustered_points();
    let cache = root_cover(&data);

    let thresh: f32 = 0.5;
    let mut true_close: Vec<u64> = Vec::new();
    let mut true_far: Vec<u64> = Vec::new();
    for i in 0..19 {
        if data[i] < thresh {
            true_close.push(i as u64);
        } else {
            true_far.push(i as u64);
        }
        let dist = f32::from_bits(cache.dists()[i]);
        assert!((data[i] - dist).abs() < 1.0e-6);
    }
    let (close, _far) = cache.split(thresh.to_bits()).unwrap();

    for (tc, c) in true_close.iter().zip(close.to_indexes()) {
        assert_eq!(*tc, c);
    }
}

#[test]
fn root_takes_the_last_point_as_center() {
    let data = vec![5.0f32, 1.0, 3.0, 2.0];
    let cache = root_cover(&data);
    assert_eq!(cache.center_index(), 3);
    assert_eq!(cache.coverage(), &[0, 1, 2]);
    assert_eq!(cache.len(), 4);
    let dists: Vec<f32> = cache.dists().iter().map(|b| f32::from_bits(*b)).collect();
    assert_eq!(dists, vec![3.0, 1.0, 1.0]);
}

#[test]
fn split_keeps_order_and_center() {
    let dists: Vec<u32> = [4.0f32, 0.5, 2.0, 0.25, 9.0, 1.5].iter().map(|d| d.to_bits()).collect();
    let cache = CoveredData::new(77, vec![10, 11, 12, 13, 14, 15], dists);
    let (close, far) = cache.split(2.0f32.to_bits()).unwrap();
    assert_eq!(close.center_index(), 77);
    assert_eq!(close.coverage(), &[11, 13, 15]);
    let kept: Vec<f32> = close.dists().iter().map(|b| f32::from_bits(*b)).collect();
    assert_eq!(kept, vec![0.5, 0.25, 1.5]);
    assert_eq!(far.indexes(), &[10, 12, 14]);
    assert_eq!(close.len(), 4);
    assert_eq!(far.len(), 3);
}

#[test]
fn split_sends_the_boundary_to_far() {
    let dists: Vec<u32> = [1.0f32, 0.99999994, 1.0000001].iter().map(|d| d.to_bits()).collect();
    let cache = CoveredData::new(0, vec![1, 2, 3], dists);
    let (close, far) = cache.split(1.0f32.to_bits()).unwrap();
    assert_eq!(close.to_indexes(), vec![2]);
    assert_eq!(far.to_indexes(), vec![1, 3]);
}

#[test]
fn split_at_zero_or_below_covers_nothing() {
    for thresh in [0.0f32, -0.0, -1.0, f32::NEG_INFINITY] {
        let dists: Vec<u32> = [0.0f32, 0.5, 3.0].iter().map(|d| d.to_bits()).collect();
        let cache = CoveredData::new(9, vec![1, 2, 3], dists);
        let (close, far) = cache.split(thresh.to_bits()).unwrap();
        assert_eq!(close.len(), 1);
        assert_eq!(far.to_indexes(), vec![1, 2, 3]);
    }
}

#[test]
fn split_sends_what_is_no_number_to_far() {
    let dists: Vec<u32> = [f32::NAN, 0.5, -f32::NAN].iter().map(|d| d.to_bits()).collect();
    let cache = CoveredData::new(9, vec![1, 2, 3], dists.clone());
    let (close, far) = cache.split(1.0f32.to_bits()).unwrap();
    assert_eq!(close.to_indexes(), vec![2]);
    assert_eq!(far.to_indexes(), vec![1, 3]);

    let cache = CoveredData::new(9, vec![1, 2, 3], dists);
    let (close, far) = cache.split(f32::NAN.to_bits()).unwrap();
    assert_eq!(close.to_indexes(), Vec::<u64>::new());
    assert_eq!(far.to_indexes(), vec![1, 2, 3]);
}

#[test]
fn split_of_an_empty_cover() {
    let cache = CoveredData::new(4, Vec::new(), Vec::new());
    assert_eq!(cache.len(), 1);
    let (close, far) = cache.split(1.0f32.to_bits()).unwrap();
    assert_eq!(close.len(), 1);
    assert_eq!(close.center_index(), 4);
    assert_eq!(far.len(), 0);
}

#[test]
fn pick_center_removes_one_member() {
    for _round in 0..50 {
        let members: Vec<u64> = vec![3, 9, 27, 81, 243];
        let mut pool = UncoveredData::new(members.clone());
        let center = pool.pick_center();
        assert!(members.contains(&center));
        assert_eq!(pool.len(), 4);
        let expected: Vec<u64> = members.iter().cloned().filter(|m| *m != center).collect();
        assert_eq!(pool.indexes(), &expected[..]);
    }
}

#[test]
fn pick_center_reaches_every_member() {
    let mut seen = [false; 4];
    for _round in 0..400 {
        let mut pool = UncoveredData::new(vec![0, 1, 2, 3]);
        seen[pool.pick_center() as usize] = true;
    }
    assert_eq!(seen, [true; 4]);
}

#[test]
fn pick_center_of_a_single_member_leaves_nothing() {
    let mut pool = UncoveredData::new(vec![42]);
    let center = pool.pick_center();
    assert_eq!(center, 42);
    assert_eq!(pool.len(), 0);
    let close = pool.cover(center, &[], 1.0f32.to_bits());
    assert_eq!(close.center_index(), 42);
    assert_eq!(close.len(), 1);
    assert_eq!(pool.len(), 0);
}

#[test]
fn cover_divides_the_pool() {
    let mut pool = UncoveredData::new(vec![10, 20, 30, 40, 50]);
    let dists: Vec<u32> = [0.1f32, 1.0, 0.2, 7.0, 0.999].iter().map(|d| d.to_bits()).collect();
    let close = pool.cover(99, &dists, 1.0f32.to_bits());
    assert_eq!(close.center_index(), 99);
    assert_eq!(close.coverage(), &[10, 30, 50]);
    let kept: Vec<f32> = close.dists().iter().map(|b| f32::from_bits(*b)).collect();
    assert_eq!(kept, vec![0.1, 0.2, 0.999]);
    assert_eq!(pool.indexes(), &[20, 40]);
    assert_eq!(close.len() - 1 + pool.len(), 5);
}

#[test]
fn last_center_takes_the_last_member() {
    let mut pool = UncoveredData::new(vec![7, 8, 9]);
    assert_eq!(pool.last_center(), 9);
    assert_eq!(pool.clone().to_indexes(), vec![7, 8]);
    assert_eq!(pool.last_center(), 8);
    assert_eq!(pool.last_center(), 7);
    assert_eq!(pool.len(), 0);
}

#[test]
fn max_distance_is_the_largest() {
    let dists: Vec<u32> = [0.5f32, 3.25, 1.0, 3.0].iter().map(|d| d.to_bits()).collect();
    let cache = CoveredData::new(0, vec![1, 2, 3, 4], dists);
    assert_eq!(f32::from_bits(cache.max_distance()), 3.25);
    let same = cache.clone();
    assert_eq!(same.coverage(), cache.coverage());
    assert_eq!(same.dists(), cache.dists());
}

#[test]
fn max_distance_of_nothing_is_negative_infinity() {
    let cache = CoveredData::new(0, Vec::new(), Vec::new());
    assert_eq!(cache.max_distance(), NEG_INFINITY);
    assert_eq!(f32::from_bits(cache.max_distance()), f32::NEG_INFINITY);
}

#[test]
fn max_distance_passes_over_what_is_no_number() {
    let dists: Vec<u32> = [f32::NAN, 2.0, f32::NAN, 1.0].iter().map(|d| d.to_bits()).collect();
    let cache = CoveredData::new(0, vec![1, 2, 3, 4], dists);
    assert_eq!(f32::from_bits(cache.max_distance()), 2.0);
    let dists: Vec<u32> = vec![f32::NAN.to_bits()];
    let cache = CoveredData::new(0, vec![1], dists);
    assert_eq!(f32::from_bits(cache.max_distance()), f32::NEG_INFINITY);
}

#[test]
fn max_distance_agrees_with_the_fold_of_floats() {
    for _round in 0..100 {
        let floats: Vec<f32> = (0..17).map(|_| rand::random::<f32>() * 10.0 - 2.0).collect();
        let expected = floats.iter().cloned().fold(f32::NEG_INFINITY, f32::max);
        let dists: Vec<u32> = floats.iter().map(|d| d.to_bits()).collect();
        let cache = CoveredData::new(0, (0..17).collect(), dists);
        assert_eq!(f32::from_bits(cache.max_distance()), expected);
    }
}

fn sorted_pairs(dists: &[f32]) -> Vec<(u32, usize)> {
    dists.iter().enumerate().map(|(i, d)| (d.to_bits(), i)).collect()
}

#[test]
fn find_split_between_two_distances() {
    let pairs = sorted_pairs(&[0.1, 0.2, 0.4, 0.7, 0.9]);
    assert_eq!(find_split(&pairs, 0.5f32.to_bits()), 3);
    assert_eq!(find_split(&pairs, 0.15f32.to_bits()), 1);
    assert_eq!(find_split(&pairs, 0.05f32.to_bits()), 0);
    assert_eq!(find_split(&pairs, 2.0f32.to_bits()), 5);
}

#[test]
fn find_split_on_a_distance_that_occurs() {
    let pairs = sorted_pairs(&[0.1, 0.2, 0.4, 0.7, 0.9]);
    assert_eq!(find_split(&pairs, 0.4f32.to_bits()), 2);
    assert_eq!(find_split(&pairs, 0.1f32.to_bits()), 0);
    assert_eq!(find_split(&pairs, 0.9f32.to_bits()), 4);
    let one = sorted_pairs(&[0.3]);
    assert_eq!(find_split(&one, 0.3f32.to_bits()), 0);
    assert_eq!(find_split(&one, 0.2f32.to_bits()), 0);
    assert_eq!(find_split(&one, 0.4f32.to_bits()), 1);
}

#[test]
fn find_split_divides_random_sorted_distances() {
    for _round in 0..100 {
        let mut floats: Vec<f32> = (0..200).map(|_| rand::random::<f32>()).collect();
        floats.sort_by(|a, b| a.partial_cmp(b).unwrap());
        let pairs = sorted_pairs(&floats);
        let thresh: f32 = 0.5;
        let split = find_split(&pairs, thresh.to_bits());
        assert!(split <= pairs.len());
        for (d, _) in &pairs[..split] {
            assert!(f32::from_bits(*d) <= thresh);
        }
        for (d, _) in &pairs[split..] {
            assert!(f32::from_bits(*d) >= thresh);
        }
    }
}
