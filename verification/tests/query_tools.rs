use grandma::query_tools::KnnQueryHeap;

fn bits(dists: &[f32]) -> Vec<u32> {
    dists.iter().map(|d| d.to_bits()).collect()
}

fn unpacked(heap: KnnQueryHeap) -> Vec<(f32, u64)> {
    heap.unpack().iter().map(|(d, i)| (f32::from_bits(*d), *i)).collect()
}

#[test]
fn new_heap_is_empty() {
    let heap = KnnQueryHeap::new(7, 1.3f32.to_bits());
    assert_eq!(heap.k(), 7);
    assert_eq!(f32::from_bits(heap.scale_base()), 1.3);
    assert_eq!(heap.len(), 0);
    assert_eq!(heap.node_len(), 0);
    assert!(heap.nodes().is_empty());
    assert_eq!(heap.unpack(), Vec::<(u32, u64)>::new());
}

#[test]
fn heap_keeps_the_k_nearest_in_order() {
    let mut heap = KnnQueryHeap::new(3, 2.0f32.to_bits());
    heap.push_outliers(&[10, 11, 12, 13, 14], &bits(&[5.0, 1.0, 4.0, 0.5, 3.0]));
    assert_eq!(heap.len(), 3);
    assert_eq!(unpacked(heap), vec![(0.5, 13), (1.0, 11), (3.0, 14)]);
}

#[test]
fn heap_keeps_all_when_there_is_room() {
    let mut heap = KnnQueryHeap::new(10, 2.0f32.to_bits());
    heap.push_outliers(&[1, 2, 3], &bits(&[0.3, 0.1, 0.2]));
    assert_eq!(heap.len(), 3);
    heap.push_outliers(&[4], &bits(&[0.15]));
    assert_eq!(heap.len(), 4);
    assert_eq!(unpacked(heap), vec![(0.1, 2), (0.15, 4), (0.2, 3), (0.3, 1)]);
}

#[test]
fn heap_breaks_ties_by_the_order_of_offers() {
    let mut heap = KnnQueryHeap::new(3, 2.0f32.to_bits());
    heap.push_outliers(&[1, 2, 3, 4], &bits(&[1.0, 1.0, 0.5, 1.0]));
    assert_eq!(unpacked(heap), vec![(0.5, 3), (1.0, 1), (1.0, 2)]);

    let mut heap = KnnQueryHeap::new(2, 2.0f32.to_bits());
    heap.push_outliers(&[1, 2], &bits(&[1.0, 1.0]));
    heap.push_outliers(&[3], &bits(&[1.0]));
    assert_eq!(unpacked(heap), vec![(1.0, 1), (1.0, 2)]);

    let mut heap = KnnQueryHeap::new(4, 2.0f32.to_bits());
    heap.push_outliers(&[1, 2, 3], &bits(&[0.0, -0.0, 0.0]));
    let kept: Vec<u64> = heap.unpack().iter().map(|(_, i)| *i).collect();
    assert_eq!(kept, vec![1, 2, 3]);
}

#[test]
fn heap_of_none_keeps_nothing() {
    let mut heap = KnnQueryHeap::new(0, 2.0f32.to_bits());
    heap.push_outliers(&[1, 2, 3], &bits(&[0.3, 0.1, 0.2]));
    assert_eq!(heap.len(), 0);
    assert_eq!(heap.unpack(), Vec::<(u32, u64)>::new());
}

#[test]
fn heap_reads_lists_as_far_as_both_reach() {
    let mut heap = KnnQueryHeap::new(5, 2.0f32.to_bits());
    heap.push_outliers(&[1, 2, 3], &bits(&[0.3, 0.1]));
    assert_eq!(heap.len(), 2);
    heap.push_outliers(&[4], &bits(&[0.2, 0.0, 0.0]));
    assert_eq!(heap.len(), 3);
    heap.push_nodes(&[(0, 1), (0, 2)], &bits(&[1.0]), None);
    assert_eq!(heap.node_len(), 1);
    heap.push_nodes(&[(0, 3)], &bits(&[2.0, 3.0]), None);
    assert_eq!(heap.node_len(), 2);
    assert_eq!(unpacked(heap), vec![(0.1, 2), (0.2, 4), (0.3, 1)]);
}

#[test]
fn heap_puts_what_is_no_number_last() {
    let mut heap = KnnQueryHeap::new(3, 2.0f32.to_bits());
    heap.push_outliers(&[1, 2, 3, 4], &bits(&[f32::NAN, f32::INFINITY, 1.0, -1.0]));
    let kept: Vec<u64> = heap.unpack().iter().map(|(_, i)| *i).collect();
    assert_eq!(kept, vec![4, 3, 2]);
    let mut heap = KnnQueryHeap::new(4, 2.0f32.to_bits());
    heap.push_outliers(&[1, 2, 3, 4], &bits(&[f32::NAN, f32::INFINITY, -f32::NAN, -1.0]));
    let kept: Vec<u64> = heap.unpack().iter().map(|(_, i)| *i).collect();
    assert_eq!(kept, vec![4, 2, 1, 3]);
}

#[test]
fn heap_matches_a_stable_sort() {
    for round in 0..200 {
        let count = round % 23;
        let k = (round * 7) % 17;
        let indexes: Vec<u64> = (0..count as u64).collect();
        let dists: Vec<f32> = (0..count).map(|_| (rand::random::<u32>() % 8) as f32 * 0.25).collect();
        let mut expected: Vec<(f32, u64)> = dists.iter().cloned().zip(indexes.iter().cloned()).collect();
        expected.sort_by(|a, b| a.0.partial_cmp(&b.0).unwrap());
        expected.truncate(k);
        let mut heap = KnnQueryHeap::new(k, 2.0f32.to_bits());
        let half = count / 2;
        heap.push_outliers(&indexes[..half], &bits(&dists[..half]));
        heap.push_outliers(&indexes[half..], &bits(&dists[half..]));
        assert_eq!(unpacked(heap), expected);
    }
}

#[test]
fn nodes_wait_in_the_order_offered() {
    let mut heap = KnnQueryHeap::new(3, 2.0f32.to_bits());
    heap.push_nodes(&[(2, 5)], &bits(&[9.0]), None);
    heap.push_nodes(&[(1, 6), (1, 7)], &bits(&[1.0, 4.0]), Some((2, 5)));
    assert_eq!(heap.node_len(), 3);
    assert_eq!(heap.len(), 0);
    let queued: Vec<((i32, u64), f32, Option<(i32, u64)>)> = heap
        .nodes()
        .iter()
        .map(|n| (n.address, f32::from_bits(n.dist_to_center), n.parent))
        .collect();
    assert_eq!(
        queued,
        vec![((2, 5), 9.0, None), ((1, 6), 1.0, Some((2, 5))), ((1, 7), 4.0, Some((2, 5)))]
    );
}
