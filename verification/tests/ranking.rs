use skeg_rigging::ranking::{float_order_key, rank_by_similarity, top_k_indices};

#[test]
fn top_k_is_stable_descending_prefix() {
    let keys = vec![3i64, 7, 3, 9, 7];
    assert_eq!(top_k_indices(&keys, 10), vec![3, 1, 4, 0, 2]);
    assert_eq!(top_k_indices(&keys, 2), vec![3, 1]);
    assert_eq!(top_k_indices(&keys, 0), Vec::<usize>::new());
    assert_eq!(top_k_indices(&Vec::new(), 3), Vec::<usize>::new());
}

#[test]
fn float_keys_order_like_floats() {
    let xs = [-3.5f32, -1.0, -0.0, 0.0, 1e-30, 0.5, 1.0, 2.0];
    for w in xs.windows(2) {
        let (a, b) = (float_order_key(w[0].to_bits()), float_order_key(w[1].to_bits()));
        if w[0] == w[1] {
            assert_eq!(a, b);
        } else {
            assert!(a < b, "{} vs {}", w[0], w[1]);
        }
    }
}

#[test]
fn rank_by_similarity_matches_stable_sort() {
    let sims = [0.2f32, 0.9, -0.5, 0.9, 0.0, -0.0];
    let bits: Vec<u32> = sims.iter().map(|s| s.to_bits()).collect();
    let mut expect: Vec<usize> = (0..sims.len()).collect();
    expect.sort_by(|a, b| sims[*b].partial_cmp(&sims[*a]).unwrap());
    expect.truncate(4);
    assert_eq!(rank_by_similarity(&bits, 4), expect);
    assert_eq!(rank_by_similarity(&bits, 4), vec![1, 3, 0, 4]);
}
