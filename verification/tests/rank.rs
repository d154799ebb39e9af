use jgrep::rank::rank_order;

#[test]
fn best_keys_first_and_ties_in_input_order() {
    let keys = vec![5u32, 9, 5, 1, 9];
    assert_eq!(rank_order(&keys, false, 10), vec![1, 4, 0, 2, 3]);
    assert_eq!(rank_order(&keys, true, 10), vec![3, 0, 2, 1, 4]);
    assert_eq!(rank_order(&keys, false, 2), vec![1, 4]);
    assert!(rank_order(&keys, false, 0).is_empty());
    assert!(rank_order(&Vec::new(), false, 3).is_empty());
}

#[test]
fn cutting_a_ranking_keeps_its_start() {
    let keys: Vec<u32> = (0..40u32).map(|i| (i * 7919) % 13).collect();
    let full = rank_order(&keys, false, keys.len());
    for limit in 0..=keys.len() {
        assert_eq!(rank_order(&keys, false, limit), full[..limit].to_vec());
    }
    let mut expected: Vec<usize> = (0..keys.len()).collect();
    expected.sort_by(|&a, &b| keys[b].cmp(&keys[a]));
    assert_eq!(full, expected);
}
