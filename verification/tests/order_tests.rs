use svd_project::order::stable_descending_order;

#[test]
fn empty_keys_have_an_empty_order() {
    assert_eq!(stable_descending_order(&vec![]), Vec::<usize>::new());
}

#[test]
fn single_key_is_its_own_order() {
    assert_eq!(stable_descending_order(&vec![7]), vec![0]);
}

#[test]
fn largest_key_comes_first() {
    assert_eq!(stable_descending_order(&vec![1, 3, 2]), vec![1, 2, 0]);
    assert_eq!(stable_descending_order(&vec![10, 20, 30, 40]), vec![3, 2, 1, 0]);
}

#[test]
fn descending_keys_keep_their_places() {
    assert_eq!(stable_descending_order(&vec![9, 7, 7, 3, 0]), vec![0, 1, 2, 3, 4]);
}

#[test]
fn equal_keys_stay_in_the_order_in_which_they_came() {
    assert_eq!(stable_descending_order(&vec![5, 8, 5, 8, 5]), vec![1, 3, 0, 2, 4]);
    assert_eq!(stable_descending_order(&vec![2, 2, 2]), vec![0, 1, 2]);
}

#[test]
fn order_names_every_position_once() {
    let keys: Vec<u64> = vec![4, 1, 4, 9, 0, 9, 3, u64::MAX, 0];
    let order = stable_descending_order(&keys);
    let mut seen = vec![false; keys.len()];
    for &p in &order {
        assert!(!seen[p]);
        seen[p] = true;
    }
    assert!(seen.iter().all(|&s| s));
    for w in order.windows(2) {
        assert!(keys[w[0]] > keys[w[1]] || (keys[w[0]] == keys[w[1]] && w[0] < w[1]));
    }
}
