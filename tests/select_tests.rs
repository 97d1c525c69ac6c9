use vemcache::select::select_smallest;

#[test]
fn smallest_come_first_in_order() {
    let keys: Vec<u32> = vec![50, 10, 40, 20, 30];
    assert_eq!(select_smallest(&keys, 3), vec![1, 3, 4]);
}

#[test]
fn equal_keys_keep_earlier_position_first() {
    let keys: Vec<u32> = vec![7, 3, 7, 3];
    assert_eq!(select_smallest(&keys, 4), vec![1, 3, 0, 2]);
}

#[test]
fn asking_for_more_than_there_are_gives_all() {
    let keys: Vec<u32> = vec![9, 1];
    assert_eq!(select_smallest(&keys, 10), vec![1, 0]);
}

#[test]
fn zero_or_empty_gives_nothing() {
    let keys: Vec<u32> = vec![4, 2];
    assert_eq!(select_smallest(&keys, 0), Vec::<usize>::new());
    assert_eq!(select_smallest(&Vec::new(), 3), Vec::<usize>::new());
}

#[test]
fn largest_key_values() {
    let keys: Vec<u32> = vec![u32::MAX, 0, u32::MAX - 1];
    assert_eq!(select_smallest(&keys, 2), vec![1, 2]);
}
