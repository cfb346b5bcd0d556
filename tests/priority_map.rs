use prux::cache::PriorityMap;

#[test]
fn test_capacity() {
    let mut map = PriorityMap::new(5, 5_000, 5_000);
    for i in 0..6 {
        map.insert(i, i);
    }
    assert_eq!(map.len(), 5);
}

#[test]
fn test_prune_order() {
    let mut map = PriorityMap::new(5, 5_000, 5_000);
    for i in 0..6 {
        map.insert(i, i);
    }
    assert_eq!(map.get_mut(&0), None);
    map.insert(1, 1);
    map.insert(6, 6);
    assert_eq!(map.get_mut(&1), Some(&mut 1));
    assert_eq!(map.get_mut(&2), None);
}

#[test]
fn test_prune_expired() {
    // Times are milliseconds; one second passes between the two later inserts.
    let mut map = PriorityMap::new_at(4, 2_000, 2_000, 0);
    for i in 0..3 {
        map.insert_at(i, i, 0);
    }
    map.insert_at(3, 3, 1_000);
    assert_eq!(map.len(), 4);
    map.insert_at(4, 4, 2_000);
    assert_eq!(map.len(), 2);
}

#[test]
fn capacity_five_drops_first_key() {
    let mut map = PriorityMap::new_at(5, 5_000, 5_000, 0);
    for i in 0..=5u128 {
        map.insert_at(i, i, 10);
        assert!(map.len() <= 5);
    }
    assert_eq!(map.len(), 5);
    assert!(!map.contains_key(&0));
    assert!(map.contains_key(&5));
}

#[test]
fn expired_entries_leave_on_sweep() {
    let mut map = PriorityMap::new_at(4, 2_000, 2_000, 0);
    for i in 0..3u128 {
        map.insert_at(i, i, 0);
    }
    map.insert_at(3, 3, 1_000);
    map.insert_at(4, 4, 2_000);
    assert!(!map.contains_key(&0));
    assert!(!map.contains_key(&1));
    assert!(!map.contains_key(&2));
    assert!(map.contains_key(&3));
    assert!(map.contains_key(&4));
}

#[test]
fn insert_then_get_returns_value() {
    let mut map = PriorityMap::new_at(3, 1_000, 1_000, 0);
    assert_eq!(map.insert_at(7, "seven".to_string(), 50), None);
    assert_eq!(map.get_at(&7, 50), Some(&"seven".to_string()));
    assert_eq!(map.get_at(&7, 1_050), Some(&"seven".to_string()));
    assert_eq!(map.insert_at(7, "again".to_string(), 60), Some("seven".to_string()));
    assert_eq!(map.get_at(&7, 60), Some(&"again".to_string()));
}

#[test]
fn stale_entry_is_not_returned() {
    let mut map = PriorityMap::new_at(3, 1_000, 10_000, 0);
    map.insert_at(1, 10, 100);
    map.insert_at(2, 20, 500);
    assert_eq!(map.get_at(&1, 1_101), None);
    assert_eq!(map.get_at(&2, 1_101), Some(&20));
    // still held until a sweep runs
    assert!(map.contains_key(&1));
}

#[test]
fn clock_going_back_counts_as_expired() {
    let mut map = PriorityMap::new_at(3, 1_000, 0, 0);
    map.insert_at(1, 10, 5_000);
    assert_eq!(map.get_at(&1, 4_000), None);
    map.insert_at(2, 20, 4_000);
    assert!(!map.contains_key(&1));
    assert_eq!(map.len(), 1);
}

#[test]
fn get_renews_an_entry() {
    let mut map = PriorityMap::new_at(2, 10_000, 10_000, 0);
    map.insert_at(1, 1, 0);
    map.insert_at(2, 2, 1);
    assert_eq!(map.get_at(&1, 2), Some(&1));
    map.insert_at(3, 3, 3);
    assert!(map.contains_key(&1));
    assert!(!map.contains_key(&2));
    assert_eq!(map.capacity(), 2);
}

#[test]
fn get_mut_changes_the_value() {
    let mut map = PriorityMap::new_at(2, 10_000, 10_000, 0);
    map.insert_at(1, 1, 0);
    if let Some(v) = map.get_mut_at(&1, 5) {
        *v = 42;
    }
    assert_eq!(map.get_at(&1, 6), Some(&42));
    assert_eq!(map.get_mut_at(&9, 6), None);
}

#[test]
fn sweep_drops_entries_stamped_in_the_future() {
    let mut map = PriorityMap::new_at(4, 1_000, 100, 0);
    map.insert_at(2, 20, 200);
    map.insert_at(1, 10, 500);
    assert!(map.contains_key(&1));
    assert!(map.contains_key(&2));
    // the clock now reads 300: entry 2 is fresh, entry 1 carries a later stamp
    map.check_prune_at(300);
    assert!(map.contains_key(&2));
    assert!(!map.contains_key(&1));
    assert_eq!(map.len(), 1);
    assert_eq!(map.get_at(&2, 300), Some(&20));
}
