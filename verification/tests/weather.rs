use airq::weather::{cleanup_cache, group_by_cell, GridCache, CACHE_TTL_NANOS, CACHE_TTL_SECS};

const SEC: u64 = 1_000_000_000;

#[test]
fn ttl_is_five_minutes() {
    assert_eq!(CACHE_TTL_SECS, 300);
    assert_eq!(CACHE_TTL_NANOS, 300 * SEC);
}

#[test]
fn fresh_reading_is_served_until_it_expires() {
    let mut cache: GridCache<u32> = GridCache::new();
    assert_eq!(cache.get_fresh((1, 2), 1000 * SEC), None);
    cache.insert((1, 2), 1000 * SEC, 7);
    assert_eq!(cache.get_fresh((1, 2), 1000 * SEC), Some(&7));
    assert_eq!(cache.get_fresh((1, 2), 1000 * SEC + CACHE_TTL_NANOS - 1), Some(&7));
    assert_eq!(cache.get_fresh((1, 2), 1000 * SEC + CACHE_TTL_NANOS), None);
    assert_eq!(cache.get_fresh((2, 1), 1000 * SEC), None);
    // A reading stamped ahead of the time asked about counts as age 0.
    assert_eq!(cache.get_fresh((1, 2), 10), Some(&7));
}

#[test]
fn insert_replaces_the_cell() {
    let mut cache: GridCache<u32> = GridCache::new();
    cache.insert((5, 5), 100 * SEC, 1);
    cache.insert((5, 6), 100 * SEC, 2);
    cache.insert((5, 5), 200 * SEC, 3);
    assert_eq!(cache.get_fresh((5, 5), 200 * SEC), Some(&3));
    assert_eq!(cache.get_fresh((5, 6), 200 * SEC), Some(&2));
}

#[test]
fn cleanup_drops_only_stale_readings() {
    let mut cache: GridCache<u32> = GridCache::new();
    cache.insert((0, 0), 1000 * SEC, 1);
    cache.insert((0, 1), 1290 * SEC, 2);
    cache.cleanup_at(1300 * SEC - 1);
    assert_eq!(cache.get_fresh((0, 0), 1300 * SEC - 1), Some(&1));
    cache.cleanup_at(1300 * SEC);
    assert_eq!(cache.get_fresh((0, 0), 1000 * SEC), None);
    assert_eq!(cache.get_fresh((0, 1), 1300 * SEC), Some(&2));
}

#[test]
fn the_cache_clock_runs_forward() {
    let cache: GridCache<u32> = GridCache::new();
    let a = cache.now_stamp();
    let b = cache.now_stamp();
    assert!(a <= b);
    assert!(b < CACHE_TTL_NANOS);
}

#[test]
fn cleanup_with_the_clock_keeps_recent_readings() {
    let mut cache: GridCache<u32> = GridCache::new();
    let now = cache.now_stamp();
    cache.insert((3, 4), now, 9);
    cleanup_cache(&mut cache);
    assert_eq!(cache.get_fresh((3, 4), cache.now_stamp()), Some(&9));
    assert_eq!(cache.get_fresh((3, 4), now + CACHE_TTL_NANOS), None);
}

#[test]
fn sensors_are_grouped_by_cell() {
    let groups = group_by_cell(&vec![(1, (10, 20)), (2, (11, 20)), (3, (10, 20)), (4, (11, 20)), (5, (0, 0))]);
    assert_eq!(groups.len(), 3);
    assert_eq!(groups[0], ((10, 20), vec![1, 3]));
    assert_eq!(groups[1], ((11, 20), vec![2, 4]));
    assert_eq!(groups[2], ((0, 0), vec![5]));
    assert!(group_by_cell(&vec![]).is_empty());
}
