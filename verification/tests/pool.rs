use workd::runtime::pool::{KeyedPodPool, PoolError, StackMap, MAX_POOL_SIZE};

#[test]
fn reserve_hands_out_fresh_keys() {
    let mut map: StackMap<u32> = StackMap::new();
    assert_eq!(map.reserve(), Ok(1));
    assert_eq!(map.reserve(), Ok(2));
    assert_eq!(map.reserve(), Ok(3));
}

#[test]
fn acquire_skips_deleted_and_reports_corruption() {
    let mut map: StackMap<u32> = StackMap::new();
    map.replace(4);
    map.replace(9);
    // No value is in the map: every key on the stack is dropped.
    assert_eq!(map.acquire_some(), Err(PoolError::SemaphoreCorruption));
    assert_eq!(map.acquire_some(), Err(PoolError::SemaphoreCorruption));
    assert!(matches!(map.delete(4), Err(PoolError::NotFound)));
    assert!(map.get(4).is_none());
}

#[test]
fn pool_error_messages() {
    assert_eq!(
        PoolError::PoolFull.message(),
        format!("Maximum pool size exceeded: {}", MAX_POOL_SIZE)
    );
    assert_eq!(MAX_POOL_SIZE, usize::MAX >> 3);
    assert_eq!(PoolError::SemaphoreCorruption.message(), "Semaphore corruption in pod poll");
    assert_eq!(PoolError::NotFound.message(), "Attempted to delete non-existent pod");
}

#[test]
fn keys_grow_across_other_calls() {
    let mut map: StackMap<u32> = StackMap::new();
    let first = map.reserve().unwrap();
    map.replace(first);
    assert_eq!(map.acquire_some(), Err(PoolError::SemaphoreCorruption));
    assert_eq!(map.delete(first), Err(PoolError::NotFound));
    let second = map.reserve().unwrap();
    assert!(first >= 1 && second > first);
}

#[test]
fn keyed_pool_waits_without_permits() {
    let mut pool: KeyedPodPool<u32> = KeyedPodPool::new();
    assert_eq!(pool.add_pod(), Ok(1));
    assert_eq!(pool.add_pod(), Ok(2));
    // No value was made idle, so no permit is free: runs and deletions wait.
    assert_eq!(pool.begin_run(), None);
    assert_eq!(pool.delete(1), None);
}
