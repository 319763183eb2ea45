use graph_challenge::atomic::{mem_order, std_order, AtomicLockGuard, AtomicMutex, AtomicSemaphoreGuard, MemOrder};
use std::sync::atomic::{AtomicBool, AtomicU64, Ordering};

#[test]
fn test_atomic_lock_smoke() {
    let lock = AtomicBool::new(false);
    {
        let _guard = AtomicLockGuard::try_lock(&lock).unwrap();
        assert!(lock.load(Ordering::Relaxed));
    }
    assert!(!lock.load(Ordering::Relaxed));
}

#[test]
fn test_atomic_semaphore_guard_smoke() {
    let lock = AtomicU64::new(0);
    {
        let _guard1 = AtomicSemaphoreGuard::increment(&lock, Ordering::Relaxed, Ordering::Relaxed);
        assert_eq!(lock.load(Ordering::Relaxed), 1);
        {
            let _guard2 = AtomicSemaphoreGuard::increment(&lock, Ordering::Relaxed, Ordering::Relaxed);
            assert_eq!(lock.load(Ordering::Relaxed), 2);
        }
        assert_eq!(lock.load(Ordering::Relaxed), 1);
    }
    assert_eq!(lock.load(Ordering::Relaxed), 0);
}

#[test]
fn lock_attempt_fails_while_held() {
    let lock = AtomicBool::new(false);
    let guard = AtomicLockGuard::try_lock(&lock).unwrap();
    assert!(AtomicLockGuard::try_lock(&lock).is_none());
    drop(guard);
    assert!(AtomicLockGuard::try_lock(&lock).is_some());
}

#[test]
fn lock_attempt_fails_on_a_set_flag() {
    let lock = AtomicBool::new(true);
    assert!(AtomicLockGuard::try_lock(&lock).is_none());
    assert!(lock.load(Ordering::Relaxed));
}

#[test]
fn semaphore_guard_with_release_ordering() {
    let counter = AtomicU64::new(5);
    {
        let _g = AtomicSemaphoreGuard::increment(&counter, Ordering::SeqCst, Ordering::Release);
        assert_eq!(counter.load(Ordering::SeqCst), 6);
    }
    assert_eq!(counter.load(Ordering::SeqCst), 5);
}

#[test]
fn forgotten_semaphore_guard_keeps_count() {
    let counter = AtomicU64::new(0);
    let g = AtomicSemaphoreGuard::increment(&counter, Ordering::Relaxed, Ordering::Relaxed);
    std::mem::forget(g);
    assert_eq!(counter.load(Ordering::Relaxed), 1);
}

#[test]
fn mutex_try_lock_and_value_access() {
    let m = AtomicMutex::new(vec![1u32, 2]);
    {
        let mut g = m.try_lock().unwrap();
        assert!(m.try_lock().is_none());
        g.get_mut().push(3);
        assert_eq!(g.get(), &vec![1, 2, 3]);
    }
    let g = m.try_lock().unwrap();
    assert_eq!(g.get(), &vec![1, 2, 3]);
}

#[test]
fn orderings_round_trip() {
    for o in [Ordering::Relaxed, Ordering::Release, Ordering::Acquire, Ordering::AcqRel, Ordering::SeqCst] {
        assert_eq!(std_order(mem_order(o)), o);
    }
    assert_eq!(mem_order(Ordering::AcqRel), MemOrder::AcqRel);
}
