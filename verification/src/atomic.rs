use std::sync::atomic::{AtomicBool, AtomicU64, Ordering};
use std::sync::{Mutex, MutexGuard, TryLockError};
use vstd::prelude::*;

verus! {

/// `std::sync::Mutex`, the storage that keeps the value of an [`AtomicMutex`].
#[verifier::external_type_specification]
#[verifier::external_body]
#[verifier::reject_recursive_types(T)]
pub struct ExStdMutex<T: ?Sized>(Mutex<T>);

/// `std::sync::MutexGuard`, the access to the storage of an [`AtomicMutex`].
#[verifier::external_type_specification]
#[verifier::external_body]
#[verifier::reject_recursive_types(T)]
pub struct ExStdMutexGuard<'a, T: ?Sized + 'a>(MutexGuard<'a, T>);

/// A memory ordering of an atomic operation, kept where a value of
/// `std::sync::atomic::Ordering` cannot stand (in a field).
#[derive(Clone, Copy, Debug, PartialEq, Eq, Structural)]
pub enum MemOrder {
    Relaxed,
    Release,
    Acquire,
    AcqRel,
    SeqCst,
}

/// The ordering that a `std::sync::atomic::Ordering` names.
pub open spec fn order_as_mem(o: Ordering) -> MemOrder {
    match o {
        Ordering::Relaxed => MemOrder::Relaxed,
        Ordering::Release => MemOrder::Release,
        Ordering::Acquire => MemOrder::Acquire,
        Ordering::AcqRel => MemOrder::AcqRel,
        _ => MemOrder::SeqCst,
    }
}

/// Records an ordering as a [`MemOrder`].
pub fn mem_order(o: Ordering) -> (m: MemOrder)
    ensures
        m == order_as_mem(o),
{
    match o {
        Ordering::Relaxed => MemOrder::Relaxed,
        Ordering::Release => MemOrder::Release,
        Ordering::Acquire => MemOrder::Acquire,
        Ordering::AcqRel => MemOrder::AcqRel,
        _ => MemOrder::SeqCst,
    }
}

/// The `std::sync::atomic::Ordering` that a [`MemOrder`] stands for.
pub open spec fn mem_as_order(m: MemOrder) -> Ordering {
    match m {
        MemOrder::Relaxed => Ordering::Relaxed,
        MemOrder::Release => Ordering::Release,
        MemOrder::Acquire => Ordering::Acquire,
        MemOrder::AcqRel => Ordering::AcqRel,
        MemOrder::SeqCst => Ordering::SeqCst,
    }
}

/// Gives back the `std::sync::atomic::Ordering` of a [`MemOrder`].
pub fn std_order(m: MemOrder) -> (o: Ordering)
    ensures
        o == mem_as_order(m),
        order_as_mem(o) == m,
    opens_invariants none
    no_unwind
{
    match m {
        MemOrder::Relaxed => Ordering::Relaxed,
        MemOrder::Release => Ordering::Release,
        MemOrder::Acquire => Ordering::Acquire,
        MemOrder::AcqRel => Ordering::AcqRel,
        MemOrder::SeqCst => Ordering::SeqCst,
    }
}

/// Calls `AtomicBool::store(lock, false, Ordering::Release)`, which clears the flag.
/// A release store does not panic: `store` panics only for `Acquire` and `AcqRel`.
#[verifier::external_body]
fn clear_flag(lock: &AtomicBool)
    opens_invariants none
    no_unwind
{
    lock.store(false, Ordering::Release);
}

/// Calls `AtomicU64::fetch_sub(counter, 1, order)`, which decrements the counter
/// (wrapping, as atomic arithmetic does) and never panics.
#[verifier::external_body]
fn decrement_counter(counter: &AtomicU64, order: Ordering)
    opens_invariants none
    no_unwind
{
    counter.fetch_sub(1, order);
}

/// A lock guard for an atomic boolean lock.
///
/// The lock is locked when the boolean is `true` and unlocked when it is `false`.
/// Dropping the guard unlocks the lock.
pub struct AtomicLockGuard<'atomic> {
    lock: &'atomic AtomicBool,
}

impl<'atomic> AtomicLockGuard<'atomic> {
    /// The lock flag that this guard holds.
    pub closed spec fn held(&self) -> &'atomic AtomicBool {
        self.lock
    }

    /// One attempt at taking the lock: it sets the flag, and the attempt succeeds
    /// exactly when the flag was clear before. A caller that must have the lock
    /// repeats the attempt until it succeeds.
    pub fn try_lock(lock: &'atomic AtomicBool) -> (res: Option<Self>)
        ensures
            res matches Some(g) ==> g.held() == lock,
    {
        let was_locked = lock.swap(true, Ordering::Acquire);
        Self::after_attempt(lock, was_locked)
    }

    /// The outcome of an attempt that found the flag `was_locked` before setting
    /// it: the lock is taken exactly when the flag was clear.
    fn after_attempt(lock: &'atomic AtomicBool, was_locked: bool) -> (res: Option<Self>)
        ensures
            res is None <==> was_locked,
            res matches Some(g) ==> g.held() == lock,
    {
        if was_locked {
            None
        } else {
            Some(AtomicLockGuard { lock })
        }
    }

    /// Unlocks the lock (what dropping the guard does).
    fn unlock(&self)
        opens_invariants none
        no_unwind
    {
        clear_flag(self.lock);
    }
}

impl Drop for AtomicLockGuard<'_> {
    fn drop(&mut self)
        opens_invariants none
        no_unwind
    {
        self.unlock();
    }
}

/// A guard that keeps a counter incremented while it lives: creating it adds one,
/// dropping it subtracts one again.
pub struct AtomicSemaphoreGuard<'atomic> {
    lock: &'atomic AtomicU64,
    drop_order: MemOrder,
}

impl<'atomic> AtomicSemaphoreGuard<'atomic> {
    /// The counter that this guard keeps incremented.
    pub closed spec fn counter(&self) -> &'atomic AtomicU64 {
        self.lock
    }

    /// The ordering with which the counter is decremented when the guard is dropped.
    pub closed spec fn release_order(&self) -> MemOrder {
        self.drop_order
    }

    /// Increments `lock` with `order` and returns the guard that decrements it
    /// with `drop_order` when dropped.
    pub fn increment(lock: &'atomic AtomicU64, order: Ordering, drop_order: Ordering) -> (g: Self)
        ensures
            g.counter() == lock,
            g.release_order() == order_as_mem(drop_order),
    {
        lock.fetch_add(1, order);
        AtomicSemaphoreGuard { lock, drop_order: mem_order(drop_order) }
    }
}

impl Drop for AtomicSemaphoreGuard<'_> {
    fn drop(&mut self)
        opens_invariants none
        no_unwind
    {
        decrement_counter(self.lock, std_order(self.drop_order));
    }
}

/// Calls `Mutex::new(value)`.
#[verifier::external_body]
fn new_storage<T>(value: T) -> Mutex<T> {
    Mutex::new(value)
}

/// Calls `Mutex::try_lock(storage)`, which never blocks: `None` when another
/// guard of the storage lives (`TryLockError::WouldBlock`); a poisoned storage
/// is entered all the same (`PoisonError::into_inner`).
#[verifier::external_body]
fn try_enter_storage<'a, T>(storage: &'a Mutex<T>) -> Option<MutexGuard<'a, T>> {
    match storage.try_lock() {
        Ok(g) => Some(g),
        Err(TryLockError::Poisoned(poisoned)) => Some(poisoned.into_inner()),
        Err(TryLockError::WouldBlock) => None,
    }
}

/// `MutexGuard::deref`: the value behind the guard.
#[verifier::external_body]
fn storage_ref<'b, 'a, T>(g: &'b MutexGuard<'a, T>) -> &'b T {
    &**g
}

/// `MutexGuard::deref_mut`: the value behind the guard, for writing.
#[verifier::external_body]
fn storage_mut<'b, 'a, T>(g: &'b mut MutexGuard<'a, T>) -> &'b mut T {
    &mut **g
}

/// A mutual-exclusion lock around a value, taken by setting an atomic flag.
#[verifier::reject_recursive_types(T)]
pub struct AtomicMutex<T> {
    value: Mutex<T>,
    atomlock: AtomicBool,
}

/// Access to the value of an [`AtomicMutex`]; dropping it unlocks the mutex.
#[verifier::reject_recursive_types(T)]
pub struct AtomicMutexGuard<'a, T> {
    parent: &'a AtomicMutex<T>,
    storage: MutexGuard<'a, T>,
}

impl<T> AtomicMutex<T> {
    /// Creates an unlocked mutex around `value`.
    pub fn new(value: T) -> (m: Self) {
        AtomicMutex { value: new_storage(value), atomlock: AtomicBool::new(false) }
    }

    /// One attempt at locking: sets the flag, and succeeds when the flag was clear
    /// and the storage is free; a failed attempt leaves the flag as it found it.
    pub fn try_lock(&self) -> (res: Option<AtomicMutexGuard<'_, T>>)
        ensures
            res matches Some(g) ==> g.mutex() == self,
    {
        let was_locked = self.atomlock.swap(true, Ordering::AcqRel);
        self.after_attempt(was_locked)
    }

    /// The outcome of an attempt that found the flag `was_locked` before setting
    /// it: a set flag fails the attempt; a clear one goes on to the storage.
    fn after_attempt(&self, was_locked: bool) -> (res: Option<AtomicMutexGuard<'_, T>>)
        ensures
            was_locked ==> res is None,
            res matches Some(g) ==> g.mutex() == self,
    {
        if was_locked {
            None
        } else {
            self.after_entry(try_enter_storage(&self.value))
        }
    }

    /// The outcome of an attempt that set the flag, given what entering the
    /// storage gave: the guard, or else the flag is cleared again and the
    /// attempt fails.
    fn after_entry<'a>(&'a self, storage: Option<MutexGuard<'a, T>>) -> (res: Option<AtomicMutexGuard<'a, T>>)
        ensures
            res is None <==> storage is None,
            res matches Some(g) ==> g.mutex() == self,
    {
        match storage {
            Some(storage) => Some(AtomicMutexGuard { parent: self, storage }),
            None => {
                clear_flag(&self.atomlock);
                None
            },
        }
    }
}

impl<'a, T> AtomicMutexGuard<'a, T> {
    /// The mutex that this guard holds.
    pub closed spec fn mutex(&self) -> &'a AtomicMutex<T> {
        self.parent
    }

    /// The value under the lock.
    pub fn get(&self) -> &T {
        storage_ref(&self.storage)
    }

    /// The value under the lock, for writing.
    pub fn get_mut(&mut self) -> &mut T {
        storage_mut(&mut self.storage)
    }
}

impl<T> Drop for AtomicMutexGuard<'_, T> {
    fn drop(&mut self)
        opens_invariants none
        no_unwind
    {
        clear_flag(&self.parent.atomlock);
    }
}

} // verus!
