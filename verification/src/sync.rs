//! The reader/writer spin lock of the `spin` crate, as far as the library
//! uses it. Nothing here is proved: these declarations state what the library
//! takes from that crate on trust.
//!
//! None of the functions promises anything of what the lock holds. Whoever
//! takes the lock learns what is inside only by looking, and another thread
//! may have changed it since the last look.

use vstd::prelude::*;

verus! {

/// `spin::rwlock::RwLock`: a value of `T` that one writer or many readers
/// reach at a time. Opaque here.
#[verifier::external_type_specification]
#[verifier::external_body]
#[verifier::reject_recursive_types(T)]
#[verifier::reject_recursive_types(R)]
pub struct ExRwLock<T: ?Sized, R>(spin::rwlock::RwLock<T, R>);

/// `spin::rwlock::RwLockReadGuard`: shared access to what a lock holds, given
/// up when the guard is dropped. Opaque here.
#[verifier::external_type_specification]
#[verifier::external_body]
#[verifier::reject_recursive_types(T)]
pub struct ExRwLockReadGuard<'a, T: ?Sized>(spin::rwlock::RwLockReadGuard<'a, T>);

/// `spin::rwlock::RwLockWriteGuard`: exclusive access to what a lock holds,
/// given up when the guard is dropped. Opaque here.
#[verifier::external_type_specification]
#[verifier::external_body]
#[verifier::reject_recursive_types(T)]
#[verifier::reject_recursive_types(R)]
pub struct ExRwLockWriteGuard<'a, T: 'a + ?Sized, R>(spin::rwlock::RwLockWriteGuard<'a, T, R>);

/// `spin::relax::Spin`: the way the locks of this library wait, by spinning.
/// Opaque here.
#[verifier::external_type_specification]
#[verifier::external_body]
pub struct ExSpin(spin::relax::Spin);

/// Calls `spin::rwlock::RwLock::new`, which wraps `data` in a lock that
/// nobody holds. Nothing is claimed of the lock.
#[verifier::external_body]
pub(crate) fn rwlock_new<T>(data: T) -> (lock: spin::RwLock<T>) {
    spin::RwLock::new(data)
}

/// Calls `spin::rwlock::RwLock::read`, which spins until no writer holds the
/// lock and then hands out shared access. Nothing is claimed of the guard.
///
/// The call does not return while the calling thread itself holds a write
/// guard on the lock, and it panics where the lock counts more read guards
/// than it can hold. The library brings about neither: it never takes a lock
/// while it holds a guard, and it drops every guard before it returns.
#[verifier::external_body]
pub(crate) fn rwlock_read<'a, T>(lock: &'a spin::RwLock<T>) -> (guard: spin::RwLockReadGuard<
    'a,
    T,
>) {
    lock.read()
}

/// Calls `spin::rwlock::RwLock::write`, which spins until nobody holds the
/// lock and then hands out exclusive access. Nothing is claimed of the guard.
///
/// The call does not return while the calling thread itself holds a guard on
/// the lock. The library does not bring that about: it never takes a lock
/// while it holds a guard.
#[verifier::external_body]
pub(crate) fn rwlock_write<'a, T>(lock: &'a spin::RwLock<T>) -> (guard: spin::RwLockWriteGuard<
    'a,
    T,
>) {
    lock.write()
}

/// Calls `deref` of `spin::rwlock::RwLockReadGuard`, which borrows what the
/// lock holds for as long as the guard is borrowed. Nothing is claimed of the
/// value.
#[verifier::external_body]
pub(crate) fn read_guard_get<'a, 'b, T>(guard: &'b spin::RwLockReadGuard<'a, T>) -> (data: &'b T) {
    std::ops::Deref::deref(guard)
}

/// Calls `deref_mut` of `spin::rwlock::RwLockWriteGuard`, which borrows what
/// the lock holds, for change, for as long as the guard is borrowed. Nothing
/// is claimed of the value.
#[verifier::external_body]
pub(crate) fn write_guard_get_mut<'a, 'b, T>(guard: &'b mut spin::RwLockWriteGuard<'a, T>) -> (data:
    &'b mut T) {
    std::ops::DerefMut::deref_mut(guard)
}

} // verus!
