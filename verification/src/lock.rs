//! State that several processors share, behind a spin lock.

use vstd::prelude::*;

verus! {

/// The spin lock of the `spin` crate.
#[verifier::external_type_specification]
#[verifier::external_body]
#[verifier::reject_recursive_types(T)]
#[verifier::reject_recursive_types(R)]
pub struct ExMutex<T: ?Sized, R>(spin::mutex::Mutex<T, R>);

/// How a processor waits for the lock.
#[verifier::external_type_specification]
#[verifier::external_body]
pub struct ExSpin(spin::relax::Spin);

/// The guard that keeps the lock taken.
#[verifier::external_type_specification]
#[verifier::external_body]
#[verifier::reject_recursive_types(T)]
pub struct ExMutexGuard<'a, T: ?Sized + 'a>(spin::mutex::MutexGuard<'a, T>);

/// Calls `spin::Mutex::lock`: waits for the lock and takes it. What it guards
/// then is whatever the last holder left, so nothing is claimed of it.
#[verifier::external_body]
pub(crate) fn lock<'a, T>(m: &'a spin::Mutex<T>) -> spin::MutexGuard<'a, T> {
    m.lock()
}

/// Calls `DerefMut::deref_mut` of the guard: the value that the lock guards.
#[verifier::external_body]
pub(crate) fn guarded<'b, 'a, T>(g: &'b mut spin::MutexGuard<'a, T>) -> &'b mut T {
    &mut **g
}

} // verus!
