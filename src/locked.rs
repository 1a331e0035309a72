//! Exclusive access to state that is shared across the whole kernel.

use vstd::prelude::*;

verus! {

#[verifier::external_type_specification]
#[verifier::external_body]
#[verifier::reject_recursive_types(T)]
#[verifier::reject_recursive_types(R)]
pub struct ExSpinMutex<T: ?Sized, R>(spin::mutex::Mutex<T, R>);

#[verifier::external_type_specification]
#[verifier::external_body]
#[verifier::reject_recursive_types(T)]
pub struct ExSpinMutexGuard<'a, T: 'a + ?Sized>(spin::mutex::MutexGuard<'a, T>);

#[verifier::external_type_specification]
#[verifier::external_body]
pub struct ExSpinRelax(spin::relax::Spin);

/// Relies on `spin::Mutex::new`: an unlocked mutex around `value`.
pub assume_specification<T, R>[ spin::mutex::Mutex::<T, R>::new ](value: T) -> spin::mutex::Mutex<T, R>;

/// A value behind a spin lock, so that shared, process-wide state can
/// still be changed from any call site.
#[verifier::reject_recursive_types(A)]
pub struct Locked<A> {
    inner: spin::Mutex<A>,
}

impl<A> Locked<A> {
    /// Puts `inner` behind the lock.
    pub fn new(inner: A) -> (r: Self) {
        Locked { inner: spin::Mutex::new(inner) }
    }

    /// Relies on `spin::Mutex::lock`: spins until the lock is free and
    /// holds it until the guard is dropped.
    #[verifier::external_body]
    pub fn lock(&self) -> spin::MutexGuard<'_, A> {
        self.inner.lock()
    }
}

} // verus!
