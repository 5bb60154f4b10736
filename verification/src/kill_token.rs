//! The cooperative stop signal.
//!
//! A `KillToken` is a condition-variable-backed boolean flag: background
//! loops wait on it, and an interrupt handler activates it to request
//! shutdown.  The primitives come from the standard library and are
//! reached through trusted wrappers; nothing about blocking behaviour is
//! claimed.

use vstd::prelude::*;

verus! {

#[verifier::external_type_specification]
#[verifier::external_body]
pub struct ExCondvar(std::sync::Condvar);

#[verifier::external_type_specification]
#[verifier::external_body]
#[verifier::reject_recursive_types(T)]
pub struct ExMutex<T: ?Sized>(std::sync::Mutex<T>);

/// A cooperative stop flag behind a condition variable.
pub struct KillToken {
    cvar: std::sync::Condvar,
    kill: std::sync::Mutex<bool>,
}

impl KillToken {
    /// Relies on `std::sync::Condvar::new` and `std::sync::Mutex::new`.
    #[verifier::external_body]
    pub fn new() -> KillToken {
        KillToken { cvar: std::sync::Condvar::new(), kill: std::sync::Mutex::new(false) }
    }

    /// Relies on `std::sync::Condvar::wait`: blocks until notified and
    /// returns the flag as it then stands (a poisoned lock yields the
    /// flag's last value).
    #[verifier::external_body]
    pub fn wait_on(&self) -> bool {
        match self.kill.lock() {
            Ok(guard) => match self.cvar.wait(guard) {
                Ok(b) => *b,
                Err(e) => *e.into_inner(),
            },
            Err(e) => *e.into_inner(),
        }
    }

    /// Relies on `std::sync::Mutex::lock` and
    /// `std::sync::Condvar::notify_one`: raises the flag and wakes one
    /// waiter.
    #[verifier::external_body]
    pub fn activate(&self) {
        match self.kill.lock() {
            Ok(mut guard) => {
                *guard = true;
            },
            Err(e) => {
                *e.into_inner() = true;
            },
        }
        self.cvar.notify_one();
    }
}

} // verus!
