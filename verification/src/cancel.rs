//! Cooperative cancellation: one flag, shared by every holder of a token.

use std::sync::Arc;
use std::sync::Mutex;
use vstd::prelude::*;

verus! {

#[verifier::external_type_specification]
#[verifier::external_body]
#[verifier::reject_recursive_types(T)]
pub struct ExMutex<T: ?Sized>(Mutex<T>);

/// Trusted: a lock that guards a flag holding `initial` (`Mutex::new`).
/// Nothing is claimed of the result.
#[verifier::external_body]
fn new_flag(initial: bool) -> (flag: Mutex<bool>) {
    Mutex::new(initial)
}

/// Trusted: another handle to the same flag (`Arc::clone`); the two handles
/// denote one cell.
#[verifier::external_body]
fn share_flag(flag: &Arc<Mutex<bool>>) -> (shared: Arc<Mutex<bool>>)
    ensures
        shared == *flag,
{
    Arc::clone(flag)
}

/// Trusted: locks the flag (`Mutex::lock`) and copies its value out; `None`
/// when the lock cannot be acquired. The value depends on what other holders
/// did, so nothing is claimed of it.
#[verifier::external_body]
fn read_flag(flag: &Arc<Mutex<bool>>) -> (reading: Option<bool>) {
    match flag.lock() {
        Ok(guard) => Some(*guard),
        Err(_) => None,
    }
}

/// Trusted: locks the flag (`Mutex::lock`) and stores `value`; a flag whose
/// lock cannot be acquired is left as it is.
#[verifier::external_body]
fn write_flag(flag: &Arc<Mutex<bool>>, value: bool) {
    if let Ok(mut guard) = flag.lock() {
        *guard = value;
    }
}

/// What a poll reports for a reading of the flag: the flag's value, and
/// "cancelled" when the flag could not be read.
pub open spec fn reading_cancelled(reading: Option<bool>) -> bool {
    match reading {
        Some(raised) => raised,
        None => true,
    }
}

/// Turns a reading of the flag into the answer of a poll; a reading that
/// failed counts as cancelled, so that work stops rather than goes on.
pub fn interpret_reading(reading: Option<bool>) -> (cancelled: bool)
    ensures
        cancelled == reading_cancelled(reading),
{
    match reading {
        Some(raised) => raised,
        None => true,
    }
}

/// A flag shared by all clones of one token. `cancel` raises it for good;
/// `is_cancelled` polls it.
pub struct CancellationToken {
    flag: Arc<Mutex<bool>>,
}

impl CancellationToken {
    /// Whether `self` and `other` denote the same flag.
    pub closed spec fn same_flag(&self, other: &CancellationToken) -> bool {
        self.flag == other.flag
    }

    /// A token whose flag is not raised.
    pub fn new() -> (token: Self) {
        CancellationToken { flag: Arc::new(new_flag(false)) }
    }

    /// Raises the flag. Raising it again changes nothing.
    pub fn cancel(&self) {
        write_flag(&self.flag, true);
    }

    /// Polls the flag: [`interpret_reading`] of what the flag held, or of
    /// the failure to read it.
    pub fn is_cancelled(&self) -> (cancelled: bool) {
        interpret_reading(read_flag(&self.flag))
    }
}

impl Clone for CancellationToken {
    /// Another token for the same flag.
    fn clone(&self) -> (token: Self)
        ensures
            token.same_flag(self),
    {
        CancellationToken { flag: share_flag(&self.flag) }
    }
}

} // verus!
