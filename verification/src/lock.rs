//! The store as all connections share it: behind a readers-writer lock.
//!
//! The lock is the standard library's. Verus does not look inside it, so
//! nothing is known of the store that a guard gives access to: it holds
//! whatever the other holders of the lock left there. What is known of a
//! lock is the store that it was made around.

use crate::storage::{Entry, Keyspace};
use std::sync::Arc;
use std::sync::RwLock;
use std::sync::RwLockReadGuard;
use std::sync::RwLockWriteGuard;
use vstd::prelude::*;

verus! {

/// The standard library's readers-writer lock, as a type that values can
/// have. Nothing is known of what a lock holds.
#[verifier::external_type_specification]
#[verifier::external_body]
#[verifier::reject_recursive_types(T)]
pub struct ExRwLock<T: ?Sized>(RwLock<T>);

/// The guard that stands for shared read access to what a lock holds.
#[verifier::external_type_specification]
#[verifier::external_body]
#[verifier::reject_recursive_types(T)]
pub struct ExRwLockReadGuard<'a, T: ?Sized>(RwLockReadGuard<'a, T>);

/// The guard that stands for exclusive write access to what a lock holds.
#[verifier::external_type_specification]
#[verifier::external_body]
#[verifier::reject_recursive_types(T)]
pub struct ExRwLockWriteGuard<'a, T: ?Sized + 'a>(RwLockWriteGuard<'a, T>);

/// What the store held that `lock` was made around. This is said of a lock
/// once and for all, when it is made; it is not what the lock holds at any
/// later time.
pub uninterp spec fn made_around(lock: RwLock<Keyspace>) -> Map<Seq<char>, Entry>;

/// Puts `keyspace` behind a new lock, with [`RwLock::new`], which makes an
/// unlocked lock that protects the value it is given. Of the lock, only that
/// it was made around this store is claimed.
#[verifier::external_body]
pub(crate) fn new_lock(keyspace: Keyspace) -> (lock: RwLock<Keyspace>)
    ensures
        made_around(lock) == keyspace@,
{
    RwLock::new(keyspace)
}

/// Waits for shared read access, with [`RwLock::read`]. `None` stands for
/// the error that the lock gives once a writer has failed while holding it.
/// Nothing is claimed of what comes back.
#[verifier::external_body]
pub(crate) fn read_access<'a>(lock: &'a RwLock<Keyspace>) -> (guard: Option<
    RwLockReadGuard<'a, Keyspace>,
>) {
    lock.read().ok()
}

/// Waits for exclusive write access, with [`RwLock::write`]. `None` stands
/// for the error that the lock gives once a writer has failed while holding
/// it. Nothing is claimed of what comes back.
#[verifier::external_body]
pub(crate) fn write_access<'a>(lock: &'a RwLock<Keyspace>) -> (guard: Option<
    RwLockWriteGuard<'a, Keyspace>,
>) {
    lock.write().ok()
}

/// The store that a read guard gives access to, by the guard's `Deref`.
/// Nothing is claimed of what the store holds.
#[verifier::external_body]
pub(crate) fn guarded<'a, 'b>(guard: &'a RwLockReadGuard<'b, Keyspace>) -> (keyspace: &'a Keyspace) {
    &*guard
}

/// The store that a write guard gives access to, by the guard's `DerefMut`.
/// Nothing is claimed of what the store holds.
#[verifier::external_body]
pub(crate) fn guarded_mut<'a, 'b>(guard: &'a mut RwLockWriteGuard<'b, Keyspace>) -> (keyspace:
    &'a mut Keyspace) {
    &mut *guard
}

/// An empty store for all connections to share: a new lock, made around a
/// store without keys.
pub fn new_shared() -> (storage: Arc<RwLock<Keyspace>>)
    ensures
        made_around(*storage) == Map::<Seq<char>, Entry>::empty(),
{
    Arc::new(new_lock(Keyspace::new()))
}

} // verus!
