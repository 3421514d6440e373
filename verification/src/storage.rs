//! The contract every storage backend must meet.
//!
//! A backend is modelled as a map from tenant identifier to that tenant's
//! key partition. Every operation is scoped by a tenant identifier and
//! touches no other tenant's partition; a backend that never signals
//! `InternalError` declares itself `reliable`.

use vstd::prelude::*;

use crate::key::{
    has_id, has_secret, keys_view, lookup_by_secret, remove_key, replace_key, ApiKey, KeyModel,
    StorageError,
};

verus! {

/// The partition a tenant owns in a store model: its entry in the map,
/// or the empty partition for a tenant the store has never seen.
pub open spec fn partition_of(m: Map<Seq<char>, Seq<KeyModel>>, tenant: Seq<char>) -> Seq<
    KeyModel,
> {
    if m.dom().contains(tenant) {
        m[tenant]
    } else {
        Seq::empty()
    }
}

/// A store backend keyed by tenant identifier.
///
/// `model()` is the mathematical content of the store and `reliable()`
/// says that its operations never signal `InternalError`; an in-memory
/// backend is reliable, a remote one need not be.
pub trait StorageAdapter: Sized {
    /// The mathematical content of the store: each known tenant's
    /// partition, in storage order.
    spec fn model(&self) -> Map<Seq<char>, Seq<KeyModel>>;

    /// Whether the backend never signals `InternalError`.
    spec fn reliable(&self) -> bool;

    /// Inserts a new key into the tenant's partition. Succeeds unless the
    /// backend itself is unavailable; duplicate names are not rejected.
    fn create_key(&mut self, tenant: &String, key: ApiKey) -> (r: Result<(), StorageError>)
        ensures
            final(self).reliable() == old(self).reliable(),
            r matches Ok(()) ==> final(self).model() == old(self).model().insert(
                tenant@,
                partition_of(old(self).model(), tenant@).push(key@),
            ),
            r matches Err(e) ==> final(self).model() == old(self).model() && (
            e matches StorageError::InternalError(_)),
            old(self).reliable() ==> r is Ok,
    ;

    /// Returns the tenant's whole partition; an unknown tenant owns the
    /// empty partition, which is not an error.
    fn list_keys(&self, tenant: &String) -> (r: Result<Vec<ApiKey>, StorageError>)
        ensures
            r matches Ok(v) ==> keys_view(v@) == partition_of(self.model(), tenant@),
            r matches Err(e) ==> (e matches StorageError::InternalError(_)) && !self.reliable(),
            self.reliable() ==> r is Ok,
    ;

    /// Removes the first key with the given id from the tenant's
    /// partition; signals `NotFound` when the tenant has no such id.
    fn delete_key(&mut self, tenant: &String, key_id: &String) -> (r: Result<(), StorageError>)
        ensures
            final(self).reliable() == old(self).reliable(),
            r matches Ok(()) ==> has_id(partition_of(old(self).model(), tenant@), key_id@)
                && final(self).model() == old(self).model().insert(
                tenant@,
                remove_key(partition_of(old(self).model(), tenant@), key_id@),
            ),
            r matches Err(e) ==> final(self).model() == old(self).model() && (
            e matches StorageError::NotFound ==> !has_id(
                partition_of(old(self).model(), tenant@),
                key_id@,
            )) && (e matches StorageError::InternalError(_) ==> !old(self).reliable()),
            old(self).reliable() ==> (r is Ok <==> has_id(
                partition_of(old(self).model(), tenant@),
                key_id@,
            )),
    ;

    /// Replaces the first key with id `key.id` in the tenant's partition
    /// by `key`; signals `NotFound` when the tenant has no such id.
    fn update_key(&mut self, tenant: &String, key: ApiKey) -> (r: Result<(), StorageError>)
        ensures
            final(self).reliable() == old(self).reliable(),
            r matches Ok(()) ==> has_id(partition_of(old(self).model(), tenant@), key@.id)
                && final(self).model() == old(self).model().insert(
                tenant@,
                replace_key(partition_of(old(self).model(), tenant@), key@),
            ),
            r matches Err(e) ==> final(self).model() == old(self).model() && (
            e matches StorageError::NotFound ==> !has_id(
                partition_of(old(self).model(), tenant@),
                key@.id,
            )) && (e matches StorageError::InternalError(_) ==> !old(self).reliable()),
            old(self).reliable() ==> (r is Ok <==> has_id(
                partition_of(old(self).model(), tenant@),
                key@.id,
            )),
    ;

    /// Returns the first key of the tenant's partition whose secret
    /// equals the given value; no match is a normal empty result, not an
    /// error.
    fn lookup_key(&self, tenant: &String, secret: &String) -> (r: Result<
        Option<ApiKey>,
        StorageError,
    >)
        ensures
            r matches Ok(found) ==> match found {
                Some(k) => lookup_by_secret(partition_of(self.model(), tenant@), secret@)
                    == Some(k@),
                None => !has_secret(partition_of(self.model(), tenant@), secret@),
            },
            r matches Err(e) ==> (e matches StorageError::InternalError(_)) && !self.reliable(),
            self.reliable() ==> r is Ok,
    ;
}

/// The store invariant: every known partition satisfies the partition
/// invariant (ids and secrets unique within it).
pub open spec fn store_inv(m: Map<Seq<char>, Seq<KeyModel>>) -> bool {
    forall|t: Seq<char>| #[trigger] m.dom().contains(t) ==> crate::key::partition_inv(m[t])
}

/// Rewriting one tenant's partition with one that satisfies the
/// partition invariant preserves the store invariant.
pub proof fn lemma_insert_preserves_store_inv(
    m: Map<Seq<char>, Seq<KeyModel>>,
    tenant: Seq<char>,
    p: Seq<KeyModel>,
)
    requires
        store_inv(m),
        crate::key::partition_inv(p),
    ensures
        store_inv(m.insert(tenant, p)),
{
    let m2 = m.insert(tenant, p);
    assert forall|t: Seq<char>| #[trigger] m2.dom().contains(t) implies crate::key::partition_inv(
        m2[t],
    ) by {
        if t != tenant {
            assert(m2[t] == m[t]);
        }
    }
}

} // verus!
