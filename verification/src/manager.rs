//! The key lifecycle manager.
//!
//! The manager orchestrates a storage backend and a secret generator to
//! offer the five lifecycle operations: create, list, delete, regenerate
//! and lookup-by-secret. It owns no state beyond its two collaborators,
//! and every operation is scoped to the tenant identifier it is given.
//!
//! Freshly drawn identifiers and secrets are random, so the operations
//! that consume them come in two layers: `create_key` and
//! `regenerate_key` draw the random values, while `create_key_with` and
//! `regenerate_key_with` take them as arguments and have exact contracts
//! for every value. The manager checks the drawn values against the
//! tenant's partition before storing them, which is what maintains the
//! partition invariant (ids and secrets unique within a tenant); a drawn
//! value that collides is refused with `InternalError` rather than
//! stored.

use vstd::prelude::*;

use crate::generator::{new_uuid_string, SecretGenerator};
use crate::key::{
    find_id, find_secret, has_id, has_secret, key_with_id, keys_view, lookup_by_secret, protect,
    protect_all, protected_views, remove_key, replace_key, ApiKey, InputApiKey, KeyModel,
    LookupSecret, ProtectedApiKey, StorageError,
};
use crate::key::{
    lemma_key_with_id_at, lemma_push_fresh_preserves_inv, lemma_remove_preserves_inv,
    lemma_replace_preserves_inv,
};
use crate::storage::{lemma_insert_preserves_store_inv, partition_of, store_inv, StorageAdapter};

verus! {

/// The lifecycle manager: a storage backend and a secret generator.
pub struct KeyManager<S: StorageAdapter, G: SecretGenerator> {
    pub storage: S,
    pub generator: G,
}

impl<S: StorageAdapter, G: SecretGenerator> KeyManager<S, G> {
    /// The mathematical content of the managed store.
    pub open spec fn model(&self) -> Map<Seq<char>, Seq<KeyModel>> {
        self.storage.model()
    }

    /// Whether the managed store never signals `InternalError`.
    pub open spec fn reliable(&self) -> bool {
        self.storage.reliable()
    }

    /// The store invariant the manager maintains: within every tenant's
    /// partition, ids and secrets are unique.
    pub open spec fn inv(&self) -> bool {
        store_inv(self.model())
    }

    pub fn new(storage: S, generator: G) -> (r: Self)
        ensures
            r.storage == storage,
            r.generator == generator,
    {
        KeyManager { storage, generator }
    }

    /// Creates a key from an already-drawn id and secret: stores and
    /// returns the key when both are new to the tenant's partition, and
    /// refuses the colliding pair with `InternalError` otherwise.
    pub fn create_key_with(
        &mut self,
        tenant: &String,
        name: String,
        id: String,
        secret: String,
    ) -> (r: Result<ApiKey, StorageError>)
        ensures
            final(self).reliable() == old(self).reliable(),
            final(self).generator == old(self).generator,
            old(self).inv() ==> final(self).inv(),
            ({
                let part = partition_of(old(self).model(), tenant@);
                &&& (r matches Ok(k) ==> {
                    &&& k@ == (KeyModel { id: id@, name: name@, secret: secret@ })
                    &&& !has_id(part, id@)
                    &&& !has_secret(part, secret@)
                    &&& final(self).model() == old(self).model().insert(tenant@, part.push(k@))
                })
                &&& (r matches Err(e) ==> final(self).model() == old(self).model() && (
                e matches StorageError::InternalError(_)))
                &&& (old(self).reliable() && !has_id(part, id@) && !has_secret(part, secret@)
                    ==> r is Ok)
                &&& (has_id(part, id@) || has_secret(part, secret@) ==> r is Err)
            }),
    {
        let keys = match self.storage.list_keys(tenant) {
            Ok(v) => v,
            Err(e) => {
                return Err(e);
            },
        };
        if find_id(&keys, &id).is_some() || find_secret(&keys, &secret).is_some() {
            return Err(StorageError::InternalError("generated credentials collide".to_string()));
        }
        let key = ApiKey { id, name, secret };
        let stored = key.duplicate();
        match self.storage.create_key(tenant, stored) {
            Ok(()) => {
                proof {
                    if old(self).inv() {
                        let part = partition_of(old(self).model(), tenant@);
                        lemma_push_fresh_preserves_inv(part, key@);
                        lemma_insert_preserves_store_inv(
                            old(self).model(),
                            tenant@,
                            part.push(key@),
                        );
                    }
                }
                Ok(key)
            },
            Err(e) => Err(e),
        }
    }

    /// Creates a new key named by the caller: assigns a fresh id, draws a
    /// fresh secret, stores the key and returns it in full — the only
    /// moment the secret of a created key is returned.
    pub fn create_key(&mut self, tenant: &String, input: InputApiKey) -> (r: Result<
        ApiKey,
        StorageError,
    >)
        ensures
            final(self).reliable() == old(self).reliable(),
            final(self).generator == old(self).generator,
            old(self).inv() ==> final(self).inv(),
            r matches Ok(k) ==> {
                &&& k@.name == input.name@
                &&& k@.id.len() > 0
                &&& k@.secret.len() > 0
                &&& !has_id(partition_of(old(self).model(), tenant@), k@.id)
                &&& !has_secret(partition_of(old(self).model(), tenant@), k@.secret)
                &&& final(self).model() == old(self).model().insert(
                    tenant@,
                    partition_of(old(self).model(), tenant@).push(k@),
                )
            },
            r matches Err(e) ==> final(self).model() == old(self).model() && (
            e matches StorageError::InternalError(_)),
            old(self).reliable() && partition_of(old(self).model(), tenant@).len() == 0 ==> r
                is Ok,
    {
        let id = new_uuid_string();
        let secret = self.generator.generate();
        self.create_key_with(tenant, input.name, id, secret)
    }

    /// Lists the tenant's keys as protected views, in the backend's
    /// partition order; the listing never exposes a secret.
    pub fn list_keys(&self, tenant: &String) -> (r: Result<Vec<ProtectedApiKey>, StorageError>)
        ensures
            r matches Ok(v) ==> protected_views(v@) == protect_all(
                partition_of(self.model(), tenant@),
            ),
            r matches Err(e) ==> (e matches StorageError::InternalError(_)) && !self.reliable(),
            self.reliable() ==> r is Ok,
    {
        let keys = match self.storage.list_keys(tenant) {
            Ok(v) => v,
            Err(e) => {
                return Err(e);
            },
        };
        let mut out: Vec<ProtectedApiKey> = Vec::new();
        let mut i: usize = 0;
        while i < keys.len()
            invariant
                i <= keys@.len(),
                out@.len() == i,
                forall|j: int| 0 <= j < i ==> out@[j]@ == protect(keys_view(keys@)[j]),
            decreases keys@.len() - i,
        {
            out.push(ProtectedApiKey { id: keys[i].id.clone(), name: keys[i].name.clone() });
            i = i + 1;
        }
        proof {
            assert(protected_views(out@) =~= protect_all(keys_view(keys@)));
        }
        Ok(out)
    }

    /// Deletes the tenant's key with the given id; signals `NotFound`
    /// when the tenant has no such id, deleted ids included.
    pub fn delete_key(&mut self, tenant: &String, key_id: &String) -> (r: Result<
        (),
        StorageError,
    >)
        ensures
            final(self).reliable() == old(self).reliable(),
            final(self).generator == old(self).generator,
            old(self).inv() ==> final(self).inv(),
            r matches Ok(()) ==> has_id(partition_of(old(self).model(), tenant@), key_id@)
                && final(self).model() == old(self).model().insert(
                tenant@,
                remove_key(partition_of(old(self).model(), tenant@), key_id@),
            ),
            r matches Err(e) ==> final(self).model() == old(self).model() && (
            e matches StorageError::NotFound ==> !has_id(
                partition_of(old(self).model(), tenant@),
                key_id@,
            )) && (e matches StorageError::InternalError(_) ==> !old(self).reliable()),
            old(self).reliable() ==> (r is Ok <==> has_id(
                partition_of(old(self).model(), tenant@),
                key_id@,
            )),
    {
        let r = self.storage.delete_key(tenant, key_id);
        proof {
            if old(self).inv() && r is Ok {
                let part = partition_of(old(self).model(), tenant@);
                lemma_remove_preserves_inv(part, key_id@);
                lemma_insert_preserves_store_inv(
                    old(self).model(),
                    tenant@,
                    remove_key(part, key_id@),
                );
            }
        }
        r
    }

    /// Regenerates the key with an already-drawn secret: replaces the
    /// key's secret when the id exists and the drawn secret is new to the
    /// tenant's partition, signals `NotFound` when the id is absent, and
    /// refuses a colliding secret with `InternalError`.
    pub fn regenerate_key_with(&mut self, tenant: &String, key_id: &String, secret: String) -> (r:
        Result<ApiKey, StorageError>)
        ensures
            final(self).reliable() == old(self).reliable(),
            final(self).generator == old(self).generator,
            old(self).inv() ==> final(self).inv(),
            ({
                let part = partition_of(old(self).model(), tenant@);
                &&& (r matches Ok(k) ==> {
                    &&& has_id(part, key_id@)
                    &&& k@ == (KeyModel {
                        id: key_id@,
                        name: key_with_id(part, key_id@).name,
                        secret: secret@,
                    })
                    &&& !has_secret(part, secret@)
                    &&& final(self).model() == old(self).model().insert(
                        tenant@,
                        replace_key(part, k@),
                    )
                })
                &&& (r matches Err(e) ==> final(self).model() == old(self).model() && (
                e matches StorageError::NotFound ==> !has_id(part, key_id@)) && (
                e matches StorageError::InternalError(_) ==> !old(self).reliable() || has_secret(
                    part,
                    secret@,
                )))
                &&& (old(self).reliable() && !has_id(part, key_id@) ==> r matches Err(
                    StorageError::NotFound,
                ))
                &&& (old(self).reliable() && has_id(part, key_id@) && !has_secret(part, secret@)
                    ==> r is Ok)
                &&& (has_id(part, key_id@) && has_secret(part, secret@) ==> r matches Err(
                    StorageError::InternalError(_),
                ))
            }),
    {
        let keys = match self.storage.list_keys(tenant) {
            Ok(v) => v,
            Err(e) => {
                return Err(e);
            },
        };
        let idx = match find_id(&keys, key_id) {
            Some(i) => i,
            None => {
                return Err(StorageError::NotFound);
            },
        };
        if find_secret(&keys, &secret).is_some() {
            return Err(StorageError::InternalError("generated secret collides".to_string()));
        }
        let current = &keys[idx];
        let updated = ApiKey { id: current.id.clone(), name: current.name.clone(), secret };
        let stored = updated.duplicate();
        proof {
            lemma_key_with_id_at(keys_view(keys@), key_id@, idx as int);
        }
        match self.storage.update_key(tenant, stored) {
            Ok(()) => {
                proof {
                    if old(self).inv() {
                        let part = partition_of(old(self).model(), tenant@);
                        lemma_replace_preserves_inv(part, updated@);
                        lemma_insert_preserves_store_inv(
                            old(self).model(),
                            tenant@,
                            replace_key(part, updated@),
                        );
                    }
                }
                Ok(updated)
            },
            Err(e) => Err(e),
        }
    }

    /// Regenerates the tenant's key with the given id: the id and the
    /// name stay, the secret is replaced by a freshly drawn one, and the
    /// updated key is returned in full — the only other moment a secret
    /// is returned.
    pub fn regenerate_key(&mut self, tenant: &String, key_id: &String) -> (r: Result<
        ApiKey,
        StorageError,
    >)
        ensures
            final(self).reliable() == old(self).reliable(),
            final(self).generator == old(self).generator,
            old(self).inv() ==> final(self).inv(),
            ({
                let part = partition_of(old(self).model(), tenant@);
                &&& (r matches Ok(k) ==> {
                    &&& has_id(part, key_id@)
                    &&& k@.id == key_id@
                    &&& k@.name == key_with_id(part, key_id@).name
                    &&& k@.secret.len() > 0
                    &&& !has_secret(part, k@.secret)
                    &&& final(self).model() == old(self).model().insert(
                        tenant@,
                        replace_key(part, k@),
                    )
                })
                &&& (r matches Err(e) ==> final(self).model() == old(self).model() && (
                e matches StorageError::NotFound ==> !has_id(part, key_id@)) && (
                e matches StorageError::InternalError(_) ==> !old(self).reliable() || has_id(
                    part,
                    key_id@,
                )))
                &&& (old(self).reliable() && !has_id(part, key_id@) ==> r matches Err(
                    StorageError::NotFound,
                ))
            }),
    {
        let keys = match self.storage.list_keys(tenant) {
            Ok(v) => v,
            Err(e) => {
                return Err(e);
            },
        };
        if find_id(&keys, key_id).is_none() {
            return Err(StorageError::NotFound);
        }
        let secret = self.generator.generate();
        self.regenerate_key_with(tenant, key_id, secret)
    }

    /// Resolves a presented secret to the protected view of its key; an
    /// unmatched secret is a normal empty result. The secret itself is
    /// never echoed back.
    pub fn lookup_key(&self, tenant: &String, lookup: &LookupSecret) -> (r: Result<
        Option<ProtectedApiKey>,
        StorageError,
    >)
        ensures
            r matches Ok(found) ==> match found {
                Some(p) => {
                    &&& has_secret(partition_of(self.model(), tenant@), lookup.secret@)
                    &&& lookup_by_secret(partition_of(self.model(), tenant@), lookup.secret@)
                        matches Some(k) && p@ == protect(k)
                },
                None => !has_secret(partition_of(self.model(), tenant@), lookup.secret@),
            },
            r matches Err(e) ==> (e matches StorageError::InternalError(_)) && !self.reliable(),
            self.reliable() ==> r is Ok,
    {
        match self.storage.lookup_key(tenant, &lookup.secret) {
            Ok(Some(k)) => {
                proof {
                    let part = partition_of(self.model(), tenant@);
                    if !has_secret(part, lookup.secret@) {
                        crate::key::lemma_lookup_by_secret_absent(part, lookup.secret@);
                    }
                }
                Ok(Some(ProtectedApiKey { id: k.id, name: k.name }))
            },
            Ok(None) => Ok(None),
            Err(e) => Err(e),
        }
    }
}

} // verus!
