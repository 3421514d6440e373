//! The in-memory storage backend.
//!
//! Partitions are held as a list of tenant slots with pairwise distinct
//! tenant identifiers; the model folds that list into the map the
//! [`StorageAdapter`] contract speaks of. The backend is reliable: it
//! never signals `InternalError`.

use vstd::prelude::*;

use crate::key::{find_id, find_secret, keys_view, ApiKey, KeyModel, StorageError};
use crate::key::{
    lemma_lookup_by_secret_at, lemma_remove_key_at, lemma_replace_key_at,
};
use crate::storage::{store_inv, StorageAdapter};

verus! {

/// One tenant's slot: the tenant identifier and its key partition.
struct TenantKeys {
    tenant: String,
    keys: Vec<ApiKey>,
}

/// An in-memory store of keys, partitioned by tenant.
pub struct InMemoryStorage {
    parts: Vec<TenantKeys>,
}

/// No two slots name the same tenant.
spec fn tenants_unique(parts: Seq<TenantKeys>) -> bool {
    forall|i: int, j: int| 0 <= i < j < parts.len() ==> parts[i].tenant@ != parts[j].tenant@
}

/// The map a slot list denotes: each tenant to its partition's models.
spec fn model_of(parts: Seq<TenantKeys>) -> Map<Seq<char>, Seq<KeyModel>>
    decreases parts.len(),
{
    if parts.len() == 0 {
        Map::empty()
    } else {
        model_of(parts.drop_last()).insert(
            parts.last().tenant@,
            keys_view(parts.last().keys@),
        )
    }
}

/// A tenant is in the model exactly when some slot names it.
proof fn lemma_model_dom(parts: Seq<TenantKeys>, t: Seq<char>)
    ensures
        model_of(parts).dom().contains(t) <==> exists|i: int|
            0 <= i < parts.len() && parts[i].tenant@ == t,
    decreases parts.len(),
{
    if parts.len() > 0 {
        lemma_model_dom(parts.drop_last(), t);
        if parts.last().tenant@ == t {
            assert(parts[parts.len() - 1].tenant@ == t);
        } else {
            if exists|i: int| 0 <= i < parts.len() && parts[i].tenant@ == t {
                let i = choose|i: int| 0 <= i < parts.len() && parts[i].tenant@ == t;
                assert(parts.drop_last()[i].tenant@ == t);
            }
            if exists|i: int| 0 <= i < parts.drop_last().len() && parts.drop_last()[i].tenant@
                == t {
                let i = choose|i: int|
                    0 <= i < parts.drop_last().len() && parts.drop_last()[i].tenant@ == t;
                assert(parts[i].tenant@ == t);
            }
        }
    }
}

/// With distinct tenants, the model maps each slot's tenant to exactly
/// that slot's keys.
proof fn lemma_model_at(parts: Seq<TenantKeys>, i: int)
    requires
        tenants_unique(parts),
        0 <= i < parts.len(),
    ensures
        model_of(parts).dom().contains(parts[i].tenant@),
        model_of(parts)[parts[i].tenant@] == keys_view(parts[i].keys@),
    decreases parts.len(),
{
    if i < parts.len() - 1 {
        assert(tenants_unique(parts.drop_last())) by {
            assert(forall|p: int, q: int|
                0 <= p < q < parts.drop_last().len() ==> parts.drop_last()[p]
                    == parts[p] && parts.drop_last()[q] == parts[q]);
        }
        lemma_model_at(parts.drop_last(), i);
        assert(parts.drop_last()[i] == parts[i]);
        assert(parts.last().tenant@ != parts[i].tenant@);
    }
}

/// Rewriting one slot, tenant kept, rewrites exactly that tenant's entry.
proof fn lemma_model_update(parts: Seq<TenantKeys>, i: int, p: TenantKeys)
    requires
        tenants_unique(parts),
        0 <= i < parts.len(),
        p.tenant@ == parts[i].tenant@,
    ensures
        model_of(parts.update(i, p)) == model_of(parts).insert(p.tenant@, keys_view(p.keys@)),
        tenants_unique(parts.update(i, p)),
    decreases parts.len(),
{
    let parts2 = parts.update(i, p);
    assert(tenants_unique(parts2)) by {
        assert(forall|q: int| 0 <= q < parts2.len() && q != i ==> parts2[q] == parts[q]);
    }
    if i == parts.len() - 1 {
        assert(parts2.drop_last() =~= parts.drop_last());
        assert(parts2.last() == p);
        assert(model_of(parts.drop_last()).insert(
            parts.last().tenant@,
            keys_view(parts.last().keys@),
        ).insert(p.tenant@, keys_view(p.keys@)) =~= model_of(parts.drop_last()).insert(
            p.tenant@,
            keys_view(p.keys@),
        ));
    } else {
        assert(tenants_unique(parts.drop_last())) by {
            assert(forall|p0: int, q0: int|
                0 <= p0 < q0 < parts.drop_last().len() ==> parts.drop_last()[p0]
                    == parts[p0] && parts.drop_last()[q0] == parts[q0]);
        }
        assert(parts.drop_last()[i] == parts[i]);
        lemma_model_update(parts.drop_last(), i, p);
        assert(parts2.drop_last() =~= parts.drop_last().update(i, p));
        assert(parts2.last() == parts.last());
        assert(p.tenant@ != parts.last().tenant@);
        assert(model_of(parts.drop_last()).insert(p.tenant@, keys_view(p.keys@)).insert(
            parts.last().tenant@,
            keys_view(parts.last().keys@),
        ) =~= model_of(parts.drop_last()).insert(
            parts.last().tenant@,
            keys_view(parts.last().keys@),
        ).insert(p.tenant@, keys_view(p.keys@)));
    }
}

/// Appending a slot for an unseen tenant adds exactly that tenant's entry.
proof fn lemma_model_push(parts: Seq<TenantKeys>, p: TenantKeys)
    requires
        tenants_unique(parts),
        forall|i: int| 0 <= i < parts.len() ==> parts[i].tenant@ != p.tenant@,
    ensures
        model_of(parts.push(p)) == model_of(parts).insert(p.tenant@, keys_view(p.keys@)),
        tenants_unique(parts.push(p)),
{
    assert(parts.push(p).drop_last() =~= parts);
    assert(parts.push(p).last() == p);
    assert(tenants_unique(parts.push(p))) by {
        assert(forall|q: int| 0 <= q < parts.len() ==> parts.push(p)[q] == parts[q]);
    }
}

/// The slot that names this tenant, found by a forward scan.
fn find_tenant(parts: &Vec<TenantKeys>, tenant: &String) -> (r: Option<usize>)
    ensures
        match r {
            Some(i) => i < parts@.len() && parts@[i as int].tenant@ == tenant@,
            None => forall|i: int| 0 <= i < parts@.len() ==> parts@[i].tenant@ != tenant@,
        },
{
    let mut i: usize = 0;
    while i < parts.len()
        invariant
            i <= parts@.len(),
            forall|j: int| 0 <= j < i ==> parts@[j].tenant@ != tenant@,
        decreases parts@.len() - i,
    {
        if parts[i].tenant == *tenant {
            return Some(i);
        }
        i = i + 1;
    }
    None
}

impl InMemoryStorage {
    #[verifier::type_invariant]
    spec fn wf(&self) -> bool {
        tenants_unique(self.parts@)
    }

    /// An empty store: no tenant owns any key yet.
    pub fn new() -> (r: InMemoryStorage)
        ensures
            r.model() == Map::<Seq<char>, Seq<KeyModel>>::empty(),
            r.reliable(),
            store_inv(r.model()),
    {
        InMemoryStorage { parts: Vec::new() }
    }
}

impl StorageAdapter for InMemoryStorage {
    closed spec fn model(&self) -> Map<Seq<char>, Seq<KeyModel>> {
        model_of(self.parts@)
    }

    closed spec fn reliable(&self) -> bool {
        true
    }

    fn create_key(&mut self, tenant: &String, key: ApiKey) -> (r: Result<(), StorageError>) {
        proof {
            use_type_invariant(&*self);
        }
        let ghost key_model = key@;
        let mut parts: Vec<TenantKeys> = Vec::new();
        core::mem::swap(&mut parts, &mut self.parts);
        let ghost parts0 = parts@;
        match find_tenant(&parts, tenant) {
            Some(i) => {
                let mut entry = parts.remove(i);
                entry.keys.push(key);
                let ghost entry2 = entry;
                parts.insert(i, entry);
                proof {
                    assert(parts@ =~= parts0.update(i as int, entry2));
                    lemma_model_at(parts0, i as int);
                    lemma_model_update(parts0, i as int, entry2);
                    assert(keys_view(entry2.keys@) =~= keys_view(parts0[i as int].keys@).push(
                        key_model,
                    ));
                }
                self.parts = parts;
                Ok(())
            },
            None => {
                let mut ks: Vec<ApiKey> = Vec::new();
                ks.push(key);
                parts.push(TenantKeys { tenant: tenant.clone(), keys: ks });
                proof {
                    lemma_model_dom(parts0, tenant@);
                    lemma_model_push(parts0, parts@.last());
                    assert(keys_view(parts@.last().keys@) =~= Seq::<KeyModel>::empty().push(
                        key_model,
                    ));
                }
                self.parts = parts;
                Ok(())
            },
        }
    }

    fn list_keys(&self, tenant: &String) -> (r: Result<Vec<ApiKey>, StorageError>) {
        proof {
            use_type_invariant(&*self);
        }
        match find_tenant(&self.parts, tenant) {
            Some(i) => {
                proof {
                    lemma_model_at(self.parts@, i as int);
                }
                let slot_len = self.parts[i].keys.len();
                let mut out: Vec<ApiKey> = Vec::new();
                let mut j: usize = 0;
                while j < slot_len
                    invariant
                        i < self.parts@.len(),
                        slot_len == self.parts@[i as int].keys@.len(),
                        j <= slot_len,
                        out@.len() == j,
                        forall|q: int| 0 <= q < j ==> out@[q] == self.parts@[i as int].keys@[q],
                    decreases slot_len - j,
                {
                    out.push(self.parts[i].keys[j].duplicate());
                    j = j + 1;
                }
                proof {
                    assert(out@ =~= self.parts@[i as int].keys@);
                }
                Ok(out)
            },
            None => {
                proof {
                    lemma_model_dom(self.parts@, tenant@);
                    assert(keys_view(Seq::<ApiKey>::empty()) =~= Seq::<KeyModel>::empty());
                }
                Ok(Vec::new())
            },
        }
    }

    fn delete_key(&mut self, tenant: &String, key_id: &String) -> (r: Result<(), StorageError>) {
        proof {
            use_type_invariant(&*self);
        }
        let mut parts: Vec<TenantKeys> = Vec::new();
        core::mem::swap(&mut parts, &mut self.parts);
        let ghost parts0 = parts@;
        match find_tenant(&parts, tenant) {
            Some(i) => {
                let mut entry = parts.remove(i);
                match find_id(&entry.keys, key_id) {
                    Some(j) => {
                        entry.keys.remove(j);
                        let ghost entry2 = entry;
                        parts.insert(i, entry);
                        proof {
                            assert(parts@ =~= parts0.update(i as int, entry2));
                            lemma_model_at(parts0, i as int);
                            lemma_model_update(parts0, i as int, entry2);
                            lemma_remove_key_at(
                                keys_view(parts0[i as int].keys@),
                                key_id@,
                                j as int,
                            );
                            assert(keys_view(entry2.keys@) =~= keys_view(
                                parts0[i as int].keys@,
                            ).remove(j as int));
                        }
                        self.parts = parts;
                        Ok(())
                    },
                    None => {
                        parts.insert(i, entry);
                        proof {
                            assert(parts@ =~= parts0);
                            lemma_model_at(parts0, i as int);
                        }
                        self.parts = parts;
                        Err(StorageError::NotFound)
                    },
                }
            },
            None => {
                proof {
                    lemma_model_dom(parts0, tenant@);
                }
                self.parts = parts;
                Err(StorageError::NotFound)
            },
        }
    }

    fn update_key(&mut self, tenant: &String, key: ApiKey) -> (r: Result<(), StorageError>) {
        proof {
            use_type_invariant(&*self);
        }
        let ghost key_model = key@;
        let mut parts: Vec<TenantKeys> = Vec::new();
        core::mem::swap(&mut parts, &mut self.parts);
        let ghost parts0 = parts@;
        match find_tenant(&parts, tenant) {
            Some(i) => {
                let mut entry = parts.remove(i);
                match find_id(&entry.keys, &key.id) {
                    Some(j) => {
                        entry.keys[j] = key;
                        let ghost entry2 = entry;
                        parts.insert(i, entry);
                        proof {
                            assert(parts@ =~= parts0.update(i as int, entry2));
                            lemma_model_at(parts0, i as int);
                            lemma_model_update(parts0, i as int, entry2);
                            lemma_replace_key_at(
                                keys_view(parts0[i as int].keys@),
                                key_model,
                                j as int,
                            );
                            assert(keys_view(entry2.keys@) =~= keys_view(
                                parts0[i as int].keys@,
                            ).update(j as int, key_model));
                        }
                        self.parts = parts;
                        Ok(())
                    },
                    None => {
                        parts.insert(i, entry);
                        proof {
                            assert(parts@ =~= parts0);
                            lemma_model_at(parts0, i as int);
                        }
                        self.parts = parts;
                        Err(StorageError::NotFound)
                    },
                }
            },
            None => {
                proof {
                    lemma_model_dom(parts0, tenant@);
                }
                self.parts = parts;
                Err(StorageError::NotFound)
            },
        }
    }

    fn lookup_key(&self, tenant: &String, secret: &String) -> (r: Result<
        Option<ApiKey>,
        StorageError,
    >) {
        proof {
            use_type_invariant(&*self);
        }
        match find_tenant(&self.parts, tenant) {
            Some(i) => {
                proof {
                    lemma_model_at(self.parts@, i as int);
                }
                match find_secret(&self.parts[i].keys, secret) {
                    Some(j) => {
                        proof {
                            lemma_lookup_by_secret_at(
                                keys_view(self.parts@[i as int].keys@),
                                secret@,
                                j as int,
                            );
                        }
                        Ok(Some(self.parts[i].keys[j].duplicate()))
                    },
                    None => Ok(None),
                }
            },
            None => {
                proof {
                    lemma_model_dom(self.parts@, tenant@);
                }
                Ok(None)
            },
        }
    }
}

} // verus!
