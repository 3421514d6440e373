//! The isolation and lifecycle guarantees, stated and proved over the
//! store model.
//!
//! Every mutating operation of the manager and of a conforming storage
//! backend rewrites the store model to `m.insert(tenant, p)` for the
//! addressed tenant alone, and every reading operation's result is a
//! function of `partition_of(m, tenant)` alone; the laws here say what
//! follows for whole lifecycles.

use vstd::prelude::*;

use crate::key::{
    has_id, has_secret, key_with_id, lemma_first_id_exists, lemma_first_secret_exists,
    lemma_key_with_id_at, lemma_lookup_by_secret_at, lemma_remove_key_absent, lemma_remove_key_at,
    lemma_replace_key_at, lookup_by_secret, partition_inv, protect, protect_all, remove_key,
    replace_key, unique_ids, KeyModel, ProtectedKeyModel,
};
use crate::storage::partition_of;

verus! {

/// Tenant isolation: a mutation scoped to one tenant leaves every other
/// tenant's partition exactly as it was, so keys created under one
/// tenant are never visible to — nor removable or replaceable by — an
/// operation performed under another.
pub proof fn lemma_tenant_isolation(
    m: Map<Seq<char>, Seq<KeyModel>>,
    t1: Seq<char>,
    t2: Seq<char>,
    p: Seq<KeyModel>,
)
    requires
        t1 != t2,
    ensures
        partition_of(m.insert(t1, p), t2) == partition_of(m, t2),
{
}

/// A created key is listed exactly once: after a key with a fresh id is
/// appended to a partition, the protected listing carries that id at the
/// new position and nowhere else. The listing entries carry no secret at
/// all: a [`ProtectedKeyModel`] has only an id and a name.
pub proof fn lemma_created_key_listed_once(part: Seq<KeyModel>, k: KeyModel)
    requires
        !has_id(part, k.id),
    ensures
        protect_all(part.push(k)).len() == part.len() + 1,
        protect_all(part.push(k))[part.len() as int] == protect(k),
        forall|i: int| 0 <= i < part.len() ==> protect_all(part.push(k))[i].id != k.id,
{
    let listed = protect_all(part.push(k));
    assert forall|i: int| 0 <= i < part.len() implies listed[i].id != k.id by {
        assert(part.push(k)[i] == part[i]);
        assert(listed[i] == protect(part[i]));
    }
}

/// A deleted id is gone: removing an id from a partition with unique ids
/// leaves no key with that id, so a listing after a delete never
/// includes it.
pub proof fn lemma_deleted_id_gone(part: Seq<KeyModel>, id: Seq<char>)
    requires
        unique_ids(part),
    ensures
        !has_id(remove_key(part, id), id),
{
    if has_id(part, id) {
        lemma_first_id_exists(part, id);
        let i = choose|i: int| crate::key::is_first_id_match(part, id, i);
        lemma_remove_key_at(part, id, i);
        let part2 = part.remove(i);
        assert forall|q: int| 0 <= q < part2.len() implies part2[q].id != id by {
            let q0: int = if q < i { q } else { q + 1 };
            assert(part2[q] == part[q0]);
        }
    } else {
        lemma_remove_key_absent(part, id);
    }
}

/// Regeneration preserves id and name, replaces the secret, and moves
/// resolution: in the new partition the old secret resolves to nothing
/// while the new secret resolves to the regenerated key.
pub proof fn lemma_regenerate_effect(part: Seq<KeyModel>, k: KeyModel)
    requires
        partition_inv(part),
        has_id(part, k.id),
        k.name == key_with_id(part, k.id).name,
        !has_secret(part, k.secret),
    ensures
        k.secret != key_with_id(part, k.id).secret,
        !has_secret(replace_key(part, k), key_with_id(part, k.id).secret),
        lookup_by_secret(replace_key(part, k), k.secret) == Some(k),
        has_id(replace_key(part, k), k.id),
{
    lemma_first_id_exists(part, k.id);
    let i = choose|i: int| crate::key::is_first_id_match(part, k.id, i);
    lemma_key_with_id_at(part, k.id, i);
    let old_secret = part[i].secret;
    assert(k.secret != old_secret);
    lemma_replace_key_at(part, k, i);
    let part2 = part.update(i, k);
    assert forall|q: int| 0 <= q < part2.len() implies part2[q].secret != old_secret by {
        if q != i {
            assert(part2[q] == part[q]);
        }
    }
    assert(crate::key::is_first_secret_match(part2, k.secret, i)) by {
        assert forall|j: int| 0 <= j < i implies part2[j].secret != k.secret by {
            assert(part2[j] == part[j]);
        }
    }
    lemma_lookup_by_secret_at(part2, k.secret, i);
    assert(has_id(part2, k.id)) by {
        assert(part2[i].id == k.id);
    }
}

/// A never-issued secret resolves to nothing: a secret carried by no key
/// of the partition looks up to `None`.
pub proof fn lemma_unissued_secret_unresolved(part: Seq<KeyModel>, secret: Seq<char>)
    requires
        !has_secret(part, secret),
    ensures
        lookup_by_secret(part, secret) is None,
{
    crate::key::lemma_lookup_by_secret_absent(part, secret);
}

/// Listing is a pure read: two listings of the same tenant with no
/// intervening mutation of the store return equal entries.
pub proof fn lemma_list_idempotent(
    m1: Map<Seq<char>, Seq<KeyModel>>,
    m2: Map<Seq<char>, Seq<KeyModel>>,
    t: Seq<char>,
    r1: Seq<ProtectedKeyModel>,
    r2: Seq<ProtectedKeyModel>,
)
    requires
        m2 == m1,
        r1 == protect_all(partition_of(m1, t)),
        r2 == protect_all(partition_of(m2, t)),
    ensures
        r1 == r2,
{
}

/// A resolved secret identifies a present key: when a secret resolves,
/// the key it resolves to carries that secret and its id stands in the
/// partition.
pub proof fn lemma_lookup_finds_member(part: Seq<KeyModel>, secret: Seq<char>)
    requires
        has_secret(part, secret),
    ensures
        lookup_by_secret(part, secret) matches Some(k) && k.secret == secret && has_id(
            part,
            k.id,
        ),
{
    lemma_first_secret_exists(part, secret);
    let i = choose|i: int| crate::key::is_first_secret_match(part, secret, i);
    lemma_lookup_by_secret_at(part, secret, i);
    assert(has_id(part, part[i].id)) by {
        assert(part[i].id == part[i].id);
    }
}

} // verus!
