//! Key records and the mathematical model of a tenant's key partition.
//!
//! A partition is modelled as a `Seq<KeyModel>`; the spec functions here
//! say what membership, removal, replacement and secret lookup mean on
//! that model, and the lemmas relate the recursive definitions to the
//! index-based steps the executable code takes.

use vstd::prelude::*;

verus! {

/// A full API key record: the unique identifier assigned at creation,
/// the caller-supplied label, and the opaque secret credential.
pub struct ApiKey {
    pub id: String,
    pub name: String,
    pub secret: String,
}

/// The projection of a key that omits the secret; every response other
/// than the one immediately following creation or regeneration uses it.
pub struct ProtectedApiKey {
    pub id: String,
    pub name: String,
}

/// The caller-supplied part of a key at creation time.
pub struct InputApiKey {
    pub name: String,
}

/// A secret presented for resolution to its key.
pub struct LookupSecret {
    pub secret: String,
}

/// The two failure kinds a storage backend can signal: the referenced id
/// does not exist in the addressed tenant partition, or the backend
/// itself is unavailable (the detail string is diagnostic only).
#[derive(Debug)]
pub enum StorageError {
    NotFound,
    InternalError(String),
}

/// The mathematical value of an [`ApiKey`].
pub ghost struct KeyModel {
    pub id: Seq<char>,
    pub name: Seq<char>,
    pub secret: Seq<char>,
}

/// The mathematical value of a [`ProtectedApiKey`].
pub ghost struct ProtectedKeyModel {
    pub id: Seq<char>,
    pub name: Seq<char>,
}

impl View for ApiKey {
    type V = KeyModel;

    open spec fn view(&self) -> KeyModel {
        KeyModel { id: self.id@, name: self.name@, secret: self.secret@ }
    }
}

impl View for ProtectedApiKey {
    type V = ProtectedKeyModel;

    open spec fn view(&self) -> ProtectedKeyModel {
        ProtectedKeyModel { id: self.id@, name: self.name@ }
    }
}

impl ApiKey {
    /// An exact copy of the record.
    pub fn duplicate(&self) -> (r: ApiKey)
        ensures
            r == *self,
    {
        ApiKey { id: self.id.clone(), name: self.name.clone(), secret: self.secret.clone() }
    }
}

/// The models of a sequence of key records.
pub open spec fn keys_view(keys: Seq<ApiKey>) -> Seq<KeyModel> {
    keys.map_values(|k: ApiKey| k@)
}

/// The models of a sequence of protected key records.
pub open spec fn protected_views(keys: Seq<ProtectedApiKey>) -> Seq<ProtectedKeyModel> {
    keys.map_values(|k: ProtectedApiKey| k@)
}

/// Some key in the partition carries this id.
pub open spec fn has_id(keys: Seq<KeyModel>, id: Seq<char>) -> bool {
    exists|i: int| 0 <= i < keys.len() && keys[i].id == id
}

/// Some key in the partition carries this secret.
pub open spec fn has_secret(keys: Seq<KeyModel>, secret: Seq<char>) -> bool {
    exists|i: int| 0 <= i < keys.len() && keys[i].secret == secret
}

/// `i` is the position of the first key with this id.
pub open spec fn is_first_id_match(keys: Seq<KeyModel>, id: Seq<char>, i: int) -> bool {
    &&& 0 <= i < keys.len()
    &&& keys[i].id == id
    &&& forall|j: int| 0 <= j < i ==> keys[j].id != id
}

/// `i` is the position of the first key with this secret.
pub open spec fn is_first_secret_match(keys: Seq<KeyModel>, secret: Seq<char>, i: int) -> bool {
    &&& 0 <= i < keys.len()
    &&& keys[i].secret == secret
    &&& forall|j: int| 0 <= j < i ==> keys[j].secret != secret
}

/// The partition with the first key of this id removed; the partition
/// unchanged when no key has the id.
pub open spec fn remove_key(keys: Seq<KeyModel>, id: Seq<char>) -> Seq<KeyModel>
    decreases keys.len(),
{
    if keys.len() == 0 {
        keys
    } else if keys.first().id == id {
        keys.drop_first()
    } else {
        seq![keys.first()] + remove_key(keys.drop_first(), id)
    }
}

/// The partition with the first key of id `k.id` replaced by `k`; the
/// partition unchanged when no key has that id.
pub open spec fn replace_key(keys: Seq<KeyModel>, k: KeyModel) -> Seq<KeyModel>
    decreases keys.len(),
{
    if keys.len() == 0 {
        keys
    } else if keys.first().id == k.id {
        seq![k] + keys.drop_first()
    } else {
        seq![keys.first()] + replace_key(keys.drop_first(), k)
    }
}

/// The first key of the partition that carries this id.
pub open spec fn key_with_id(keys: Seq<KeyModel>, id: Seq<char>) -> KeyModel
    decreases keys.len(),
{
    if keys.len() == 0 {
        arbitrary()
    } else if keys.first().id == id {
        keys.first()
    } else {
        key_with_id(keys.drop_first(), id)
    }
}

/// The first key of the partition that carries this secret, if any.
pub open spec fn lookup_by_secret(keys: Seq<KeyModel>, secret: Seq<char>) -> Option<KeyModel>
    decreases keys.len(),
{
    if keys.len() == 0 {
        None
    } else if keys.first().secret == secret {
        Some(keys.first())
    } else {
        lookup_by_secret(keys.drop_first(), secret)
    }
}

/// The projection of one key that omits its secret.
pub open spec fn protect(k: KeyModel) -> ProtectedKeyModel {
    ProtectedKeyModel { id: k.id, name: k.name }
}

/// The projection of a whole partition.
pub open spec fn protect_all(keys: Seq<KeyModel>) -> Seq<ProtectedKeyModel> {
    keys.map_values(|k: KeyModel| protect(k))
}

/// No two keys of the partition share an id.
pub open spec fn unique_ids(keys: Seq<KeyModel>) -> bool {
    forall|i: int, j: int| 0 <= i < j < keys.len() ==> keys[i].id != keys[j].id
}

/// No two keys of the partition share a secret.
pub open spec fn unique_secrets(keys: Seq<KeyModel>) -> bool {
    forall|i: int, j: int| 0 <= i < j < keys.len() ==> keys[i].secret != keys[j].secret
}

/// The partition invariant: ids and secrets are unique within it.
pub open spec fn partition_inv(keys: Seq<KeyModel>) -> bool {
    unique_ids(keys) && unique_secrets(keys)
}

/// A partition that holds a key with an id also holds a first key
/// with that id.
pub proof fn lemma_first_id_exists(keys: Seq<KeyModel>, id: Seq<char>)
    requires
        has_id(keys, id),
    ensures
        exists|i: int| is_first_id_match(keys, id, i),
    decreases keys.len(),
{
    if keys.first().id == id {
        assert(is_first_id_match(keys, id, 0));
    } else {
        assert(has_id(keys.drop_first(), id)) by {
            let w = choose|i: int| 0 <= i < keys.len() && keys[i].id == id;
            assert(keys.drop_first()[w - 1].id == id);
        }
        lemma_first_id_exists(keys.drop_first(), id);
        let i = choose|i: int| is_first_id_match(keys.drop_first(), id, i);
        assert(keys.drop_first()[i] == keys[i + 1]);
        assert forall|j: int| 0 <= j < i + 1 implies keys[j].id != id by {
            if j > 0 {
                assert(keys.drop_first()[j - 1] == keys[j]);
            }
        }
        assert(is_first_id_match(keys, id, i + 1));
    }
}

/// A partition that holds a key with a secret also holds a first key
/// with that secret.
pub proof fn lemma_first_secret_exists(keys: Seq<KeyModel>, secret: Seq<char>)
    requires
        has_secret(keys, secret),
    ensures
        exists|i: int| is_first_secret_match(keys, secret, i),
    decreases keys.len(),
{
    if keys.first().secret == secret {
        assert(is_first_secret_match(keys, secret, 0));
    } else {
        assert(has_secret(keys.drop_first(), secret)) by {
            let w = choose|i: int| 0 <= i < keys.len() && keys[i].secret == secret;
            assert(keys.drop_first()[w - 1].secret == secret);
        }
        lemma_first_secret_exists(keys.drop_first(), secret);
        let i = choose|i: int| is_first_secret_match(keys.drop_first(), secret, i);
        assert(keys.drop_first()[i] == keys[i + 1]);
        assert forall|j: int| 0 <= j < i + 1 implies keys[j].secret != secret by {
            if j > 0 {
                assert(keys.drop_first()[j - 1] == keys[j]);
            }
        }
        assert(is_first_secret_match(keys, secret, i + 1));
    }
}

/// Removing an id takes out exactly the first key that carries it.
pub proof fn lemma_remove_key_at(keys: Seq<KeyModel>, id: Seq<char>, i: int)
    requires
        is_first_id_match(keys, id, i),
    ensures
        remove_key(keys, id) == keys.remove(i),
    decreases i,
{
    if i == 0 {
        assert(remove_key(keys, id) =~= keys.remove(0));
    } else {
        assert(keys.first().id != id);
        assert(is_first_id_match(keys.drop_first(), id, i - 1)) by {
            assert(forall|j: int| 0 <= j < i - 1 ==> keys.drop_first()[j] == keys[j + 1]);
        }
        lemma_remove_key_at(keys.drop_first(), id, i - 1);
        assert(seq![keys.first()] + keys.drop_first().remove(i - 1) =~= keys.remove(i));
    }
}

/// Removing an id that no key carries leaves the partition unchanged.
pub proof fn lemma_remove_key_absent(keys: Seq<KeyModel>, id: Seq<char>)
    requires
        !has_id(keys, id),
    ensures
        remove_key(keys, id) == keys,
    decreases keys.len(),
{
    if keys.len() > 0 {
        assert(keys[0].id != id);
        assert(!has_id(keys.drop_first(), id)) by {
            assert(forall|j: int| 0 <= j < keys.drop_first().len()
                ==> keys.drop_first()[j] == keys[j + 1]);
        }
        lemma_remove_key_absent(keys.drop_first(), id);
        assert(seq![keys.first()] + keys.drop_first() =~= keys);
    }
}

/// Replacing a key rewrites exactly the first position that carries its id.
pub proof fn lemma_replace_key_at(keys: Seq<KeyModel>, k: KeyModel, i: int)
    requires
        is_first_id_match(keys, k.id, i),
    ensures
        replace_key(keys, k) == keys.update(i, k),
    decreases i,
{
    if i == 0 {
        assert(seq![k] + keys.drop_first() =~= keys.update(0, k));
    } else {
        assert(keys.first().id != k.id);
        assert(is_first_id_match(keys.drop_first(), k.id, i - 1)) by {
            assert(forall|j: int| 0 <= j < i - 1 ==> keys.drop_first()[j] == keys[j + 1]);
        }
        lemma_replace_key_at(keys.drop_first(), k, i - 1);
        assert(seq![keys.first()] + keys.drop_first().update(i - 1, k) =~= keys.update(i, k));
    }
}

/// Replacing a key whose id no key carries leaves the partition unchanged.
pub proof fn lemma_replace_key_absent(keys: Seq<KeyModel>, k: KeyModel)
    requires
        !has_id(keys, k.id),
    ensures
        replace_key(keys, k) == keys,
    decreases keys.len(),
{
    if keys.len() > 0 {
        assert(keys[0].id != k.id);
        assert(!has_id(keys.drop_first(), k.id)) by {
            assert(forall|j: int| 0 <= j < keys.drop_first().len()
                ==> keys.drop_first()[j] == keys[j + 1]);
        }
        lemma_replace_key_absent(keys.drop_first(), k);
        assert(seq![keys.first()] + keys.drop_first() =~= keys);
    }
}

/// `key_with_id` names the first key that carries the id.
pub proof fn lemma_key_with_id_at(keys: Seq<KeyModel>, id: Seq<char>, i: int)
    requires
        is_first_id_match(keys, id, i),
    ensures
        key_with_id(keys, id) == keys[i],
    decreases i,
{
    if i > 0 {
        assert(keys.first().id != id);
        assert(is_first_id_match(keys.drop_first(), id, i - 1)) by {
            assert(forall|j: int| 0 <= j < i - 1 ==> keys.drop_first()[j] == keys[j + 1]);
        }
        lemma_key_with_id_at(keys.drop_first(), id, i - 1);
    }
}

/// Secret lookup returns the first key that carries the secret.
pub proof fn lemma_lookup_by_secret_at(keys: Seq<KeyModel>, secret: Seq<char>, i: int)
    requires
        is_first_secret_match(keys, secret, i),
    ensures
        lookup_by_secret(keys, secret) == Some(keys[i]),
    decreases i,
{
    if i > 0 {
        assert(keys.first().secret != secret);
        assert(is_first_secret_match(keys.drop_first(), secret, i - 1)) by {
            assert(forall|j: int| 0 <= j < i - 1 ==> keys.drop_first()[j] == keys[j + 1]);
        }
        lemma_lookup_by_secret_at(keys.drop_first(), secret, i - 1);
    }
}

/// Secret lookup finds nothing exactly when no key carries the secret.
pub proof fn lemma_lookup_by_secret_absent(keys: Seq<KeyModel>, secret: Seq<char>)
    requires
        !has_secret(keys, secret),
    ensures
        lookup_by_secret(keys, secret) is None,
    decreases keys.len(),
{
    if keys.len() > 0 {
        assert(keys[0].secret != secret);
        assert(!has_secret(keys.drop_first(), secret)) by {
            assert(forall|j: int| 0 <= j < keys.drop_first().len()
                ==> keys.drop_first()[j] == keys[j + 1]);
        }
        lemma_lookup_by_secret_absent(keys.drop_first(), secret);
    }
}

/// Appending a key with a fresh id and a fresh secret preserves the
/// partition invariant.
pub proof fn lemma_push_fresh_preserves_inv(keys: Seq<KeyModel>, k: KeyModel)
    requires
        partition_inv(keys),
        !has_id(keys, k.id),
        !has_secret(keys, k.secret),
    ensures
        partition_inv(keys.push(k)),
{
    let keys2 = keys.push(k);
    assert forall|i: int, j: int| 0 <= i < j < keys2.len() implies keys2[i].id != keys2[j].id by {
        if j == keys.len() {
            assert(keys2[i] == keys[i]);
        }
    }
    assert forall|i: int, j: int|
        0 <= i < j < keys2.len() implies keys2[i].secret != keys2[j].secret by {
        if j == keys.len() {
            assert(keys2[i] == keys[i]);
        }
    }
}

/// Removing a key preserves the partition invariant.
pub proof fn lemma_remove_preserves_inv(keys: Seq<KeyModel>, id: Seq<char>)
    requires
        partition_inv(keys),
    ensures
        partition_inv(remove_key(keys, id)),
{
    if has_id(keys, id) {
        lemma_first_id_exists(keys, id);
        let i = choose|i: int| is_first_id_match(keys, id, i);
        lemma_remove_key_at(keys, id, i);
        let keys2 = keys.remove(i);
        assert forall|p: int, q: int|
            0 <= p < q < keys2.len() implies keys2[p].id != keys2[q].id && keys2[p].secret
            != keys2[q].secret by {
            let p0: int = if p < i { p } else { p + 1 };
            let q0: int = if q < i { q } else { q + 1 };
            assert(keys2[p] == keys[p0]);
            assert(keys2[q] == keys[q0]);
        }
    } else {
        lemma_remove_key_absent(keys, id);
    }
}

/// Replacing a key by one with the same id and a fresh secret preserves
/// the partition invariant.
pub proof fn lemma_replace_preserves_inv(keys: Seq<KeyModel>, k: KeyModel)
    requires
        partition_inv(keys),
        !has_secret(keys, k.secret),
    ensures
        partition_inv(replace_key(keys, k)),
{
    if has_id(keys, k.id) {
        lemma_first_id_exists(keys, k.id);
        let i = choose|i: int| is_first_id_match(keys, k.id, i);
        lemma_replace_key_at(keys, k, i);
        let keys2 = keys.update(i, k);
        assert forall|p: int, q: int|
            0 <= p < q < keys2.len() implies keys2[p].id != keys2[q].id && keys2[p].secret
            != keys2[q].secret by {
            if p != i {
                assert(keys2[p] == keys[p]);
            }
            if q != i {
                assert(keys2[q] == keys[q]);
            }
        }
    } else {
        lemma_replace_key_absent(keys, k);
    }
}

/// The position of the first key with this id, found by a forward scan.
pub fn find_id(keys: &Vec<ApiKey>, id: &String) -> (r: Option<usize>)
    ensures
        match r {
            Some(i) => is_first_id_match(keys_view(keys@), id@, i as int),
            None => !has_id(keys_view(keys@), id@),
        },
{
    let mut i: usize = 0;
    while i < keys.len()
        invariant
            i <= keys@.len(),
            forall|j: int| 0 <= j < i ==> keys_view(keys@)[j].id != id@,
        decreases keys@.len() - i,
    {
        if keys[i].id == *id {
            return Some(i);
        }
        i = i + 1;
    }
    None
}

/// The position of the first key with this secret, found by a forward scan.
pub fn find_secret(keys: &Vec<ApiKey>, secret: &String) -> (r: Option<usize>)
    ensures
        match r {
            Some(i) => is_first_secret_match(keys_view(keys@), secret@, i as int),
            None => !has_secret(keys_view(keys@), secret@),
        },
{
    let mut i: usize = 0;
    while i < keys.len()
        invariant
            i <= keys@.len(),
            forall|j: int| 0 <= j < i ==> keys_view(keys@)[j].secret != secret@,
        decreases keys@.len() - i,
    {
        if keys[i].secret == *secret {
            return Some(i);
        }
        i = i + 1;
    }
    None
}

} // verus!
