use apikeys::key::{ApiKey, StorageError};
use apikeys::memory::InMemoryStorage;
use apikeys::storage::StorageAdapter;

fn sample_key(id: &str, name: &str, secret: &str) -> ApiKey {
    ApiKey { id: String::from(id), name: String::from(name), secret: String::from(secret) }
}

#[test]
fn test_storage_list_unknown_tenant_is_empty() {
    let storage = InMemoryStorage::new();
    let listed = storage.list_keys(&String::from("nobody")).unwrap();
    assert_eq!(listed.len(), 0);
}

#[test]
fn test_storage_create_then_list() {
    let mut storage = InMemoryStorage::new();
    let tenant = String::from("t1");

    storage.create_key(&tenant, sample_key("a", "first", "s1")).unwrap();
    storage.create_key(&tenant, sample_key("b", "second", "s2")).unwrap();

    let listed = storage.list_keys(&tenant).unwrap();
    assert_eq!(listed.len(), 2);
    assert_eq!(listed[0].id, String::from("a"));
    assert_eq!(listed[1].id, String::from("b"));
}

#[test]
fn test_storage_delete_unknown_tenant_not_found() {
    let mut storage = InMemoryStorage::new();
    let result = storage.delete_key(&String::from("nobody"), &String::from("a"));
    assert!(matches!(result, Err(StorageError::NotFound)));
}

#[test]
fn test_storage_delete_removes_only_match() {
    let mut storage = InMemoryStorage::new();
    let tenant = String::from("t1");

    storage.create_key(&tenant, sample_key("a", "first", "s1")).unwrap();
    storage.create_key(&tenant, sample_key("b", "second", "s2")).unwrap();

    storage.delete_key(&tenant, &String::from("a")).unwrap();

    let listed = storage.list_keys(&tenant).unwrap();
    assert_eq!(listed.len(), 1);
    assert_eq!(listed[0].id, String::from("b"));
}

#[test]
fn test_storage_update_replaces_matching_id() {
    let mut storage = InMemoryStorage::new();
    let tenant = String::from("t1");

    storage.create_key(&tenant, sample_key("a", "first", "s1")).unwrap();
    storage.update_key(&tenant, sample_key("a", "first", "s9")).unwrap();

    let by_old = storage.lookup_key(&tenant, &String::from("s1")).unwrap();
    assert!(by_old.is_none());

    let by_new = storage.lookup_key(&tenant, &String::from("s9")).unwrap().unwrap();
    assert_eq!(by_new.id, String::from("a"));
    assert_eq!(by_new.name, String::from("first"));
}

#[test]
fn test_storage_update_missing_id_not_found() {
    let mut storage = InMemoryStorage::new();
    let tenant = String::from("t1");

    storage.create_key(&tenant, sample_key("a", "first", "s1")).unwrap();

    let result = storage.update_key(&tenant, sample_key("z", "ghost", "s9"));
    assert!(matches!(result, Err(StorageError::NotFound)));
}

#[test]
fn test_storage_lookup_scoped_to_tenant() {
    let mut storage = InMemoryStorage::new();

    storage.create_key(&String::from("t1"), sample_key("a", "first", "s1")).unwrap();

    let other = storage.lookup_key(&String::from("t2"), &String::from("s1")).unwrap();
    assert!(other.is_none());

    let own = storage.lookup_key(&String::from("t1"), &String::from("s1")).unwrap().unwrap();
    assert_eq!(own.id, String::from("a"));
}
