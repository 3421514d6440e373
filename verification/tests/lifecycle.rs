use apikeys::generator::{SecretGenerator, UuidSecretGenerator};
use apikeys::key::{ApiKey, InputApiKey, LookupSecret, StorageError};
use apikeys::manager::KeyManager;
use apikeys::memory::InMemoryStorage;

fn new_manager() -> KeyManager<InMemoryStorage, UuidSecretGenerator> {
    KeyManager::new(InMemoryStorage::new(), UuidSecretGenerator::new())
}

#[test]
fn test_create_key() {
    let api_key_name = String::from("my api key");
    let mut mgr = new_manager();
    let tenant = String::from("test_token");

    let key = mgr.create_key(&tenant, InputApiKey { name: api_key_name.clone() }).unwrap();

    assert_eq!(key.id.is_empty(), false);
    assert_eq!(key.name, api_key_name);
    assert_eq!(key.secret.is_empty(), false);
}

#[test]
fn test_list_keys() {
    let mut mgr = new_manager();
    let tenant = String::from("test_token");

    mgr.create_key(&tenant, InputApiKey { name: String::from("my api key 1") }).unwrap();
    mgr.create_key(&tenant, InputApiKey { name: String::from("my api key 2") }).unwrap();

    let listed = mgr.list_keys(&tenant).unwrap();
    assert_eq!(listed.len(), 2);
}

#[test]
fn test_delete_key() {
    let mut mgr = new_manager();
    let tenant = String::from("test_token");

    let key = mgr.create_key(&tenant, InputApiKey { name: String::from("my api key") }).unwrap();

    mgr.delete_key(&tenant, &key.id).unwrap();

    let listed = mgr.list_keys(&tenant).unwrap();
    assert_eq!(listed.len(), 0);
}

#[test]
fn test_regenerate_key() {
    let mut mgr = new_manager();
    let tenant = String::from("test_token");

    let original_key =
        mgr.create_key(&tenant, InputApiKey { name: String::from("my api key") }).unwrap();

    let regenerated_key = mgr.regenerate_key(&tenant, &original_key.id).unwrap();

    assert_eq!(regenerated_key.id, original_key.id);
    assert_eq!(regenerated_key.name, original_key.name);
    assert_ne!(regenerated_key.secret, original_key.secret);
}

#[test]
fn test_successful_lookup_key() {
    let mut mgr = new_manager();
    let tenant = String::from("test_token");

    let created_key =
        mgr.create_key(&tenant, InputApiKey { name: String::from("my api key") }).unwrap();

    let looked_up = mgr
        .lookup_key(&tenant, &LookupSecret { secret: created_key.secret.clone() })
        .unwrap()
        .unwrap();

    assert_eq!(looked_up.id, created_key.id);
    assert_eq!(looked_up.name, created_key.name);
}

#[test]
fn test_invalid_lookup_key() {
    let mut mgr = new_manager();
    let tenant = String::from("test_token");

    let looked_up =
        mgr.lookup_key(&tenant, &LookupSecret { secret: String::from("invalid_secret") }).unwrap();

    assert!(looked_up.is_none());
}

#[test]
fn test_different_tokens_access_different_keys() {
    let mut mgr = new_manager();
    let user1 = String::from("user1_token");
    let user2 = String::from("user2_token");

    let user1_key = mgr.create_key(&user1, InputApiKey { name: String::from("user1_key") }).unwrap();
    let user2_key = mgr.create_key(&user2, InputApiKey { name: String::from("user2_key") }).unwrap();

    let user1_keys = mgr.list_keys(&user1).unwrap();
    assert_eq!(user1_keys.len(), 1);
    assert_eq!(user1_keys[0].id, user1_key.id);

    let user2_keys = mgr.list_keys(&user2).unwrap();
    assert_eq!(user2_keys.len(), 1);
    assert_eq!(user2_keys[0].id, user2_key.id);

    let delete_result = mgr.delete_key(&user1, &user2_key.id);
    assert!(matches!(delete_result, Err(StorageError::NotFound)));

    let regenerate_result = mgr.regenerate_key(&user2, &user1_key.id);
    assert!(matches!(regenerate_result, Err(StorageError::NotFound)));

    let lookup_result =
        mgr.lookup_key(&user1, &LookupSecret { secret: user2_key.secret.clone() }).unwrap();
    assert!(lookup_result.is_none());
}

#[test]
fn test_delete_missing_key_not_found() {
    let mut mgr = new_manager();
    let tenant = String::from("test_token");

    let result = mgr.delete_key(&tenant, &String::from("never-issued-id"));
    assert!(matches!(result, Err(StorageError::NotFound)));
}

#[test]
fn test_delete_twice_not_found() {
    let mut mgr = new_manager();
    let tenant = String::from("test_token");

    let key = mgr.create_key(&tenant, InputApiKey { name: String::from("my api key") }).unwrap();
    mgr.delete_key(&tenant, &key.id).unwrap();

    let second = mgr.delete_key(&tenant, &key.id);
    assert!(matches!(second, Err(StorageError::NotFound)));
}

#[test]
fn test_regenerate_missing_key_not_found() {
    let mut mgr = new_manager();
    let tenant = String::from("test_token");

    let result = mgr.regenerate_key(&tenant, &String::from("never-issued-id"));
    assert!(matches!(result, Err(StorageError::NotFound)));
}

#[test]
fn test_regenerated_secret_moves_lookup() {
    let mut mgr = new_manager();
    let tenant = String::from("u1");

    let key = mgr.create_key(&tenant, InputApiKey { name: String::from("billing") }).unwrap();
    let first_secret = key.secret.clone();

    let regenerated = mgr.regenerate_key(&tenant, &key.id).unwrap();
    assert_eq!(regenerated.id, key.id);
    assert_ne!(regenerated.secret, first_secret);

    let old_lookup =
        mgr.lookup_key(&tenant, &LookupSecret { secret: first_secret }).unwrap();
    assert!(old_lookup.is_none());

    let new_lookup = mgr
        .lookup_key(&tenant, &LookupSecret { secret: regenerated.secret.clone() })
        .unwrap()
        .unwrap();
    assert_eq!(new_lookup.id, key.id);
    assert_eq!(new_lookup.name, key.name);
}

#[test]
fn scenario_billing_key_lifecycle() {
    let mut mgr = new_manager();
    let tenant = String::from("u1");

    let created = mgr.create_key(&tenant, InputApiKey { name: String::from("billing") }).unwrap();
    let s1 = created.secret.clone();

    let regenerated = mgr.regenerate_key(&tenant, &created.id).unwrap();
    let s2 = regenerated.secret.clone();
    assert_ne!(s2, s1);
    assert_eq!(regenerated.id, created.id);

    let lookup_s1 = mgr.lookup_key(&tenant, &LookupSecret { secret: s1 }).unwrap();
    assert!(lookup_s1.is_none());

    let lookup_s2 = mgr.lookup_key(&tenant, &LookupSecret { secret: s2 }).unwrap().unwrap();
    assert_eq!(lookup_s2.id, created.id);
    assert_eq!(lookup_s2.name, String::from("billing"));

    mgr.delete_key(&tenant, &created.id).unwrap();
    let listed = mgr.list_keys(&tenant).unwrap();
    assert_eq!(listed.len(), 0);

    let delete_again = mgr.delete_key(&tenant, &created.id);
    assert!(matches!(delete_again, Err(StorageError::NotFound)));
}

#[test]
fn test_list_twice_unchanged() {
    let mut mgr = new_manager();
    let tenant = String::from("u1");

    mgr.create_key(&tenant, InputApiKey { name: String::from("a") }).unwrap();
    mgr.create_key(&tenant, InputApiKey { name: String::from("b") }).unwrap();

    let first = mgr.list_keys(&tenant).unwrap();
    let second = mgr.list_keys(&tenant).unwrap();

    assert_eq!(first.len(), second.len());
    for (x, y) in first.iter().zip(second.iter()) {
        assert_eq!(x.id, y.id);
        assert_eq!(x.name, y.name);
    }
}

#[test]
fn test_duplicate_names_allowed() {
    let mut mgr = new_manager();
    let tenant = String::from("u1");

    let first = mgr.create_key(&tenant, InputApiKey { name: String::from("same") }).unwrap();
    let second = mgr.create_key(&tenant, InputApiKey { name: String::from("same") }).unwrap();

    assert_ne!(first.id, second.id);
    let listed = mgr.list_keys(&tenant).unwrap();
    assert_eq!(listed.len(), 2);
}

#[test]
fn test_empty_name_allowed() {
    let mut mgr = new_manager();
    let tenant = String::from("u1");

    let key = mgr.create_key(&tenant, InputApiKey { name: String::new() }).unwrap();
    assert_eq!(key.name, String::new());

    let listed = mgr.list_keys(&tenant).unwrap();
    assert_eq!(listed.len(), 1);
    assert_eq!(listed[0].name, String::new());
}

#[test]
fn test_create_with_colliding_id_internal_error() {
    let mut mgr = new_manager();
    let tenant = String::from("u1");

    let key = mgr.create_key(&tenant, InputApiKey { name: String::from("first") }).unwrap();

    let result = mgr.create_key_with(
        &tenant,
        String::from("second"),
        key.id.clone(),
        String::from("some-fresh-secret"),
    );
    assert!(matches!(result, Err(StorageError::InternalError(_))));

    let listed = mgr.list_keys(&tenant).unwrap();
    assert_eq!(listed.len(), 1);
}

#[test]
fn test_regenerate_with_colliding_secret_internal_error() {
    let mut mgr = new_manager();
    let tenant = String::from("u1");

    let key = mgr.create_key(&tenant, InputApiKey { name: String::from("first") }).unwrap();

    let result = mgr.regenerate_key_with(&tenant, &key.id, key.secret.clone());
    assert!(matches!(result, Err(StorageError::InternalError(_))));

    let lookup = mgr
        .lookup_key(&tenant, &LookupSecret { secret: key.secret.clone() })
        .unwrap()
        .unwrap();
    assert_eq!(lookup.id, key.id);
}

#[test]
fn test_create_key_with_fresh_values() {
    let mut mgr = new_manager();
    let tenant = String::from("u1");

    let key = mgr
        .create_key_with(
            &tenant,
            String::from("named"),
            String::from("id-1"),
            String::from("secret-1"),
        )
        .unwrap();
    assert_eq!(key.id, String::from("id-1"));
    assert_eq!(key.name, String::from("named"));
    assert_eq!(key.secret, String::from("secret-1"));

    let looked_up = mgr
        .lookup_key(&tenant, &LookupSecret { secret: String::from("secret-1") })
        .unwrap()
        .unwrap();
    assert_eq!(looked_up.id, String::from("id-1"));
}

#[test]
fn test_generated_secret_is_uuid_shaped() {
    let generator = UuidSecretGenerator::new();
    let first = generator.generate();
    let second = generator.generate();
    assert_eq!(first.len(), 36);
    assert_eq!(second.len(), 36);
    assert_ne!(first, second);
}

#[test]
fn test_duplicate_copies_every_field() {
    let key = ApiKey {
        id: String::from("id-9"),
        name: String::from("label"),
        secret: String::from("s-9"),
    };
    let copy = key.duplicate();
    assert_eq!(copy.id, key.id);
    assert_eq!(copy.name, key.name);
    assert_eq!(copy.secret, key.secret);
}
