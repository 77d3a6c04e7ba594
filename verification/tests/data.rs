//! Client-directory and registry tests.

use cs::data::{AuthenticatedRegistry, Client, ClientDirectory};

fn named(name: &str) -> Client {
    Client {
        id: None,
        name: Some(name.to_string()),
        key: None,
    }
}

#[test]
fn new_client_generates_key() {
    let mut directory = ClientDirectory::new();
    let created = directory.new_client(named("alice"));
    assert_eq!(created.name, Some("alice".to_string()));
    assert!(created.id.is_some());

    let key = created.key.unwrap();
    // ten generated characters, a dash, five generated characters
    assert_eq!(key.len(), 16);
    assert_eq!(key.chars().nth(10), Some('-'));

    assert_eq!(directory.get_client_key("alice".to_string()), Some(key));
}

#[test]
fn new_client_existing_name_returns_existing() {
    let mut directory = ClientDirectory::new();
    let first = directory.new_client(named("new_cli_name_api"));
    let second = directory.new_client(named("new_cli_name_api"));
    assert_eq!(first.key, second.key);
    assert_eq!(first.id, second.id);
    assert_eq!(directory.get_clients().len(), 1);
}

#[test]
fn validate_checks_both_name_and_key() {
    let mut directory = ClientDirectory::new();
    let created = directory.new_client(named("alice"));
    directory.new_client(named("bob"));
    let key = created.key.unwrap();

    assert!(directory.validate_user_auth("alice".to_string(), key.clone()));
    assert!(!directory.validate_user_auth("alice".to_string(), "wrong".to_string()));
    assert!(!directory.validate_user_auth("bob".to_string(), key));
    assert!(!directory.validate_user_auth("carol".to_string(), "anything".to_string()));
}

#[test]
fn get_client_key_absent_name() {
    let directory = ClientDirectory::new();
    assert_eq!(directory.get_client_key("nobody".to_string()), None);
}

#[test]
fn registry_insert_remove_idempotent() {
    let mut registry = AuthenticatedRegistry::new();
    let name = "alice".to_string();

    assert!(!registry.contains(&name));
    registry.insert(name.clone());
    assert!(registry.contains(&name));
    // a second insert changes nothing
    registry.insert(name.clone());
    assert!(registry.contains(&name));

    registry.remove(&name);
    assert!(!registry.contains(&name));
    // removing an absent name is a no-op
    registry.remove(&name);
    assert!(!registry.contains(&name));
}
