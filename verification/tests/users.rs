use gus::User;
use gus::Users;

#[test]
fn test_user_display() {
    let user = User {
        id: "test".to_string(),
        name: "Test User".to_string(),
        email: "test@example.com".to_string(),
        sshkey_path: None,
    };
    assert_eq!(user.display_string(), "test: Test User <test@example.com>");
}

#[test]
fn test_user_sshkey_name() {
    let user = User {
        id: "test".to_string(),
        name: "Test User".to_string(),
        email: "test@example.com".to_string(),
        sshkey_path: None,
    };
    assert_eq!(user.get_sshkey_name(), "id_test");

    let user_with_path = User {
        id: "test".to_string(),
        name: "Test User".to_string(),
        email: "test@example.com".to_string(),
        sshkey_path: Some("/path/to/id_rsa".to_string()),
    };
    assert_eq!(user_with_path.get_sshkey_name(), "id_rsa");
}

#[test]
fn test_users_operations() {
    let mut users = Users::new();

    let user = User {
        id: "test".to_string(),
        name: "Test User".to_string(),
        email: "test@example.com".to_string(),
        sshkey_path: None,
    };
    assert!(users.add(user.clone()).is_ok());

    assert!(users.add(user.clone()).is_err());

    assert!(users.exists_id("test"));
    let retrieved_user = users.get("test").unwrap();
    assert_eq!(retrieved_user.name, "Test User");

    let user_list = users.list();
    assert_eq!(user_list.len(), 1);

    let removed_user = users.remove("test").unwrap();
    assert_eq!(removed_user.id, "test");
    assert!(!users.exists_id("test"));
}

#[test]
fn test_users_get_mut_updates_entry() {
    let mut users = Users::new();
    users
        .add(User {
            id: "test".to_string(),
            name: "Old Name".to_string(),
            email: "old@example.com".to_string(),
            sshkey_path: None,
        })
        .unwrap();
    {
        let entry = users.get_mut("test").unwrap();
        entry.name = "New Name".to_string();
    }
    assert_eq!(users.get("test").unwrap().name, "New Name");
    assert!(users.get_mut("missing").is_none());
}

#[test]
fn test_user_sshkey_path_resolution() {
    let user = User {
        id: "test".to_string(),
        name: "Test User".to_string(),
        email: "test@example.com".to_string(),
        sshkey_path: None,
    };
    assert_eq!(user.get_sshkey_path(".gus/sshkeys/"), ".gus/sshkeys/id_test");
    assert_eq!(user.get_sshkey_path("/keys"), "/keys/id_test");
    assert_eq!(user.get_sshkey_path(""), "id_test");

    let explicit = User {
        id: "test".to_string(),
        name: "Test User".to_string(),
        email: "test@example.com".to_string(),
        sshkey_path: Some("/path/to/id_rsa".to_string()),
    };
    assert_eq!(explicit.get_sshkey_path("/keys"), "/path/to/id_rsa");
}
