use gus::Item;
use gus::User;
use gus::Users;
use gus::decode_items;
use gus::decode_users;
use gus::encode_items;
use gus::encode_users;

#[test]
fn test_items_round_trip() {
    let items = vec![
        Item::Text("hello ; world : 42".to_string()),
        Item::Number(u64::MAX),
        Item::Number(0),
        Item::Flag(true),
        Item::Flag(false),
        Item::Text("".to_string()),
    ];
    let text = encode_items(&items);
    let back = decode_items(&text).unwrap();
    assert_eq!(back.len(), 6);
    assert!(matches!(&back[0], Item::Text(t) if t == "hello ; world : 42"));
    assert!(matches!(back[1], Item::Number(v) if v == u64::MAX));
    assert!(matches!(back[2], Item::Number(0)));
    assert!(matches!(back[3], Item::Flag(true)));
    assert!(matches!(back[4], Item::Flag(false)));
    assert!(matches!(&back[5], Item::Text(t) if t.is_empty()));
}

#[test]
fn test_items_exact_encoding() {
    let items = vec![Item::Text("ab".to_string()), Item::Number(17), Item::Flag(true)];
    assert_eq!(encode_items(&items), "3;s2:abn17;f1");
}

#[test]
fn test_decode_items_rejects_malformed_input() {
    assert!(decode_items("").is_none());
    assert!(decode_items("x").is_none());
    assert!(decode_items("2;s1:a").is_none());
    assert!(decode_items("1;s9:a").is_none());
    assert!(decode_items("1;f2").is_none());
    assert!(decode_items("1;n5").is_none());
    assert!(decode_items("99999999999999999999999;").is_none());
    assert!(decode_items("1;s2:ab ").is_none());
    assert!(decode_items("1;s2:ab").is_some());
}

#[test]
fn test_users_serialization_round_trip() {
    let mut users = Users::new();
    users
        .add(User {
            id: "work".to_string(),
            name: "Work User".to_string(),
            email: "work@example.com".to_string(),
            sshkey_path: None,
        })
        .unwrap();
    users
        .add(User {
            id: "personal".to_string(),
            name: "Personal User".to_string(),
            email: "personal@example.com".to_string(),
            sshkey_path: Some("/path/to/key".to_string()),
        })
        .unwrap();

    let text = encode_users(&users);
    let back = decode_users(&text).unwrap();
    assert_eq!(back.list().len(), 2);
    let work = back.get("work").unwrap();
    assert_eq!(work.name, "Work User");
    assert_eq!(work.email, "work@example.com");
    assert!(work.sshkey_path.is_none());
    let personal = back.get("personal").unwrap();
    assert_eq!(personal.name, "Personal User");
    assert_eq!(personal.sshkey_path.as_deref(), Some("/path/to/key"));
}

fn duplicate_entry() -> Vec<Item> {
    vec![
        Item::Text("dup".to_string()),
        Item::Text("Name".to_string()),
        Item::Text("mail@example.com".to_string()),
        Item::Flag(false),
        Item::Text("".to_string()),
    ]
}

#[test]
fn test_decode_users_rejects_duplicate_ids() {
    let mut items = vec![Item::Number(2)];
    items.append(&mut duplicate_entry());
    items.append(&mut duplicate_entry());
    let text = encode_items(&items);
    assert!(decode_users(&text).is_none());
}

#[test]
fn test_empty_registry_round_trip() {
    let users = Users::new();
    let text = encode_users(&users);
    let back = decode_users(&text).unwrap();
    assert_eq!(back.list().len(), 0);
}
