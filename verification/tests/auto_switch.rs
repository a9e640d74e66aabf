use gus::AutoSwitchPattern;
use gus::AutoSwitcher;
use gus::Config;
use gus::User;
use gus::Users;

fn create_test_config() -> Config {
    Config {
        auto_switch_enabled: true,
        auto_switch_patterns: vec![
            AutoSwitchPattern { pattern: "~/work/*".to_string(), user_id: "work".to_string() },
            AutoSwitchPattern {
                pattern: "~/personal/*".to_string(),
                user_id: "personal".to_string(),
            },
        ],
        ..Config::default()
    }
}

fn create_test_users() -> Users {
    let mut users = Users::new();
    users
        .add(User {
            id: "work".to_string(),
            name: "Work User".to_string(),
            email: "work@example.com".to_string(),
            sshkey_path: None,
        })
        .unwrap();
    users
        .add(User {
            id: "personal".to_string(),
            name: "Personal User".to_string(),
            email: "personal@example.com".to_string(),
            sshkey_path: None,
        })
        .unwrap();
    users
}

#[test]
fn test_should_switch() {
    let config = create_test_config();
    let users = create_test_users();
    let switcher = AutoSwitcher::new(&config, users);

    let home = dirs::home_dir().unwrap();
    let home_str = home.to_string_lossy().to_string();
    let work_path = home.join("work/project").to_string_lossy().to_string();
    let personal_path = home.join("personal/project").to_string_lossy().to_string();
    let other_path = home.join("other").to_string_lossy().to_string();

    assert_eq!(
        switcher.should_switch(&work_path, Some(&home_str)),
        Some("work".to_string())
    );
    assert_eq!(
        switcher.should_switch(&personal_path, Some(&home_str)),
        Some("personal".to_string())
    );
    assert_eq!(switcher.should_switch(&other_path, Some(&home_str)), None);
}

#[test]
fn test_add_pattern() {
    let config = create_test_config();
    let users = create_test_users();
    let mut switcher = AutoSwitcher::new(&config, users);

    assert!(switcher
        .add_pattern("~/new/*".to_string(), "work".to_string())
        .is_ok());

    assert!(switcher
        .add_pattern("~/new/*".to_string(), "invalid".to_string())
        .is_err());

    assert!(switcher
        .add_pattern("invalid[".to_string(), "work".to_string())
        .is_err());
}

#[test]
fn test_remove_pattern() {
    let config = create_test_config();
    let users = create_test_users();
    let mut switcher = AutoSwitcher::new(&config, users);

    assert!(switcher.remove_pattern("~/work/*"));
    assert!(!switcher.remove_pattern("~/nonexistent/*"));
}

#[test]
fn test_list_patterns() {
    let config = create_test_config();
    let users = create_test_users();
    let switcher = AutoSwitcher::new(&config, users);

    let patterns = switcher.list_patterns();
    assert_eq!(patterns.len(), 2);
    assert!(patterns.contains(&("~/work/*", "work")));
    assert!(patterns.contains(&("~/personal/*", "personal")));
}

#[test]
fn test_should_switch_disabled_returns_none() {
    let config = Config {
        auto_switch_enabled: false,
        auto_switch_patterns: vec![AutoSwitchPattern {
            pattern: "/w/*".to_string(),
            user_id: "work".to_string(),
        }],
        ..Config::default()
    };
    let users = create_test_users();
    let switcher = AutoSwitcher::new(&config, users);
    assert_eq!(switcher.should_switch("/w/x", None), None);
}

#[test]
fn test_should_switch_first_match_wins() {
    let config = Config {
        auto_switch_enabled: true,
        auto_switch_patterns: vec![
            AutoSwitchPattern { pattern: "/w/*".to_string(), user_id: "work".to_string() },
            AutoSwitchPattern { pattern: "/w/*".to_string(), user_id: "personal".to_string() },
        ],
        ..Config::default()
    };
    let users = create_test_users();
    let switcher = AutoSwitcher::new(&config, users);
    assert_eq!(switcher.should_switch("/w/x", None), Some("work".to_string()));
}

#[test]
fn test_should_switch_skips_invalid_and_stale_rules() {
    let config = Config {
        auto_switch_enabled: true,
        auto_switch_patterns: vec![
            AutoSwitchPattern { pattern: "bad[".to_string(), user_id: "work".to_string() },
            AutoSwitchPattern { pattern: "/w/*".to_string(), user_id: "gone".to_string() },
            AutoSwitchPattern { pattern: "/w/*".to_string(), user_id: "personal".to_string() },
        ],
        ..Config::default()
    };
    let users = create_test_users();
    let switcher = AutoSwitcher::new(&config, users);
    assert_eq!(
        switcher.should_switch("/w/x", None),
        Some("personal".to_string())
    );
}

#[test]
fn test_should_switch_tilde_without_home_never_matches() {
    let config = create_test_config();
    let users = create_test_users();
    let switcher = AutoSwitcher::new(&config, users);
    assert_eq!(switcher.should_switch("~/work/project", None), None);
}

#[test]
fn test_should_switch_empty_rule_list() {
    let config = Config { auto_switch_enabled: true, ..Config::default() };
    let users = create_test_users();
    let switcher = AutoSwitcher::new(&config, users);
    assert_eq!(switcher.should_switch("/anything", Some("/home/u")), None);
}
