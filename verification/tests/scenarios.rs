use gus::AutoSwitchPattern;
use gus::Config;
use gus::GitUserSwitcher;
use gus::GusError;
use gus::User;
use gus::Users;

fn user(id: &str, name: &str, email: &str) -> User {
    User {
        id: id.to_string(),
        name: name.to_string(),
        email: email.to_string(),
        sshkey_path: None,
    }
}

fn registry_work_personal() -> Users {
    let mut users = Users::new();
    users.add(user("work", "Work User", "work@example.com")).unwrap();
    users
        .add(user("personal", "Personal User", "personal@example.com"))
        .unwrap();
    users
}

#[test]
fn test_scenario_directory_picks_identity() {
    let config = Config {
        auto_switch_enabled: true,
        auto_switch_patterns: vec![
            AutoSwitchPattern { pattern: "~/work/*".to_string(), user_id: "work".to_string() },
            AutoSwitchPattern {
                pattern: "~/personal/*".to_string(),
                user_id: "personal".to_string(),
            },
        ],
        ..Config::default()
    };
    let gus = GitUserSwitcher::new(registry_work_personal(), config);

    let script = gus.check_auto_switch("/home/alex/work/proj", Some("/home/alex"));
    assert!(script.is_some());
    assert!(script.unwrap().contains("export GUS_USER_ID=\"work\""));

    assert!(gus.check_auto_switch("/home/alex/other", Some("/home/alex")).is_none());
}

#[test]
fn test_scenario_removed_identity_rule_goes_stale() {
    let config = Config { auto_switch_enabled: true, ..Config::default() };
    let mut users = registry_work_personal();
    users.add(user("ghost", "Ghost User", "ghost@example.com")).unwrap();
    let mut gus = GitUserSwitcher::new(users, config);

    gus.add_auto_switch_pattern("~/haunt/*", "ghost").unwrap();
    assert!(gus
        .check_auto_switch("/home/alex/haunt/attic", Some("/home/alex"))
        .is_some());

    gus.remove_user("ghost").unwrap();
    assert!(gus
        .check_auto_switch("/home/alex/haunt/attic", Some("/home/alex"))
        .is_none());
}

#[test]
fn test_scenario_switch_then_read_current() {
    let gus = GitUserSwitcher::new(registry_work_personal(), Config::default());

    let script = gus.switch_user("work").unwrap();
    assert!(script.contains("export GUS_USER_ID=\"work\""));

    let current = gus.get_current_user(Some("work")).unwrap();
    assert_eq!(current.name, "Work User");
    assert_eq!(current.email, "work@example.com");

    let err = gus.switch_user("missing").unwrap_err();
    assert!(matches!(err, GusError::UnknownIdentity { .. }));

    let still_current = gus.get_current_user(Some("work")).unwrap();
    assert_eq!(still_current.name, "Work User");
}

#[test]
fn test_switch_user_exact_script() {
    let config = Config {
        default_sshkey_dir: "/keys".to_string(),
        ..Config::default()
    };
    let gus = GitUserSwitcher::new(registry_work_personal(), config);
    let script = gus.switch_user("work").unwrap();
    let expected = "export GUS_USER_ID=\"work\"\n\
                    export GIT_AUTHOR_NAME=\"Work User\"\n\
                    export GIT_AUTHOR_EMAIL=\"work@example.com\"\n\
                    export GIT_COMMITTER_NAME=\"Work User\"\n\
                    export GIT_COMMITTER_EMAIL=\"work@example.com\"\n\
                    export GIT_SSH_COMMAND=\"ssh -i /keys/id_work -F /dev/null\"\n";
    assert_eq!(script, expected);
}

#[test]
fn test_add_rule_unknown_identity_leaves_rules_unchanged() {
    let mut gus = GitUserSwitcher::new(registry_work_personal(), Config::default());
    gus.add_auto_switch_pattern("~/w/*", "work").unwrap();

    let err = gus.add_auto_switch_pattern("~/x/*", "nobody").unwrap_err();
    assert!(matches!(err, GusError::UnknownIdentity { .. }));
    let rules = gus.list_auto_switch_patterns();
    assert_eq!(rules.len(), 1);
    assert!(rules.contains(&("~/w/*", "work")));
}

#[test]
fn test_add_rule_invalid_glob_leaves_rules_unchanged() {
    let mut gus = GitUserSwitcher::new(registry_work_personal(), Config::default());
    gus.add_auto_switch_pattern("~/w/*", "work").unwrap();

    let err = gus.add_auto_switch_pattern("invalid[", "work").unwrap_err();
    assert!(matches!(err, GusError::InvalidPattern { .. }));
    let rules = gus.list_auto_switch_patterns();
    assert_eq!(rules.len(), 1);
}

#[test]
fn test_remove_rule_removes_exactly_one() {
    let mut gus = GitUserSwitcher::new(registry_work_personal(), Config::default());
    gus.add_auto_switch_pattern("~/w/*", "work").unwrap();
    gus.add_auto_switch_pattern("~/w/*", "personal").unwrap();

    assert!(gus.remove_auto_switch_pattern("~/w/*"));
    let rules = gus.list_auto_switch_patterns();
    assert_eq!(rules.len(), 1);
    assert!(rules.contains(&("~/w/*", "personal")));

    assert!(!gus.remove_auto_switch_pattern("~/absent/*"));
    assert_eq!(gus.list_auto_switch_patterns().len(), 1);
}

#[test]
fn test_enable_disable_auto_switch() {
    let mut gus = GitUserSwitcher::new(registry_work_personal(), Config::default());
    assert!(!gus.config.auto_switch_enabled);
    gus.enable_auto_switch();
    assert!(gus.config.auto_switch_enabled);
    gus.disable_auto_switch();
    assert!(!gus.config.auto_switch_enabled);
}

#[test]
fn test_add_user_demands_passphrase_for_new_key() {
    let mut gus = GitUserSwitcher::new(Users::new(), Config::default());

    let err = gus
        .add_user(user("a", "A", "a@example.com"), Some("short"), false)
        .unwrap_err();
    assert!(matches!(err, GusError::PassphraseTooShort { minimum: 10 }));

    let err = gus.add_user(user("a", "A", "a@example.com"), None, false).unwrap_err();
    assert!(matches!(err, GusError::PassphraseTooShort { minimum: 10 }));
    assert!(!gus.exists_user("a"));

    let request = gus
        .add_user(user("a", "A", "a@example.com"), Some("long enough pass"), false)
        .unwrap()
        .unwrap();
    assert_eq!(request.key_name, "id_a");
    assert_eq!(request.key_path, ".gus/sshkeys/id_a");
    assert_eq!(request.passphrase, "long enough pass");
    assert!(gus.exists_user("a"));

    let err = gus
        .add_user(user("a", "A", "a@example.com"), Some("long enough pass"), false)
        .unwrap_err();
    assert!(matches!(err, GusError::DuplicateIdentity { .. }));

    let no_request = gus.add_user(user("b", "B", "b@example.com"), None, true).unwrap();
    assert!(no_request.is_none());
}

#[test]
fn test_remove_user_unknown_id_fails() {
    let mut gus = GitUserSwitcher::new(registry_work_personal(), Config::default());
    let err = gus.remove_user("missing").unwrap_err();
    assert!(matches!(err, GusError::UnknownIdentity { .. }));
    assert_eq!(gus.list_users().len(), 2);
    gus.remove_user("work").unwrap();
    assert_eq!(gus.list_users().len(), 1);
}

#[test]
fn test_public_sshkey_path() {
    let config = Config { default_sshkey_dir: "/keys".to_string(), ..Config::default() };
    let mut users = registry_work_personal();
    users
        .add(User {
            id: "explicit".to_string(),
            name: "E".to_string(),
            email: "e@example.com".to_string(),
            sshkey_path: Some("/path/to/id.rsa".to_string()),
        })
        .unwrap();
    let gus = GitUserSwitcher::new(users, config);

    assert_eq!(gus.public_sshkey_path("work").unwrap(), "/keys/id_work.pub");
    assert_eq!(gus.public_sshkey_path("explicit").unwrap(), "/path/to/id.pub");
    assert!(gus.public_sshkey_path("missing").is_err());
}

#[test]
fn test_setup_script_exact_minimal() {
    let config = Config {
        force_use_gus: false,
        auto_switch_enabled: false,
        ..Config::default()
    };
    let gus = GitUserSwitcher::new(Users::new(), config);
    let script = gus.get_setup_script("gus", "/usr/bin/gus", "/tmp/gus/session9.sh");
    let expected = "if [ -z ${GUS_LOADED_FLAG} ]; then\n\
                    export GUS_LOADED_FLAG=1\n\
                    rm -f \"/tmp/gus/session9.sh\"\n\
                    function gus() {\n\
                    \"/usr/bin/gus\" \"$@\"\n\
                    status=$?\n\
                    if [ $status -ne 0 ]; then\n\
                    return $status\n\
                    fi\n\
                    source \"/tmp/gus/session9.sh\"\n\
                    }\n\
                    git() {\n\
                    command git \"$@\";\n\
                    }\n\
                    fi\n";
    assert_eq!(script, expected);
}

#[test]
fn test_setup_script_includes_configured_hooks() {
    let config = Config {
        force_use_gus: true,
        auto_switch_enabled: true,
        ..Config::default()
    };
    let gus = GitUserSwitcher::new(Users::new(), config);
    let script = gus.get_setup_script("gus", "/usr/bin/gus", "/tmp/gus/session9.sh");
    assert!(script.contains("The use of GUS is mandatory"));
    assert!(script.contains("gus auto-switch check;"));
    assert!(script.contains("command cd \"$@\";"));
}

#[test]
fn test_error_kind_names() {
    assert_eq!(
        GusError::UnknownIdentity { id: "x".to_string() }.kind_name(),
        "unknown identity"
    );
    assert_eq!(
        GusError::DuplicateIdentity { id: "x".to_string() }.kind_name(),
        "duplicate identity"
    );
    assert_eq!(
        GusError::InvalidPattern { pattern: "[".to_string(), message: "m".to_string() }
            .kind_name(),
        "invalid pattern"
    );
    assert_eq!(
        GusError::IoError { message: "m".to_string() }.kind_name(),
        "io error"
    );
    assert_eq!(
        GusError::PassphraseTooShort { minimum: 10 }.kind_name(),
        "passphrase too short"
    );
}
