use gus::AutoSwitchPattern;
use gus::Config;
use gus::SshKeyType;
use gus::decode_config;
use gus::encode_config;

#[test]
fn test_config_default() {
    let config = Config::default();
    assert_eq!(config.default_sshkey_type, SshKeyType::Ed25519);
    assert_eq!(config.default_sshkey_rounds, 100);
    assert!(config.force_use_gus);
    assert_eq!(config.min_sshkey_passphrase_length, 10);
}

#[test]
fn test_config_serialization() {
    let config = Config::default();
    let serialized = encode_config(&config);
    let deserialized: Config = decode_config(&serialized).unwrap();

    assert_eq!(config.default_sshkey_type, deserialized.default_sshkey_type);
    assert_eq!(config.default_sshkey_rounds, deserialized.default_sshkey_rounds);
    assert_eq!(config.force_use_gus, deserialized.force_use_gus);
    assert_eq!(
        config.min_sshkey_passphrase_length,
        deserialized.min_sshkey_passphrase_length
    );
}

#[test]
fn test_config_round_trip_all_fields() {
    let config = Config {
        users_file_path: "/data/users.toml".to_string(),
        default_sshkey_dir: "/data/keys".to_string(),
        default_sshkey_type: SshKeyType::Rsa,
        default_sshkey_rounds: 200,
        force_use_gus: false,
        min_sshkey_passphrase_length: 0,
        auto_switch_enabled: true,
        auto_switch_patterns: vec![
            AutoSwitchPattern { pattern: "~/w:ork/*".to_string(), user_id: "wo;rk".to_string() },
            AutoSwitchPattern { pattern: "".to_string(), user_id: "p".to_string() },
        ],
    };
    let text = encode_config(&config);
    let back = decode_config(&text).unwrap();
    assert_eq!(back.users_file_path, "/data/users.toml");
    assert_eq!(back.default_sshkey_dir, "/data/keys");
    assert_eq!(back.default_sshkey_type, SshKeyType::Rsa);
    assert_eq!(back.default_sshkey_rounds, 200);
    assert!(!back.force_use_gus);
    assert_eq!(back.min_sshkey_passphrase_length, 0);
    assert!(back.auto_switch_enabled);
    assert_eq!(back.auto_switch_patterns.len(), 2);
    assert_eq!(back.auto_switch_patterns[0].pattern, "~/w:ork/*");
    assert_eq!(back.auto_switch_patterns[0].user_id, "wo;rk");
    assert_eq!(back.auto_switch_patterns[1].pattern, "");
    assert_eq!(back.auto_switch_patterns[1].user_id, "p");
}

#[test]
fn test_decode_config_rejects_garbage() {
    assert!(decode_config("").is_none());
    assert!(decode_config("not a document").is_none());
    assert!(decode_config("8;").is_none());
    let good = encode_config(&Config::default());
    let mut trailing = good.clone();
    trailing.push('x');
    assert!(decode_config(&trailing).is_none());
    assert!(decode_config(&good).is_some());
}
