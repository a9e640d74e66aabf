use vstd::prelude::*;

verus! {

/// The algorithm a newly generated key pair uses. Generation itself is an
/// external collaborator; the configuration only records the choice.
#[derive(Clone, Copy, Debug, PartialEq, Eq, Structural)]
pub enum SshKeyType {
    Ed25519,
    Rsa,
}

/// One auto-switch rule: a directory glob (stored verbatim, a leading `~`
/// included) and the id of the identity it selects.
pub struct AutoSwitchPattern {
    pub pattern: String,
    pub user_id: String,
}

/// The mathematical value of an `AutoSwitchPattern`.
pub ghost struct AutoSwitchPatternV {
    pub pattern: Seq<char>,
    pub user_id: Seq<char>,
}

impl View for AutoSwitchPattern {
    type V = AutoSwitchPatternV;

    open spec fn view(&self) -> AutoSwitchPatternV {
        AutoSwitchPatternV { pattern: self.pattern@, user_id: self.user_id@ }
    }
}

impl Clone for AutoSwitchPattern {
    fn clone(&self) -> (r: Self)
        ensures
            r@ == self@,
    {
        AutoSwitchPattern { pattern: self.pattern.clone(), user_id: self.user_id.clone() }
    }
}

/// Process-wide configuration: where the persisted state lives, the key
/// generation defaults, and the ordered auto-switch rule list.
pub struct Config {
    pub users_file_path: String,
    pub default_sshkey_dir: String,
    pub default_sshkey_type: SshKeyType,
    pub default_sshkey_rounds: usize,
    pub force_use_gus: bool,
    pub min_sshkey_passphrase_length: usize,
    pub auto_switch_enabled: bool,
    pub auto_switch_patterns: Vec<AutoSwitchPattern>,
}

/// The mathematical value of a `Config`: every field as a plain value.
pub ghost struct ConfigV {
    pub users_file_path: Seq<char>,
    pub default_sshkey_dir: Seq<char>,
    pub default_sshkey_type: SshKeyType,
    pub default_sshkey_rounds: usize,
    pub force_use_gus: bool,
    pub min_sshkey_passphrase_length: usize,
    pub auto_switch_enabled: bool,
    pub auto_switch_patterns: Seq<AutoSwitchPatternV>,
}

impl View for Config {
    type V = ConfigV;

    open spec fn view(&self) -> ConfigV {
        ConfigV {
            users_file_path: self.users_file_path@,
            default_sshkey_dir: self.default_sshkey_dir@,
            default_sshkey_type: self.default_sshkey_type,
            default_sshkey_rounds: self.default_sshkey_rounds,
            force_use_gus: self.force_use_gus,
            min_sshkey_passphrase_length: self.min_sshkey_passphrase_length,
            auto_switch_enabled: self.auto_switch_enabled,
            auto_switch_patterns: self.auto_switch_patterns@.map(
                |i: int, p: AutoSwitchPattern| p@,
            ),
        }
    }
}

impl Default for Config {
    /// The configuration a first run starts from: paths relative to the
    /// data directory, an Ed25519 key of 100 rounds, mandatory use of the
    /// wrapper, a ten-character passphrase floor, and auto-switch off with
    /// no rules. Callers that know the data directory resolve the two
    /// paths against it.
    fn default() -> (r: Self)
        ensures
            r@.users_file_path == ".gus/users.toml"@,
            r@.default_sshkey_dir == ".gus/sshkeys/"@,
            r@.default_sshkey_type == SshKeyType::Ed25519,
            r@.default_sshkey_rounds == 100,
            r@.force_use_gus == true,
            r@.min_sshkey_passphrase_length == 10,
            r@.auto_switch_enabled == false,
            r@.auto_switch_patterns =~= Seq::<AutoSwitchPatternV>::empty(),
    {
        Config {
            users_file_path: ".gus/users.toml".to_owned(),
            default_sshkey_dir: ".gus/sshkeys/".to_owned(),
            default_sshkey_type: SshKeyType::Ed25519,
            default_sshkey_rounds: 100,
            force_use_gus: true,
            min_sshkey_passphrase_length: 10,
            auto_switch_enabled: false,
            auto_switch_patterns: Vec::new(),
        }
    }
}

} // verus!
