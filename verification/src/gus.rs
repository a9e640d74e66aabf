use vstd::prelude::*;

use crate::auto_switch::glob_check;
use crate::auto_switch::resolve_patterns;
use crate::auto_switch::spec_home;
use crate::auto_switch::spec_resolve;
use crate::auto_switch::users_contain_id;
use crate::config::AutoSwitchPattern;
use crate::config::AutoSwitchPatternV;
use crate::config::Config;
use crate::config::ConfigV;
use crate::config::SshKeyType;
use crate::errors::GusError;
use crate::shell::spec_setup_script;
use crate::user::User;
use crate::user::UserV;
use crate::user::Users;
use crate::user::spec_sshkey_name;
use crate::user::spec_sshkey_path;

verus! {

/// What a key pair still to be generated should look like. Generation is an
/// external collaborator's job; adding a user hands one of these back when
/// no key file exists yet.
#[derive(Debug)]
pub struct KeyGenRequest {
    pub key_type: SshKeyType,
    pub rounds: usize,
    pub key_name: String,
    pub passphrase: String,
    pub key_path: String,
}

/// The environment-variable exports that make an identity active: the
/// active-identity id, the author and committer name and email pairs, and a
/// transport override naming the identity's key.
pub open spec fn spec_switch_script(u: UserV, default_sshkey_dir: Seq<char>) -> Seq<char> {
    "export GUS_USER_ID=\""@ + u.id + "\"\nexport GIT_AUTHOR_NAME=\""@ + u.name
        + "\"\nexport GIT_AUTHOR_EMAIL=\""@ + u.email + "\"\nexport GIT_COMMITTER_NAME=\""@
        + u.name + "\"\nexport GIT_COMMITTER_EMAIL=\""@ + u.email
        + "\"\nexport GIT_SSH_COMMAND=\"ssh -i "@ + spec_sshkey_path(u, default_sshkey_dir)
        + " -F /dev/null\"\n"@
}

/// The identity-enforcement fragment of the setup script: until an identity
/// is active, an invocation of the tool first demands that one be chosen.
pub open spec fn spec_force_use_script(app_name: Seq<char>) -> Seq<char> {
    "if [ -z \"$GUS_USER_ID\" ]; then\necho The use of GUS is mandatory. Users who have not yet registered their information in GUS should use 'gus add' to register their information.;\necho === Available users: ===;\n"@
        + app_name
        + " list;\necho ========================;\necho -n \"Enter user id: \";\nread user_id;\n"@
        + app_name + " set \"$user_id\";\nstatus=$?;\nif [ $status -ne 0 ]; then\nreturn $status;\nfi;\nfi;\n"@
}

/// The auto-switch hook of the setup script: a wrapper around the
/// directory-change builtin that re-evaluates the rules after every change.
pub open spec fn spec_auto_switch_hook(app_name: Seq<char>) -> Seq<char> {
    "cd() {\n                command cd \"$@\";\n                "@ + app_name
        + " auto-switch check;\n            }\n"@
}

/// The extra fragment the switcher injects into the setup script: the
/// wrapper around the external tool (with identity enforcement when the
/// configuration demands it) and, when auto-switch is on, the
/// directory-change hook.
pub open spec fn spec_setup_extra(c: ConfigV, app_name: Seq<char>) -> Seq<char> {
    "git() {\n"@ + (if c.force_use_gus {
        spec_force_use_script(app_name)
    } else {
        Seq::<char>::empty()
    }) + "command git \"$@\";\n}\n"@ + (if c.auto_switch_enabled {
        spec_auto_switch_hook(app_name)
    } else {
        Seq::<char>::empty()
    })
}

/// The orchestrator: the identity registry and the configuration, mutated
/// in memory. Loading them from disk and writing them back, key
/// generation, and the session-channel file write are the callers' I/O.
pub struct GitUserSwitcher {
    pub users: Users,
    pub config: Config,
}

impl GitUserSwitcher {
    pub fn new(users: Users, config: Config) -> (r: Self)
        ensures
            r.users == users,
            r.config == config,
    {
        GitUserSwitcher { users, config }
    }

    /// Registers a new identity. When no key file exists yet (the caller
    /// checked), a passphrase at least as long as the configured minimum is
    /// demanded and a generation request for the identity's key is handed
    /// back; the caller generates the key and persists the registry.
    pub fn add_user(&mut self, user: User, sshkey_passphrase: Option<&str>, sshkey_exists: bool)
        -> (r: Result<Option<KeyGenRequest>, GusError>)
        requires
            old(self).users.wf(),
        ensures
            final(self).config == old(self).config,
            final(self).users.wf(),
            match r {
                Ok(req) => {
                    &&& !old(self).users.contains_id(user.id@)
                    &&& final(self).users@ == old(self).users@.push(user@)
                    &&& match req {
                        Some(k) => {
                            &&& !sshkey_exists
                            &&& k.key_type == old(self).config@.default_sshkey_type
                            &&& k.rounds == old(self).config@.default_sshkey_rounds
                            &&& k.key_name@ == spec_sshkey_name(user@)
                            &&& k.key_path@ == spec_sshkey_path(
                                user@,
                                old(self).config@.default_sshkey_dir,
                            )
                            &&& sshkey_passphrase matches Some(p) && k.passphrase@ == p@ && p@.len()
                                >= old(self).config@.min_sshkey_passphrase_length
                        },
                        None => sshkey_exists,
                    }
                },
                Err(e) => final(self).users@ == old(self).users@ && match e {
                    GusError::DuplicateIdentity { id } => id@ == user.id@ && old(
                        self,
                    ).users.contains_id(user.id@),
                    GusError::PassphraseTooShort { minimum } => {
                        &&& !old(self).users.contains_id(user.id@)
                        &&& !sshkey_exists
                        &&& minimum == old(self).config@.min_sshkey_passphrase_length
                        &&& match sshkey_passphrase {
                            Some(p) => p@.len() < minimum,
                            None => true,
                        }
                    },
                    _ => false,
                },
            },
    {
        if self.users.exists_id(user.id.as_str()) {
            return Err(GusError::DuplicateIdentity { id: user.id.clone() });
        }
        if sshkey_exists {
            let result = self.users.add(user);
            proof {
                assert(result is Ok);
            }
            return Ok(None);
        }
        let minimum = self.config.min_sshkey_passphrase_length;
        match sshkey_passphrase {
            None => Err(GusError::PassphraseTooShort { minimum }),
            Some(pass) => {
                if pass.unicode_len() < minimum {
                    return Err(GusError::PassphraseTooShort { minimum });
                }
                let key_name = user.get_sshkey_name();
                let key_path = user.get_sshkey_path(self.config.default_sshkey_dir.as_str());
                let request = KeyGenRequest {
                    key_type: self.config.default_sshkey_type,
                    rounds: self.config.default_sshkey_rounds,
                    key_name,
                    passphrase: pass.to_owned(),
                    key_path,
                };
                let result = self.users.add(user);
                proof {
                    assert(result is Ok);
                }
                Ok(Some(request))
            },
        }
    }

    /// Removes an identity by id; unknown ids are refused and leave the
    /// registry unchanged. The caller persists the registry on success.
    pub fn remove_user(&mut self, id: &str) -> (r: Result<(), GusError>)
        requires
            old(self).users.wf(),
        ensures
            final(self).config == old(self).config,
            final(self).users.wf(),
            match r {
                Ok(()) => {
                    let i = old(self).users.index_of_id(id@);
                    &&& old(self).users.contains_id(id@)
                    &&& 0 <= i < old(self).users@.len()
                    &&& final(self).users@ == old(self).users@.remove(i)
                },
                Err(e) => !old(self).users.contains_id(id@) && final(self).users@ == old(
                    self,
                ).users@ && (e matches GusError::UnknownIdentity { id: eid } && eid@ == id@),
            },
    {
        if !self.users.exists_id(id) {
            return Err(GusError::UnknownIdentity { id: id.to_owned() });
        }
        let removed = self.users.remove(id);
        proof {
            assert(removed is Some);
        }
        Ok(())
    }

    /// The script that makes an identity active, to be written to the
    /// session channel: the canonical exports for the identity, or
    /// `UnknownIdentity` when the id is not in the registry.
    pub fn switch_user(&self, id: &str) -> (r: Result<String, GusError>)
        ensures
            match r {
                Ok(script) => self.users.contains_id(id@) && exists|i: int|
                    0 <= i < self.users@.len() && self.users@[i].id == id@ && script@
                        == spec_switch_script(
                        #[trigger] self.users@[i],
                        self.config@.default_sshkey_dir,
                    ),
                Err(e) => !self.users.contains_id(id@) && (e matches GusError::UnknownIdentity {
                    id: eid,
                } && eid@ == id@),
            },
    {
        let found = self.users.get(id);
        match found {
            None => Err(GusError::UnknownIdentity { id: id.to_owned() }),
            Some(user) => {
                let ghost uv = user@;
                let key_path = user.get_sshkey_path(self.config.default_sshkey_dir.as_str());
                let mut s = "export GUS_USER_ID=\"".to_owned();
                s.append(user.id.as_str());
                s.append("\"\nexport GIT_AUTHOR_NAME=\"");
                s.append(user.name.as_str());
                s.append("\"\nexport GIT_AUTHOR_EMAIL=\"");
                s.append(user.email.as_str());
                s.append("\"\nexport GIT_COMMITTER_NAME=\"");
                s.append(user.name.as_str());
                s.append("\"\nexport GIT_COMMITTER_EMAIL=\"");
                s.append(user.email.as_str());
                s.append("\"\nexport GIT_SSH_COMMAND=\"ssh -i ");
                s.append(key_path.as_str());
                s.append(" -F /dev/null\"\n");
                proof {
                    let i = choose|i: int|
                        0 <= i < self.users@.len() && self.users@[i] == uv;
                    assert(s@ == spec_switch_script(self.users@[i],
                        self.config@.default_sshkey_dir));
                }
                Ok(s)
            },
        }
    }

    /// The active identity, given the value of the active-identity
    /// environment variable (the caller reads it): the matching registry
    /// entry, or nothing when the variable is unset or names an identity no
    /// longer present. An unset variable looks up the empty id, which no
    /// registered identity is expected to carry.
    pub fn get_current_user(&self, active_id: Option<&str>) -> (r: Option<&User>)
        ensures
            match r {
                Some(u) => self.users.contains_id(spec_active_key(active_id)) && u.id@
                    == spec_active_key(active_id) && self.users@.contains(u@),
                None => !self.users.contains_id(spec_active_key(active_id)),
            },
    {
        match active_id {
            Some(id) => self.users.get(id),
            None => {
                let r = self.users.get("");
                proof {
                    reveal_strlit("");
                    assert(""@ =~= Seq::<char>::empty());
                }
                r
            },
        }
    }

    /// Every registered identity, in registry order.
    pub fn list_users(&self) -> (r: Vec<&User>)
        ensures
            r@.len() == self.users@.len(),
            forall|i: int| 0 <= i < r@.len() ==> r@[i]@ == self.users@[i],
    {
        self.users.list()
    }

    pub fn exists_user(&self, id: &str) -> (r: bool)
        ensures
            r == self.users.contains_id(id@),
    {
        self.users.exists_id(id)
    }

    /// Where the public half of an identity's key lives: the key path with
    /// a `pub` extension. Reading the file is the caller's I/O;
    /// `UnknownIdentity` when the id is not in the registry.
    pub fn public_sshkey_path(&self, id: &str) -> (r: Result<String, GusError>)
        ensures
            match r {
                Ok(path) => self.users.contains_id(id@) && exists|i: int|
                    0 <= i < self.users@.len() && (#[trigger] self.users@[i]).id == id@ && path@
                        == crate::user::with_pub_extension(
                        spec_sshkey_path(self.users@[i], self.config@.default_sshkey_dir),
                    ),
                Err(e) => !self.users.contains_id(id@) && (e matches GusError::UnknownIdentity {
                    id: eid,
                } && eid@ == id@),
            },
    {
        let found = self.users.get(id);
        match found {
            None => Err(GusError::UnknownIdentity { id: id.to_owned() }),
            Some(user) => {
                let ghost uv = user@;
                let key_path = user.get_sshkey_path(self.config.default_sshkey_dir.as_str());
                let pub_path = crate::user::path_with_pub_extension(key_path.as_str());
                proof {
                    let i = choose|i: int|
                        0 <= i < self.users@.len() && self.users@[i] == uv;
                    assert(self.users@[i].id == id@);
                    assert(pub_path@ == crate::user::with_pub_extension(
                        spec_sshkey_path(self.users@[i], self.config@.default_sshkey_dir),
                    ));
                }
                Ok(pub_path)
            },
        }
    }

    /// Turns the auto-switch feature on; the caller persists the
    /// configuration.
    pub fn enable_auto_switch(&mut self)
        ensures
            final(self).users == old(self).users,
            final(self).config@ == (ConfigV { auto_switch_enabled: true, ..old(self).config@ }),
    {
        self.config.auto_switch_enabled = true;
    }

    /// Turns the auto-switch feature off; the caller persists the
    /// configuration.
    pub fn disable_auto_switch(&mut self)
        ensures
            final(self).users == old(self).users,
            final(self).config@ == (ConfigV { auto_switch_enabled: false, ..old(self).config@ }),
    {
        self.config.auto_switch_enabled = false;
    }

    /// Appends an auto-switch rule after validating it: the identity must
    /// exist and the pattern must be glob syntax. On failure nothing
    /// changes. The caller persists the configuration on success.
    pub fn add_auto_switch_pattern(&mut self, pattern: &str, user_id: &str) -> (r: Result<
        (),
        GusError,
    >)
        ensures
            final(self).users == old(self).users,
            match r {
                Ok(()) => {
                    &&& old(self).users.contains_id(user_id@)
                    &&& crate::auto_switch::glob_pattern_ok(pattern@)
                    &&& final(self).config@ == (ConfigV {
                        auto_switch_patterns: old(self).config@.auto_switch_patterns.push(
                            AutoSwitchPatternV { pattern: pattern@, user_id: user_id@ },
                        ),
                        ..old(self).config@
                    })
                },
                Err(e) => final(self).config@ == old(self).config@ && match e {
                    GusError::UnknownIdentity { id } => id@ == user_id@ && !old(
                        self,
                    ).users.contains_id(user_id@),
                    GusError::InvalidPattern { pattern: p, message: _ } => p@ == pattern@ && old(
                        self,
                    ).users.contains_id(user_id@) && !crate::auto_switch::glob_pattern_ok(pattern@),
                    _ => false,
                },
            },
    {
        if !self.users.exists_id(user_id) {
            return Err(GusError::UnknownIdentity { id: user_id.to_owned() });
        }
        match glob_check(pattern) {
            Some(message) => Err(GusError::InvalidPattern { pattern: pattern.to_owned(), message }),
            None => {
                self.config.auto_switch_patterns.push(
                    AutoSwitchPattern { pattern: pattern.to_owned(), user_id: user_id.to_owned() },
                );
                proof {
                    assert(self.config@.auto_switch_patterns =~= old(
                        self,
                    ).config@.auto_switch_patterns.push(
                        AutoSwitchPatternV { pattern: pattern@, user_id: user_id@ },
                    ));
                    assert(self.config@ == (ConfigV {
                        auto_switch_patterns: old(self).config@.auto_switch_patterns.push(
                            AutoSwitchPatternV { pattern: pattern@, user_id: user_id@ },
                        ),
                        ..old(self).config@
                    }));
                }
                Ok(())
            },
        }
    }

    /// Removes the first rule whose pattern string is exactly the given
    /// one; reports whether one was found (and nothing changes otherwise).
    /// The caller persists the configuration on a `true` answer.
    pub fn remove_auto_switch_pattern(&mut self, pattern: &str) -> (r: bool)
        ensures
            final(self).users == old(self).users,
            r ==> exists|i: int|
                {
                    &&& 0 <= i < old(self).config@.auto_switch_patterns.len()
                    &&& (#[trigger] old(self).config@.auto_switch_patterns[i]).pattern == pattern@
                    &&& (forall|j: int|
                        0 <= j < i ==> old(self).config@.auto_switch_patterns[j].pattern
                            != pattern@)
                    &&& final(self).config@ == (ConfigV {
                        auto_switch_patterns: old(self).config@.auto_switch_patterns.remove(i),
                        ..old(self).config@
                    })
                },
            !r ==> *final(self) == *old(self) && (forall|i: int|
                0 <= i < old(self).config@.auto_switch_patterns.len() ==> (#[trigger] old(
                    self,
                ).config@.auto_switch_patterns[i]).pattern != pattern@),
    {
        let n = self.config.auto_switch_patterns.len();
        let mut i: usize = 0;
        while i < n
            invariant
                *self == *old(self),
                n == self.config@.auto_switch_patterns.len(),
                n == self.config.auto_switch_patterns@.len(),
                0 <= i <= n,
                forall|j: int|
                    0 <= j < i ==> self.config@.auto_switch_patterns[j].pattern != pattern@,
            decreases n - i,
        {
            if crate::strutil::str_eq(
                self.config.auto_switch_patterns[i].pattern.as_str(),
                pattern,
            ) {
                self.config.auto_switch_patterns.remove(i);
                proof {
                    assert(self.config@.auto_switch_patterns =~= old(
                        self,
                    ).config@.auto_switch_patterns.remove(i as int));
                    assert(self.config@ == (ConfigV {
                        auto_switch_patterns: old(self).config@.auto_switch_patterns.remove(
                            i as int,
                        ),
                        ..old(self).config@
                    }));
                    assert({
                        &&& 0 <= (i as int) && (i as int) < old(
                            self,
                        ).config@.auto_switch_patterns.len()
                        &&& (old(self).config@.auto_switch_patterns[i as int]).pattern == pattern@
                        &&& (forall|j: int|
                            0 <= j < (i as int) ==> old(
                                self,
                            ).config@.auto_switch_patterns[j].pattern != pattern@)
                        &&& final(self).config@ == (ConfigV {
                            auto_switch_patterns: old(self).config@.auto_switch_patterns.remove(
                                i as int,
                            ),
                            ..old(self).config@
                        })
                    });
                }
                return true;
            }
            i += 1;
        }
        false
    }

    /// Every stored rule, as (pattern, identity id) pairs, in order.
    pub fn list_auto_switch_patterns(&self) -> (r: Vec<(&str, &str)>)
        ensures
            r@.len() == self.config@.auto_switch_patterns.len(),
            forall|i: int|
                0 <= i < r@.len() ==> r@[i].0@ == self.config@.auto_switch_patterns[i].pattern
                    && r@[i].1@ == self.config@.auto_switch_patterns[i].user_id,
    {
        let n = self.config.auto_switch_patterns.len();
        let mut out: Vec<(&str, &str)> = Vec::new();
        let mut i: usize = 0;
        while i < n
            invariant
                n == self.config@.auto_switch_patterns.len(),
                n == self.config.auto_switch_patterns@.len(),
                0 <= i <= n,
                out@.len() == i,
                forall|j: int|
                    0 <= j < i ==> out@[j].0@ == self.config@.auto_switch_patterns[j].pattern
                        && out@[j].1@ == self.config@.auto_switch_patterns[j].user_id,
            decreases n - i,
        {
            let rule = &self.config.auto_switch_patterns[i];
            out.push((rule.pattern.as_str(), rule.user_id.as_str()));
            i += 1;
        }
        out
    }

    /// Re-evaluates the auto-switch rules against the current directory
    /// (the caller reads it, and the home directory): the switch script for
    /// the selected identity, or nothing when the feature is off or no rule
    /// fires. The caller writes the script to the session channel.
    pub fn check_auto_switch(&self, current_dir: &str, home: Option<&str>) -> (r: Option<String>)
        ensures
            match r {
                Some(script) => {
                    &&& self.config@.auto_switch_enabled
                    &&& exists|i: int|
                        {
                            &&& 0 <= i < self.users@.len()
                            &&& spec_resolve(
                                self.config@.auto_switch_patterns,
                                current_dir@,
                                spec_home(home),
                                self.users@,
                            ) == Some((#[trigger] self.users@[i]).id)
                            &&& script@ == spec_switch_script(
                                self.users@[i],
                                self.config@.default_sshkey_dir,
                            )
                        }
                },
                None => !self.config@.auto_switch_enabled || spec_resolve(
                    self.config@.auto_switch_patterns,
                    current_dir@,
                    spec_home(home),
                    self.users@,
                ) is None,
            },
    {
        if !self.config.auto_switch_enabled {
            return None;
        }
        let resolved = resolve_patterns(&self.config.auto_switch_patterns, &self.users,
            current_dir, home);
        match resolved {
            None => None,
            Some(uid) => {
                proof {
                    crate::auto_switch::lemma_resolve_first_match(
                        self.config@.auto_switch_patterns,
                        current_dir@,
                        spec_home(home),
                        self.users@,
                    );
                    assert(users_contain_id(self.users@, uid@));
                    assert(self.users.contains_id(uid@));
                }
                let switched = self.switch_user(uid.as_str());
                match switched {
                    Ok(script) => {
                        proof {
                            let i = choose|i: int|
                                0 <= i < self.users@.len() && self.users@[i].id == uid@ && script@
                                    == spec_switch_script(
                                    self.users@[i],
                                    self.config@.default_sshkey_dir,
                                );
                            assert(spec_resolve(
                                self.config@.auto_switch_patterns,
                                current_dir@,
                                spec_home(home),
                                self.users@,
                            ) == Some(self.users@[i].id));
                        }
                        Some(script)
                    },
                    Err(_) => {
                        proof {
                            assert(false);
                        }
                        None
                    },
                }
            },
        }
    }

    /// The whole setup script for this configuration: the guarded wrapper
    /// machinery around the extra fragment that enforces identity presence
    /// (when configured) and hooks directory changes (when auto-switch is
    /// on). The caller supplies the tool's invocation name, the
    /// executable's path and the session-channel path, and clears the
    /// session channel before emitting.
    pub fn get_setup_script(&self, app_name: &str, app_path: &str, session_script_path: &str)
        -> (r: String)
        ensures
            r@ == spec_setup_script(
                spec_setup_extra(self.config@, app_name@),
                app_name@,
                app_path@,
                session_script_path@,
            ),
    {
        let mut extra = "git() {\n".to_owned();
        if self.config.force_use_gus {
            extra.append(
                "if [ -z \"$GUS_USER_ID\" ]; then\necho The use of GUS is mandatory. Users who have not yet registered their information in GUS should use 'gus add' to register their information.;\necho === Available users: ===;\n",
            );
            extra.append(app_name);
            extra.append(
                " list;\necho ========================;\necho -n \"Enter user id: \";\nread user_id;\n",
            );
            extra.append(app_name);
            extra.append(" set \"$user_id\";\nstatus=$?;\nif [ $status -ne 0 ]; then\nreturn $status;\nfi;\nfi;\n");
        }
        extra.append("command git \"$@\";\n}\n");
        if self.config.auto_switch_enabled {
            extra.append("cd() {\n                command cd \"$@\";\n                ");
            extra.append(app_name);
            extra.append(" auto-switch check;\n            }\n");
        }
        proof {
            assert(extra@ == spec_setup_extra(self.config@, app_name@));
        }
        crate::shell::get_setup_script(extra.as_str(), app_name, app_path, session_script_path)
    }
}

/// The id the active-identity environment variable holds: its value, or the
/// empty id when it is unset.
pub open spec fn spec_active_key(active_id: Option<&str>) -> Seq<char> {
    match active_id {
        Some(s) => s@,
        None => Seq::<char>::empty(),
    }
}

} // verus!
