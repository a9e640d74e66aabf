use vstd::prelude::*;

use crate::config::AutoSwitchPattern;
use crate::config::AutoSwitchPatternV;
use crate::config::Config;
use crate::errors::GusError;
use crate::user::UserV;
use crate::user::Users;

verus! {

/// Whether `glob::Pattern::new` accepts the string as glob syntax; a
/// function of the characters alone.
pub uninterp spec fn glob_pattern_ok(p: Seq<char>) -> bool;

/// Whether the glob pattern matches the text, under the crate's default
/// match options; meaningful only where `glob_pattern_ok(p)` holds, and a
/// function of the two character sequences alone.
pub uninterp spec fn glob_matches(p: Seq<char>, text: Seq<char>) -> bool;

/// Relies on glob::Pattern::new: it parses the pattern string
/// deterministically, returning `Err` exactly on bad glob syntax, with a
/// static message describing the fault.
#[verifier::external_body]
pub(crate) fn glob_check(pattern: &str) -> (r: Option<String>)
    ensures
        r is None <==> glob_pattern_ok(pattern@),
{
    match glob::Pattern::new(pattern) {
        Ok(_) => None,
        Err(e) => Some(e.msg.to_owned()),
    }
}

/// Relies on glob::Pattern::new and glob::Pattern::matches: both are
/// deterministic in their string arguments, and `matches` uses the default
/// match options.
#[verifier::external_body]
pub(crate) fn glob_match(pattern: &str, text: &str) -> (r: bool)
    requires
        glob_pattern_ok(pattern@),
    ensures
        r == glob_matches(pattern@, text@),
{
    match glob::Pattern::new(pattern) {
        Ok(p) => p.matches(text),
        Err(_) => false,
    }
}

/// A leading `~` expanded to the home directory; `None` when the pattern
/// needs a home directory and none is known (such a pattern never matches).
pub open spec fn spec_expanded(p: Seq<char>, home: Option<Seq<char>>) -> Option<Seq<char>> {
    if p.len() > 0 && p[0] == '~' {
        match home {
            Some(h) => Some(h + p.skip(1)),
            None => None,
        }
    } else {
        Some(p)
    }
}

/// Some user in `users` carries the id.
pub open spec fn users_contain_id(users: Seq<UserV>, id: Seq<char>) -> bool {
    exists|i: int| 0 <= i < users.len() && users[i].id == id
}

/// One rule applies: its pattern expands, the expansion is a valid glob
/// that matches the directory, and the identity it names still exists.
/// A stale or invalid stored rule thus degrades to "never matches".
pub open spec fn spec_rule_fires(
    rule: AutoSwitchPatternV,
    dir: Seq<char>,
    home: Option<Seq<char>>,
    users: Seq<UserV>,
) -> bool {
    match spec_expanded(rule.pattern, home) {
        Some(e) => glob_pattern_ok(e) && glob_matches(e, dir) && users_contain_id(
            users,
            rule.user_id,
        ),
        None => false,
    }
}

/// First-match-wins over the ordered rule list: the identity of the first
/// rule that fires, or `None` when no rule fires.
pub open spec fn spec_resolve(
    rules: Seq<AutoSwitchPatternV>,
    dir: Seq<char>,
    home: Option<Seq<char>>,
    users: Seq<UserV>,
) -> Option<Seq<char>>
    decreases rules.len(),
{
    if rules.len() == 0 {
        None
    } else if spec_rule_fires(rules[0], dir, home, users) {
        Some(rules[0].user_id)
    } else {
        spec_resolve(rules.drop_first(), dir, home, users)
    }
}

/// Completeness of first-match-wins: where rule `i` fires and no earlier
/// rule does, the resolver answers that rule's identity.
pub proof fn lemma_resolve_picks_first(
    rules: Seq<AutoSwitchPatternV>,
    dir: Seq<char>,
    home: Option<Seq<char>>,
    users: Seq<UserV>,
    i: int,
)
    requires
        0 <= i < rules.len(),
        spec_rule_fires(rules[i], dir, home, users),
        forall|j: int| 0 <= j < i ==> !spec_rule_fires(#[trigger] rules[j], dir, home, users),
    ensures
        spec_resolve(rules, dir, home, users) == Some(rules[i].user_id),
    decreases rules.len(),
{
    if i == 0 {
    } else {
        let tail = rules.drop_first();
        assert(!spec_rule_fires(rules[0], dir, home, users));
        assert(tail[i - 1] == rules[i]);
        assert forall|j: int| 0 <= j < i - 1 implies !spec_rule_fires(
            #[trigger] tail[j],
            dir,
            home,
            users,
        ) by {
            assert(tail[j] == rules[j + 1]);
        }
        lemma_resolve_picks_first(tail, dir, home, users, i - 1);
    }
}

/// Soundness of first-match-wins: a `Some` answer names the identity of
/// some rule that fires with no earlier rule firing, and a `None` answer
/// means no rule fires at all.
pub proof fn lemma_resolve_first_match(
    rules: Seq<AutoSwitchPatternV>,
    dir: Seq<char>,
    home: Option<Seq<char>>,
    users: Seq<UserV>,
)
    ensures
        spec_resolve(rules, dir, home, users) is Some ==> exists|i: int|
            {
                &&& 0 <= i < rules.len()
                &&& #[trigger] spec_rule_fires(rules[i], dir, home, users)
                &&& rules[i].user_id == spec_resolve(rules, dir, home, users).unwrap()
                &&& forall|j: int| 0 <= j < i ==> !spec_rule_fires(rules[j], dir, home, users)
            },
        spec_resolve(rules, dir, home, users) is None <==> forall|i: int|
            0 <= i < rules.len() ==> !#[trigger] spec_rule_fires(rules[i], dir, home, users),
    decreases rules.len(),
{
    if rules.len() == 0 {
    } else if spec_rule_fires(rules[0], dir, home, users) {
        assert(spec_rule_fires(rules[0], dir, home, users) && rules[0].user_id == spec_resolve(
            rules,
            dir,
            home,
            users,
        ).unwrap() && forall|j: int|
            0 <= j < 0 ==> !spec_rule_fires(rules[j], dir, home, users));
    } else {
        let tail = rules.drop_first();
        lemma_resolve_first_match(tail, dir, home, users);
        if spec_resolve(rules, dir, home, users) is Some {
            let k = choose|k: int|
                {
                    &&& 0 <= k < tail.len()
                    &&& #[trigger] spec_rule_fires(tail[k], dir, home, users)
                    &&& tail[k].user_id == spec_resolve(tail, dir, home, users).unwrap()
                    &&& forall|j: int| 0 <= j < k ==> !spec_rule_fires(tail[j], dir, home, users)
                };
            assert(tail[k] == rules[k + 1]);
            assert forall|j: int| 0 <= j < k + 1 implies !spec_rule_fires(
                #[trigger] rules[j],
                dir,
                home,
                users,
            ) by {
                if j > 0 {
                    assert(rules[j] == tail[j - 1]);
                    assert(!spec_rule_fires(tail[j - 1], dir, home, users));
                }
            }
            assert(0 <= k + 1 < rules.len() && spec_rule_fires(rules[k + 1], dir, home, users)
                && rules[k + 1].user_id == spec_resolve(rules, dir, home, users).unwrap()
                && forall|j: int|
                0 <= j < k + 1 ==> !spec_rule_fires(rules[j], dir, home, users));
        }
        if spec_resolve(rules, dir, home, users) is None {
            assert forall|i: int| 0 <= i < rules.len() implies !spec_rule_fires(
                #[trigger] rules[i],
                dir,
                home,
                users,
            ) by {
                if i > 0 {
                    assert(rules[i] == tail[i - 1]);
                    assert(!spec_rule_fires(tail[i - 1], dir, home, users));
                }
            }
        } else {
            assert(spec_resolve(tail, dir, home, users) is Some);
            let k = choose|k: int|
                {
                    &&& 0 <= k < tail.len()
                    &&& #[trigger] spec_rule_fires(tail[k], dir, home, users)
                    &&& tail[k].user_id == spec_resolve(tail, dir, home, users).unwrap()
                    &&& forall|j: int| 0 <= j < k ==> !spec_rule_fires(tail[j], dir, home, users)
                };
            assert(spec_rule_fires(rules[k + 1], dir, home, users));
        }
    }
}

/// A leading `~` replaced by the home directory; other patterns come back
/// unchanged.
fn expand_tilde(pattern: &str, home: &str) -> (r: String)
    ensures
        r@ == spec_expanded(pattern@, Some(home@)).unwrap(),
{
    let n = pattern.unicode_len();
    if n > 0 && pattern.get_char(0) == '~' {
        let mut s = home.to_owned();
        s.append(pattern.substring_char(1, n));
        proof {
            assert(pattern@.subrange(1, n as int) =~= pattern@.skip(1));
        }
        s
    } else {
        pattern.to_owned()
    }
}

/// The directory-triggered matcher: reads the configuration's ordered rule
/// list and the registry, for the duration of one resolve call.
pub struct AutoSwitcher<'a> {
    pub config: &'a Config,
    pub users: Users,
}

impl<'a> AutoSwitcher<'a> {
    pub open spec fn spec_users(self) -> Seq<UserV> {
        self.users@
    }

    pub fn new(config: &'a Config, users: Users) -> (r: Self)
        ensures
            r.config == config,
            r.spec_users() == users@,
    {
        AutoSwitcher { config, users }
    }

    /// The identity the current directory selects: `None` when auto-switch
    /// is disabled, else the answer of first-match-wins resolution over the
    /// configured rules.
    pub fn should_switch(&self, current_dir: &str, home: Option<&str>) -> (r: Option<String>)
        ensures
            !self.config@.auto_switch_enabled ==> r is None,
            self.config@.auto_switch_enabled ==> match r {
                Some(uid) => spec_resolve(
                    self.config@.auto_switch_patterns,
                    current_dir@,
                    spec_home(home),
                    self.spec_users(),
                ) == Some(uid@),
                None => spec_resolve(
                    self.config@.auto_switch_patterns,
                    current_dir@,
                    spec_home(home),
                    self.spec_users(),
                ) is None,
            },
    {
        if !self.config.auto_switch_enabled {
            return None;
        }
        resolve_patterns(&self.config.auto_switch_patterns, &self.users, current_dir, home)
    }

    /// Validates a candidate rule: the identity must exist and the pattern
    /// must be glob syntax. Nothing is stored here; callers append to the
    /// configuration only after success.
    pub fn add_pattern(&mut self, pattern: String, user_id: String) -> (r: Result<(), GusError>)
        ensures
            *final(self) == *old(self),
            match r {
                Ok(()) => users_contain_id(old(self).spec_users(), user_id@) && glob_pattern_ok(
                    pattern@,
                ),
                Err(e) => match e {
                    GusError::UnknownIdentity { id } => id@ == user_id@ && !users_contain_id(
                        old(self).spec_users(),
                        user_id@,
                    ),
                    GusError::InvalidPattern { pattern: p, message: _ } => p@ == pattern@
                        && users_contain_id(old(self).spec_users(), user_id@) && !glob_pattern_ok(
                        pattern@,
                    ),
                    _ => false,
                },
            },
    {
        if !self.users.exists_id(user_id.as_str()) {
            return Err(GusError::UnknownIdentity { id: user_id });
        }
        match glob_check(pattern.as_str()) {
            Some(message) => Err(GusError::InvalidPattern { pattern, message }),
            None => Ok(()),
        }
    }

    /// Whether some stored rule carries exactly this pattern string. The
    /// configuration itself is borrowed immutably; removal is the
    /// configuration owner's to do.
    pub fn remove_pattern(&mut self, pattern: &str) -> (r: bool)
        ensures
            *final(self) == *old(self),
            r == exists|i: int|
                0 <= i < old(self).config@.auto_switch_patterns.len()
                    && old(self).config@.auto_switch_patterns[i].pattern == pattern@,
    {
        let n = self.config.auto_switch_patterns.len();
        let mut i: usize = 0;
        while i < n
            invariant
                *self == *old(self),
                n == self.config@.auto_switch_patterns.len(),
                n == self.config.auto_switch_patterns@.len(),
                0 <= i <= n,
                forall|j: int|
                    0 <= j < i ==> self.config@.auto_switch_patterns[j].pattern != pattern@,
            decreases n - i,
        {
            if crate::strutil::str_eq(
                self.config.auto_switch_patterns[i].pattern.as_str(),
                pattern,
            ) {
                proof {
                    assert(0 <= i < old(self).config@.auto_switch_patterns.len() && old(
                        self,
                    ).config@.auto_switch_patterns[i as int].pattern == pattern@);
                }
                return true;
            }
            i += 1;
        }
        false
    }

    /// Every stored rule, as (pattern, identity id) pairs, in order.
    pub fn list_patterns(&self) -> (r: Vec<(&str, &str)>)
        ensures
            r@.len() == self.config@.auto_switch_patterns.len(),
            forall|i: int|
                0 <= i < r@.len() ==> r@[i].0@ == self.config@.auto_switch_patterns[i].pattern
                    && r@[i].1@ == self.config@.auto_switch_patterns[i].user_id,
    {
        let n = self.config.auto_switch_patterns.len();
        let mut out: Vec<(&str, &str)> = Vec::new();
        let mut i: usize = 0;
        while i < n
            invariant
                n == self.config@.auto_switch_patterns.len(),
                n == self.config.auto_switch_patterns@.len(),
                0 <= i <= n,
                out@.len() == i,
                forall|j: int|
                    0 <= j < i ==> out@[j].0@ == self.config@.auto_switch_patterns[j].pattern
                        && out@[j].1@ == self.config@.auto_switch_patterns[j].user_id,
            decreases n - i,
        {
            let rule = &self.config.auto_switch_patterns[i];
            out.push((rule.pattern.as_str(), rule.user_id.as_str()));
            i += 1;
        }
        out
    }
}

/// First-match-wins resolution over an ordered rule list, as executable
/// code: the identity of the first rule whose expanded pattern is a valid
/// glob matching the directory and whose identity exists in the registry.
pub(crate) fn resolve_patterns(
    patterns: &Vec<AutoSwitchPattern>,
    users: &Users,
    current_dir: &str,
    home: Option<&str>,
) -> (r: Option<String>)
    ensures
        match r {
            Some(uid) => spec_resolve(
                patterns@.map(|i: int, p: AutoSwitchPattern| p@),
                current_dir@,
                spec_home(home),
                users@,
            ) == Some(uid@),
            None => spec_resolve(
                patterns@.map(|i: int, p: AutoSwitchPattern| p@),
                current_dir@,
                spec_home(home),
                users@,
            ) is None,
        },
{
    let ghost rules = patterns@.map(|i: int, p: AutoSwitchPattern| p@);
    let ghost dir = current_dir@;
    let ghost h = spec_home(home);
    let ghost us = users@;
    let n = patterns.len();
    let mut i: usize = 0;
    proof {
        assert(rules.skip(0) =~= rules);
    }
    while i < n
        invariant
            n == rules.len(),
            n == patterns@.len(),
            rules == patterns@.map(|i: int, p: AutoSwitchPattern| p@),
            dir == current_dir@,
            h == spec_home(home),
            us == users@,
            0 <= i <= n,
            spec_resolve(rules.skip(i as int), dir, h, us) == spec_resolve(rules, dir, h, us),
        decreases n - i,
    {
        let rule = &patterns[i];
        proof {
            assert(rules.skip(i as int)[0] == rule@);
            assert(rules.skip(i as int).drop_first() =~= rules.skip(i + 1));
        }
        let fires: bool = match home {
            Some(hd) => {
                let expanded = expand_tilde(rule.pattern.as_str(), hd);
                if glob_check(expanded.as_str()).is_none() && glob_match(
                    expanded.as_str(),
                    current_dir,
                ) {
                    users.exists_id(rule.user_id.as_str())
                } else {
                    false
                }
            },
            None => {
                let pn = rule.pattern.unicode_len();
                if pn > 0 && rule.pattern.as_str().get_char(0) == '~' {
                    false
                } else if glob_check(rule.pattern.as_str()).is_none() && glob_match(
                    rule.pattern.as_str(),
                    current_dir,
                ) {
                    users.exists_id(rule.user_id.as_str())
                } else {
                    false
                }
            },
        };
        proof {
            assert(fires == spec_rule_fires(rule@, dir, h, us));
        }
        if fires {
            return Some(rule.user_id.clone());
        }
        i += 1;
    }
    proof {
        assert(rules.skip(n as int) =~= Seq::<AutoSwitchPatternV>::empty());
    }
    None
}

/// The optional home directory as a character sequence.
pub open spec fn spec_home(home: Option<&str>) -> Option<Seq<char>> {
    match home {
        Some(h) => Some(h@),
        None => None,
    }
}

} // verus!
