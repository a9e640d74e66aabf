use vstd::prelude::*;

use crate::errors::GusError;
use crate::strutil::str_eq;

verus! {

/// One identity: a unique id, the author attributes it stands for, and an
/// optional explicit key path. When the path is absent the key file's name
/// is derived from the id.
pub struct User {
    pub id: String,
    pub name: String,
    pub email: String,
    pub sshkey_path: Option<String>,
}

/// The mathematical value of a `User`: every field as a character sequence.
pub ghost struct UserV {
    pub id: Seq<char>,
    pub name: Seq<char>,
    pub email: Seq<char>,
    pub sshkey_path: Option<Seq<char>>,
}

impl View for User {
    type V = UserV;

    open spec fn view(&self) -> UserV {
        UserV {
            id: self.id@,
            name: self.name@,
            email: self.email@,
            sshkey_path: match self.sshkey_path {
                Some(p) => Some(p@),
                None => None,
            },
        }
    }
}

impl Clone for User {
    fn clone(&self) -> (r: Self)
        ensures
            r == *self,
    {
        User {
            id: self.id.clone(),
            name: self.name.clone(),
            email: self.email.clone(),
            sshkey_path: match &self.sshkey_path {
                Some(p) => Some(p.clone()),
                None => None,
            },
        }
    }
}

/// The index one past the last `/` of `p`, or 0 when `p` holds none: where
/// the file-name part of a path string begins.
pub open spec fn base_start(p: Seq<char>) -> int
    decreases p.len(),
{
    if p.len() == 0 {
        0
    } else if p.last() == '/' {
        p.len() as int
    } else {
        base_start(p.drop_last())
    }
}

/// The file-name part of a path string: everything after the last `/`
/// (empty when the path ends in `/`).
pub open spec fn base_name(p: Seq<char>) -> Seq<char> {
    p.subrange(base_start(p), p.len() as int)
}

/// `d` with the file name `f` appended, with exactly one `/` between them;
/// an empty `d` leaves `f` alone.
pub open spec fn path_join(d: Seq<char>, f: Seq<char>) -> Seq<char> {
    if d.len() == 0 {
        f
    } else if d.last() == '/' {
        d + f
    } else {
        d + seq!['/'] + f
    }
}

/// The name of the user's key file: the file name of the explicit path when
/// one is set, else `id_` followed by the user's id.
pub open spec fn spec_sshkey_name(u: UserV) -> Seq<char> {
    match u.sshkey_path {
        Some(p) => base_name(p),
        None => "id_"@ + u.id,
    }
}

/// Where the user's key lives: the explicit path when one is set, else the
/// derived file name resolved against the configured key directory.
pub open spec fn spec_sshkey_path(u: UserV, default_dir: Seq<char>) -> Seq<char> {
    match u.sshkey_path {
        Some(p) => p,
        None => path_join(default_dir, spec_sshkey_name(u)),
    }
}

impl User {
    /// The one-line rendering of an identity: `id: name <email>`.
    pub fn display_string(&self) -> (r: String)
        ensures
            r@ == self.id@ + ": "@ + self.name@ + " <"@ + self.email@ + ">"@,
    {
        let mut s = self.id.clone();
        s.append(": ");
        s.append(self.name.as_str());
        s.append(" <");
        s.append(self.email.as_str());
        s.append(">");
        s
    }

    pub fn get_sshkey_name(&self) -> (r: String)
        ensures
            r@ == spec_sshkey_name(self@),
    {
        match &self.sshkey_path {
            Some(p) => {
                let n = p.as_str().unicode_len();
                let mut start: usize = 0;
                let mut i: usize = 0;
                while i < n
                    invariant
                        n == p@.len(),
                        0 <= start <= i <= n,
                        start == base_start(p@.take(i as int)),
                    decreases n - i,
                {
                    if p.as_str().get_char(i) == '/' {
                        start = i + 1;
                    }
                    proof {
                        assert(p@.take(i + 1).drop_last() =~= p@.take(i as int));
                        assert(p@.take(i + 1).last() == p@[i as int]);
                    }
                    i += 1;
                }
                proof {
                    assert(p@.take(n as int) =~= p@);
                }
                p.as_str().substring_char(start, n).to_owned()
            },
            None => {
                let mut s = "id_".to_owned();
                s.append(self.id.as_str());
                s
            },
        }
    }

    pub fn get_sshkey_path(&self, default_sshkey_dir: &str) -> (r: String)
        ensures
            r@ == spec_sshkey_path(self@, default_sshkey_dir@),
    {
        match &self.sshkey_path {
            Some(p) => p.clone(),
            None => {
                let name = self.get_sshkey_name();
                let n = default_sshkey_dir.unicode_len();
                if n == 0 {
                    name
                } else if default_sshkey_dir.get_char(n - 1) == '/' {
                    proof {
                        assert(default_sshkey_dir@.last() == '/');
                    }
                    let mut s = default_sshkey_dir.to_owned();
                    s.append(name.as_str());
                    s
                } else {
                    let mut s = default_sshkey_dir.to_owned();
                    s.append("/");
                    s.append(name.as_str());
                    proof {
                        reveal_strlit("/");
                        assert(s@ =~= default_sshkey_dir@ + seq!['/'] + name@);
                    }
                    s
                }
            },
        }
    }
}

/// The length of the file name's stem: everything before the last `.`,
/// except that a lone leading `.` (a hidden file) begins no extension.
pub open spec fn stem_len(f: Seq<char>) -> int
    decreases f.len(),
{
    if f.len() <= 1 {
        f.len() as int
    } else if f.last() == '.' {
        f.len() - 1
    } else if stem_len(f.drop_last()) == f.len() - 1 {
        f.len() as int
    } else {
        stem_len(f.drop_last())
    }
}

/// The path with its extension (the part of the file name after the last
/// counted `.`) replaced by `pub`; a file name without one gets `.pub`
/// appended.
pub open spec fn with_pub_extension(p: Seq<char>) -> Seq<char> {
    p.take(base_start(p) + stem_len(base_name(p))) + ".pub"@
}

/// `with_pub_extension`, as executable code.
pub fn path_with_pub_extension(p: &str) -> (r: String)
    ensures
        r@ == with_pub_extension(p@),
{
    let n = p.unicode_len();
    let mut start: usize = 0;
    let mut i: usize = 0;
    while i < n
        invariant
            n == p@.len(),
            0 <= start <= i <= n,
            start == base_start(p@.take(i as int)),
        decreases n - i,
    {
        if p.get_char(i) == '/' {
            start = i + 1;
        }
        proof {
            assert(p@.take(i + 1).drop_last() =~= p@.take(i as int));
            assert(p@.take(i + 1).last() == p@[i as int]);
        }
        i += 1;
    }
    proof {
        assert(p@.take(n as int) =~= p@);
    }
    let ghost f = base_name(p@);
    proof {
        assert(f =~= p@.subrange(start as int, n as int));
        assert(f.take(0) =~= Seq::<char>::empty());
    }
    let mut se: usize = 0;
    let mut j: usize = 0;
    while j < n - start
        invariant
            n == p@.len(),
            0 <= start <= n,
            start == base_start(p@),
            f == base_name(p@),
            f == p@.subrange(start as int, n as int),
            0 <= j <= n - start,
            0 <= se <= j,
            se == stem_len(f.take(j as int)),
        decreases n - start - j,
    {
        let c = p.get_char(start + j);
        proof {
            assert(f.take(j + 1).drop_last() =~= f.take(j as int));
            assert(f.take(j + 1).last() == f[j as int]);
            assert(f[j as int] == p@[start + j]);
        }
        if j == 0 {
            se = 1;
        } else if c == '.' {
            se = j;
        } else if se == j {
            se = j + 1;
        }
        proof {
            assert(se == stem_len(f.take(j + 1)));
        }
        j += 1;
    }
    proof {
        assert(f.take(n - start as int) =~= f);
    }
    let mut out = p.substring_char(0, start + se).to_owned();
    out.append(".pub");
    proof {
        assert(p@.subrange(0, start + se as int) =~= p@.take(
            base_start(p@) + stem_len(base_name(p@)),
        ));
    }
    out
}

/// The identity registry: the users, keyed by their ids.
///
/// The one invariant, `wf`, is that no two entries share an id; `add`
/// refuses a duplicate so every constructor and method preserves it.
pub struct Users {
    users: Vec<User>,
}

impl View for Users {
    type V = Seq<UserV>;

    closed spec fn view(&self) -> Seq<UserV> {
        self.users@.map(|i: int, u: User| u@)
    }
}

impl Users {
    /// No two entries share an id.
    pub open spec fn wf(self) -> bool {
        forall|i: int, j: int| 0 <= i < j < self@.len() ==> self@[i].id != self@[j].id
    }

    /// Some entry carries the given id.
    pub open spec fn contains_id(self, id: Seq<char>) -> bool {
        exists|i: int| 0 <= i < self@.len() && self@[i].id == id
    }

    /// The index of the entry carrying the given id; meaningful only when
    /// `contains_id` holds (and then unique, when `wf` holds).
    pub open spec fn index_of_id(self, id: Seq<char>) -> int {
        choose|i: int| 0 <= i < self@.len() && self@[i].id == id
    }

    pub fn new() -> (r: Self)
        ensures
            r@ =~= Seq::<UserV>::empty(),
            r.wf(),
    {
        Users { users: Vec::new() }
    }

    /// The index of the entry with this id, if any: the loop behind every
    /// lookup.
    fn find(&self, id: &str) -> (r: Option<usize>)
        ensures
            match r {
                Some(i) => 0 <= i < self@.len() && self@[i as int].id == id@,
                None => !self.contains_id(id@),
            },
    {
        let n = self.users.len();
        let mut i: usize = 0;
        while i < n
            invariant
                n == self@.len(),
                0 <= i <= n,
                forall|j: int| 0 <= j < i ==> self@[j].id != id@,
            decreases n - i,
        {
            if str_eq(self.users[i].id.as_str(), id) {
                return Some(i);
            }
            i += 1;
        }
        None
    }

    pub fn exists_id(&self, id: &str) -> (r: bool)
        ensures
            r == self.contains_id(id@),
    {
        self.find(id).is_some()
    }

    /// Adds a user, refusing an id the registry already holds; on failure
    /// the registry is unchanged.
    pub fn add(&mut self, user: User) -> (r: Result<(), GusError>)
        ensures
            match r {
                Ok(()) => !old(self).contains_id(user.id@) && final(self)@ =~= old(self)@.push(
                    user@,
                ),
                Err(e) => old(self).contains_id(user.id@) && final(self)@ == old(self)@ && (e
                    matches GusError::DuplicateIdentity { id } && id@ == user.id@),
            },
            old(self).wf() ==> final(self).wf(),
    {
        if self.exists_id(user.id.as_str()) {
            return Err(GusError::DuplicateIdentity { id: user.id.clone() });
        }
        self.users.push(user);
        proof {
            assert(self@ =~= old(self)@.push(self.users@.last()@));
        }
        Ok(())
    }

    pub fn get(&self, id: &str) -> (r: Option<&User>)
        ensures
            match r {
                Some(u) => self.contains_id(id@) && u.id@ == id@ && self@.contains(u@),
                None => !self.contains_id(id@),
            },
    {
        match self.find(id) {
            Some(i) => {
                let u = &self.users[i];
                proof {
                    assert(self@[i as int] == u@);
                }
                Some(u)
            },
            None => None,
        }
    }

    pub fn get_mut(&mut self, id: &str) -> (r: Option<&mut User>)
        requires
            old(self).wf(),
        ensures
            match r {
                Some(u) => {
                    let i = old(self).index_of_id(id@);
                    &&& old(self).contains_id(id@)
                    &&& 0 <= i < old(self)@.len()
                    &&& u.id@ == id@
                    &&& u@ == old(self)@[i]
                    &&& final(self)@ == old(self)@.update(i, final(u)@)
                },
                None => !old(self).contains_id(id@) && *final(self) == *old(self),
            },
    {
        let found = self.find(id);
        match found {
            Some(i) => {
                proof {
                    let k = old(self).index_of_id(id@);
                    assert(0 <= k < old(self)@.len() && old(self)@[k].id == id@);
                    assert(k == i as int);
                }
                Some(&mut self.users[i])
            },
            None => None,
        }
    }

    pub fn remove(&mut self, id: &str) -> (r: Option<User>)
        requires
            old(self).wf(),
        ensures
            match r {
                Some(u) => {
                    let i = old(self).index_of_id(id@);
                    &&& old(self).contains_id(id@)
                    &&& 0 <= i < old(self)@.len()
                    &&& u@ == old(self)@[i]
                    &&& u.id@ == id@
                    &&& final(self)@ =~= old(self)@.remove(i)
                },
                None => !old(self).contains_id(id@) && final(self)@ == old(self)@,
            },
            final(self).wf(),
    {
        match self.find(id) {
            Some(i) => {
                proof {
                    let k = old(self).index_of_id(id@);
                    assert(0 <= k < old(self)@.len() && old(self)@[k].id == id@);
                    assert(k == i as int);
                }
                let u = self.users.remove(i);
                proof {
                    assert(self@ =~= old(self)@.remove(i as int));
                }
                Some(u)
            },
            None => None,
        }
    }

    pub fn list(&self) -> (r: Vec<&User>)
        ensures
            r@.len() == self@.len(),
            forall|i: int| 0 <= i < r@.len() ==> r@[i]@ == self@[i],
    {
        let n = self.users.len();
        let mut out: Vec<&User> = Vec::new();
        let mut i: usize = 0;
        while i < n
            invariant
                n == self@.len(),
                n == self.users@.len(),
                0 <= i <= n,
                out@.len() == i,
                forall|j: int| 0 <= j < i ==> out@[j]@ == self@[j],
            decreases n - i,
        {
            out.push(&self.users[i]);
            i += 1;
        }
        out
    }
}

} // verus!
