use vstd::prelude::*;

use crate::digits::dec_digits;
use crate::digits::lemma_concat_cancel_left;
use crate::digits::lemma_dec_digits_are_digits;
use crate::digits::lemma_dec_digits_injective;
use crate::digits::lemma_leading_digits_concat;
use crate::digits::leading_digits;
use crate::digits::u64_to_dec;
use crate::strutil::push_char;
use crate::user::path_join;

verus! {

/// An ASCII letter or an underscore: what may begin an environment-variable
/// key.
pub open spec fn is_env_key_start(c: char) -> bool {
    ('a' <= c && c <= 'z') || ('A' <= c && c <= 'Z') || c == '_'
}

/// An ASCII letter, digit or underscore: what may continue an
/// environment-variable key.
pub open spec fn is_env_key_char(c: char) -> bool {
    is_env_key_start(c) || ('0' <= c && c <= '9')
}

/// The characters that may continue an environment-variable key, kept in
/// order; the rest dropped.
pub open spec fn keep_env_key_chars(s: Seq<char>) -> Seq<char>
    decreases s.len(),
{
    if s.len() == 0 {
        Seq::empty()
    } else if is_env_key_char(s.last()) {
        keep_env_key_chars(s.drop_last()).push(s.last())
    } else {
        keep_env_key_chars(s.drop_last())
    }
}

/// An arbitrary string turned into an environment-variable key: the first
/// character gets an underscore put in front of it unless it may begin a
/// key, and of the remaining characters only letters, digits and
/// underscores are kept.
pub open spec fn env_key_of(s: Seq<char>) -> Seq<char> {
    if s.len() == 0 {
        Seq::empty()
    } else if is_env_key_start(s[0]) {
        seq![s[0]] + keep_env_key_chars(s.skip(1))
    } else {
        seq!['_', s[0]] + keep_env_key_chars(s.skip(1))
    }
}

fn is_env_key_start_exec(c: char) -> (r: bool)
    ensures
        r == is_env_key_start(c),
{
    ('a' <= c && c <= 'z') || ('A' <= c && c <= 'Z') || c == '_'
}

fn is_env_key_char_exec(c: char) -> (r: bool)
    ensures
        r == is_env_key_char(c),
{
    is_env_key_start_exec(c) || ('0' <= c && c <= '9')
}

pub fn str2envkey(s: &str) -> (r: String)
    ensures
        r@ == env_key_of(s@),
{
    let n = s.unicode_len();
    let mut out = String::new();
    if n == 0 {
        proof {
            assert(out@ =~= env_key_of(s@));
        }
        return out;
    }
    let c0 = s.get_char(0);
    if is_env_key_start_exec(c0) {
        push_char(&mut out, c0);
    } else {
        push_char(&mut out, '_');
        push_char(&mut out, c0);
    }
    let ghost head = out@;
    let ghost tail = s@.skip(1);
    let mut i: usize = 1;
    while i < n
        invariant
            n == s@.len(),
            1 <= i <= n,
            tail == s@.skip(1),
            out@ == head + keep_env_key_chars(tail.take(i - 1)),
        decreases n - i,
    {
        let c = s.get_char(i);
        proof {
            assert(tail.take(i as int).drop_last() =~= tail.take(i - 1));
            assert(tail.take(i as int).last() == s@[i as int]);
        }
        if is_env_key_char_exec(c) {
            push_char(&mut out, c);
        }
        i += 1;
    }
    proof {
        assert(tail.take(n - 1) =~= tail);
        if is_env_key_start(s@[0]) {
            assert(head =~= seq![s@[0]]);
        } else {
            assert(head =~= seq!['_', s@[0]]);
        }
    }
    out
}

/// Where the session channel lives: a file named from the parent process's
/// numeric identity, inside a directory named after the executable, inside
/// the temporary-file root. Each interactive shell thus gets an isolated
/// channel, and two different shells never collide.
pub open spec fn spec_session_script_path(
    temp_dir: Seq<char>,
    app_file_name: Seq<char>,
    parent_id: u64,
) -> Seq<char> {
    path_join(
        path_join(temp_dir, app_file_name),
        "session"@ + dec_digits(parent_id as nat) + ".sh"@,
    )
}

/// The session-channel path is keyed by the parent process alone: the same
/// parent always names the same file, and distinct parents always name
/// distinct files.
pub proof fn lemma_session_path_keyed_by_parent(
    temp_dir: Seq<char>,
    app_file_name: Seq<char>,
    p1: u64,
    p2: u64,
)
    ensures
        p1 == p2 ==> spec_session_script_path(temp_dir, app_file_name, p1)
            == spec_session_script_path(temp_dir, app_file_name, p2),
        p1 != p2 ==> spec_session_script_path(temp_dir, app_file_name, p1)
            != spec_session_script_path(temp_dir, app_file_name, p2),
{
    if p1 != p2 && spec_session_script_path(temp_dir, app_file_name, p1)
        == spec_session_script_path(temp_dir, app_file_name, p2) {
        let base = path_join(temp_dir, app_file_name);
        let f1 = "session"@ + dec_digits(p1 as nat) + ".sh"@;
        let f2 = "session"@ + dec_digits(p2 as nat) + ".sh"@;
        if base.len() == 0 {
            assert(f1 == f2);
        } else if base.last() == '/' {
            lemma_concat_cancel_left(base, f1, f2);
        } else {
            lemma_concat_cancel_left(base + seq!['/'], f1, f2);
        }
        assert("session"@ + (dec_digits(p1 as nat) + ".sh"@) =~= f1);
        assert("session"@ + (dec_digits(p2 as nat) + ".sh"@) =~= f2);
        lemma_concat_cancel_left(
            "session"@,
            dec_digits(p1 as nat) + ".sh"@,
            dec_digits(p2 as nat) + ".sh"@,
        );
        let d1 = dec_digits(p1 as nat);
        let d2 = dec_digits(p2 as nat);
        lemma_dec_digits_are_digits(p1 as nat);
        lemma_dec_digits_are_digits(p2 as nat);
        reveal_strlit(".sh");
        assert(!crate::digits::is_dec_digit(".sh"@[0]));
        lemma_leading_digits_concat(d1, ".sh"@);
        lemma_leading_digits_concat(d2, ".sh"@);
        assert(leading_digits(d1 + ".sh"@) == d1.len());
        assert(leading_digits(d2 + ".sh"@) == d2.len());
        assert(d1.len() == d2.len());
        assert(d1 =~= (d1 + ".sh"@).take(d1.len() as int));
        assert(d2 =~= (d2 + ".sh"@).take(d2.len() as int));
        lemma_dec_digits_injective(p1 as nat, p2 as nat);
    }
}

/// The session-channel path, built from the temporary-file root, the
/// executable's file name and the parent process's numeric identity.
pub fn get_session_script_path(temp_dir: &str, app_file_name: &str, parent_id: u64) -> (r: String)
    ensures
        r@ == spec_session_script_path(temp_dir@, app_file_name@, parent_id),
{
    let mut file = "session".to_owned();
    let digits = u64_to_dec(parent_id);
    file.append(digits.as_str());
    file.append(".sh");
    let base = join_path(temp_dir, app_file_name);
    join_path(base.as_str(), file.as_str())
}

/// `path_join`, as executable code.
fn join_path(d: &str, f: &str) -> (r: String)
    ensures
        r@ == path_join(d@, f@),
{
    let n = d.unicode_len();
    if n == 0 {
        f.to_owned()
    } else if d.get_char(n - 1) == '/' {
        proof {
            assert(d@.last() == '/');
        }
        let mut s = d.to_owned();
        s.append(f);
        s
    } else {
        let mut s = d.to_owned();
        s.append("/");
        s.append(f);
        proof {
            reveal_strlit("/");
            assert(s@ =~= d@ + seq!['/'] + f@);
        }
        s
    }
}

/// The text of the setup script: a guard on the well-known flag variable so
/// repeated sourcing is a no-op, removal of any stale session-channel file,
/// a wrapper function under the tool's invocation name that forwards to the
/// real executable and sources the session channel only on success, and the
/// caller's extra script verbatim before the closing of the guard.
pub open spec fn spec_setup_script(
    script: Seq<char>,
    app_name: Seq<char>,
    app_path: Seq<char>,
    session_script_path: Seq<char>,
) -> Seq<char> {
    "if [ -z ${GUS_LOADED_FLAG} ]; then\nexport GUS_LOADED_FLAG=1\nrm -f \""@
        + session_script_path + "\"\nfunction "@ + app_name + "() {\n\""@ + app_path
        + "\" \"$@\"\nstatus=$?\nif [ $status -ne 0 ]; then\nreturn $status\nfi\nsource \""@
        + session_script_path + "\"\n}\n"@ + script + "fi\n"@
}

/// The setup script around the given extra fragment, rendered as a string.
/// Pure text generation: the caller supplies the tool's invocation name,
/// the executable's path and the session-channel path.
pub fn get_setup_script(
    script: &str,
    app_name: &str,
    app_path: &str,
    session_script_path: &str,
) -> (r: String)
    ensures
        r@ == spec_setup_script(script@, app_name@, app_path@, session_script_path@),
{
    let mut s = "if [ -z ${GUS_LOADED_FLAG} ]; then\nexport GUS_LOADED_FLAG=1\nrm -f \"".to_owned();
    s.append(session_script_path);
    s.append("\"\nfunction ");
    s.append(app_name);
    s.append("() {\n\"");
    s.append(app_path);
    s.append("\" \"$@\"\nstatus=$?\nif [ $status -ne 0 ]; then\nreturn $status\nfi\nsource \"");
    s.append(session_script_path);
    s.append("\"\n}\n");
    s.append(script);
    s.append("fi\n");
    s
}

} // verus!
