//! PTY-side decisions: which shell to run, which integration to install,
//! how to name a process, and how errors read.

use vstd::prelude::*;
use crate::text::{append_chars, str_chars, string_from_chars, trim_chars, trim_spec};

verus! {

/// Errors that can occur during PTY operations.
#[derive(Debug)]
pub enum PtyError {
    /// Failed to open a PTY pair.
    OpenPtyFailed(String),
    /// Failed to spawn the shell process.
    SpawnFailed(String),
    /// Failed to clone the PTY reader.
    ReaderCloneFailed(String),
    /// Failed to take the PTY writer.
    WriterTakeFailed(String),
}

/// The message prefix for each error kind.
pub open spec fn pty_error_prefix(e: PtyError) -> Seq<char> {
    match e {
        PtyError::OpenPtyFailed(_) => seq!['f','a','i','l','e','d',' ','t','o',' ','o','p','e','n',' ','P','T','Y',':',' '],
        PtyError::SpawnFailed(_) => seq!['f','a','i','l','e','d',' ','t','o',' ','s','p','a','w','n',' ','s','h','e','l','l',':',' '],
        PtyError::ReaderCloneFailed(_) => seq!['f','a','i','l','e','d',' ','t','o',' ','c','l','o','n','e',' ','P','T','Y',' ','r','e','a','d','e','r',':',' '],
        PtyError::WriterTakeFailed(_) => seq!['f','a','i','l','e','d',' ','t','o',' ','t','a','k','e',' ','P','T','Y',' ','w','r','i','t','e','r',':',' '],
    }
}

/// The detail text carried by an error.
pub open spec fn pty_error_detail(e: PtyError) -> Seq<char> {
    match e {
        PtyError::OpenPtyFailed(s) => s@,
        PtyError::SpawnFailed(s) => s@,
        PtyError::ReaderCloneFailed(s) => s@,
        PtyError::WriterTakeFailed(s) => s@,
    }
}

impl PtyError {
    /// The human-readable description of the error: a prefix naming the
    /// failed step, then the underlying error text.
    pub fn message(&self) -> (m: String)
        ensures
            m@ == pty_error_prefix(*self) + pty_error_detail(*self),
    {
        let mut out: Vec<char> = Vec::new();
        let detail: &String = match self {
            PtyError::OpenPtyFailed(e) => {
                append_chars(&mut out, &['f','a','i','l','e','d',' ','t','o',' ','o','p','e','n',' ','P','T','Y',':',' ']);
                e
            },
            PtyError::SpawnFailed(e) => {
                append_chars(&mut out, &['f','a','i','l','e','d',' ','t','o',' ','s','p','a','w','n',' ','s','h','e','l','l',':',' ']);
                e
            },
            PtyError::ReaderCloneFailed(e) => {
                append_chars(&mut out, &['f','a','i','l','e','d',' ','t','o',' ','c','l','o','n','e',' ','P','T','Y',' ','r','e','a','d','e','r',':',' ']);
                e
            },
            PtyError::WriterTakeFailed(e) => {
                append_chars(&mut out, &['f','a','i','l','e','d',' ','t','o',' ','t','a','k','e',' ','P','T','Y',' ','w','r','i','t','e','r',':',' ']);
                e
            },
        };
        assert(out@ =~= pty_error_prefix(*self));
        let detail_chars = str_chars(detail.as_str());
        append_chars(&mut out, detail_chars.as_slice());
        string_from_chars(out.as_slice())
    }
}

/// Known shell process names that fall back to CWD-based titles.
pub open spec fn is_shell_name(name: Seq<char>) -> bool {
    ||| name == seq!['z', 's', 'h']
    ||| name == seq!['b', 'a', 's', 'h']
    ||| name == seq!['f', 'i', 's', 'h']
    ||| name == seq!['s', 'h']
    ||| name == seq!['d', 'a', 's', 'h']
    ||| name == seq!['t', 'c', 's', 'h']
    ||| name == seq!['c', 's', 'h']
    ||| name == seq!['k', 's', 'h']
}

fn chars_equal(a: &Vec<char>, b: &[char]) -> (r: bool)
    ensures
        r == (a@ == b@),
{
    if a.len() != b.len() {
        return false;
    }
    let mut i: usize = 0;
    while i < a.len()
        invariant
            i <= a@.len(),
            a@.len() == b@.len(),
            forall|k: int| 0 <= k < i ==> a@[k] == b@[k],
        decreases a.len() - i,
    {
        if a[i] != b[i] {
            return false;
        }
        i = i + 1;
    }
    assert(a@ =~= b@);
    true
}

/// Returns true if the given process name is a known shell.
pub fn is_shell_process(name: &str) -> (b: bool)
    ensures
        b == is_shell_name(name@),
{
    let c = str_chars(name);
    let r = chars_equal(&c, &['z', 's', 'h'])
        || chars_equal(&c, &['b', 'a', 's', 'h'])
        || chars_equal(&c, &['f', 'i', 's', 'h'])
        || chars_equal(&c, &['s', 'h'])
        || chars_equal(&c, &['d', 'a', 's', 'h'])
        || chars_equal(&c, &['t', 'c', 's', 'h'])
        || chars_equal(&c, &['c', 's', 'h'])
        || chars_equal(&c, &['k', 's', 'h']);
    proof {
        assert(['z', 's', 'h']@ =~= seq!['z', 's', 'h']);
        assert(['b', 'a', 's', 'h']@ =~= seq!['b', 'a', 's', 'h']);
        assert(['f', 'i', 's', 'h']@ =~= seq!['f', 'i', 's', 'h']);
        assert(['s', 'h']@ =~= seq!['s', 'h']);
        assert(['d', 'a', 's', 'h']@ =~= seq!['d', 'a', 's', 'h']);
        assert(['t', 'c', 's', 'h']@ =~= seq!['t', 'c', 's', 'h']);
        assert(['c', 's', 'h']@ =~= seq!['c', 's', 'h']);
        assert(['k', 's', 'h']@ =~= seq!['k', 's', 'h']);
    }
    r
}

/// The part of `path` after its last '/', or all of it when there is none
/// (`path.rsplit('/').next()`).
pub open spec fn basename_spec(path: Seq<char>) -> Seq<char>
    decreases path.len(),
{
    if path.len() == 0 {
        path
    } else if path.last() == '/' {
        Seq::empty()
    } else {
        basename_spec(path.drop_last()).push(path.last())
    }
}

/// Extract a process name from a full path string.
pub fn basename_from_path(path: &str) -> (name: String)
    ensures
        name@ == basename_spec(path@),
{
    let chars = str_chars(path);
    let mut start: usize = chars.len();
    assert(chars@.subrange(0, start as int) =~= chars@);
    assert(chars@.subrange(start as int, chars@.len() as int) =~= Seq::<char>::empty());
    while start > 0 && chars[start - 1] != '/'
        invariant
            start <= chars@.len(),
            chars@ == path@,
            basename_spec(chars@) == basename_spec(chars@.subrange(0, start as int)) + chars@.subrange(start as int, chars@.len() as int),
            forall|k: int| start <= k < chars@.len() ==> chars@[k] != '/',
        decreases start,
    {
        proof {
            let p = chars@.subrange(0, start as int);
            assert(p.drop_last() =~= chars@.subrange(0, start - 1));
            assert(chars@.subrange(start - 1, chars@.len() as int) =~= seq![chars@[start - 1]] + chars@.subrange(start as int, chars@.len() as int));
            assert(basename_spec(p) == basename_spec(p.drop_last()).push(p.last()));
            assert(basename_spec(p.drop_last()).push(p.last()) + chars@.subrange(start as int, chars@.len() as int)
                =~= basename_spec(p.drop_last()) + chars@.subrange(start - 1, chars@.len() as int));
        }
        start = start - 1;
    }
    proof {
        assert(basename_spec(chars@.subrange(0, start as int)) =~= Seq::<char>::empty()) by {
            if start > 0 {
                let p = chars@.subrange(0, start as int);
                assert(p.last() == '/');
            }
        }
        assert(chars@.subrange(0, chars@.len() as int) =~= chars@);
    }
    let mut out: Vec<char> = Vec::new();
    let mut i: usize = start;
    while i < chars.len()
        invariant
            start <= i <= chars@.len(),
            out@ == chars@.subrange(start as int, i as int),
        decreases chars.len() - i,
    {
        out.push(chars[i]);
        i = i + 1;
        assert(out@ =~= chars@.subrange(start as int, i as int));
    }
    assert(Seq::<char>::empty() + chars@.subrange(start as int, chars@.len() as int) =~= out@);
    string_from_chars(out.as_slice())
}

/// `/bin/sh`
pub open spec fn bin_sh() -> Seq<char> {
    seq!['/', 'b', 'i', 'n', '/', 's', 'h']
}

/// `/bin/zsh`
pub open spec fn bin_zsh() -> Seq<char> {
    seq!['/', 'b', 'i', 'n', '/', 'z', 's', 'h']
}

/// Determine the shell to spawn: `$SHELL` (given as `env_shell`) or `/bin/sh`.
pub fn default_shell(env_shell: Option<String>) -> (shell: String)
    ensures
        shell@ == (match env_shell {
            Some(s) => s@,
            None => bin_sh(),
        }),
{
    match env_shell {
        Some(s) => s,
        None => {
            let s = string_from_chars(&['/', 'b', 'i', 'n', '/', 's', 'h']);
            assert(s@ =~= bin_sh());
            s
        },
    }
}

/// Resolve the shell program. Priority: the configured program, then the
/// user's login shell from the directory service (macOS), then `$SHELL`,
/// then `/bin/zsh`.
pub fn resolve_shell(config_program: Option<String>, login_shell: Option<String>, env_shell: Option<String>) -> (shell: String)
    ensures
        shell@ == (match (config_program, login_shell, env_shell) {
            (Some(p), _, _) => p@,
            (None, Some(l), _) => l@,
            (None, None, Some(e)) => e@,
            (None, None, None) => bin_zsh(),
        }),
{
    match config_program {
        Some(p) => p,
        None => match login_shell {
            Some(l) => l,
            None => match env_shell {
                Some(e) => e,
                None => {
                    let s = string_from_chars(&['/', 'b', 'i', 'n', '/', 'z', 's', 'h']);
                    assert(s@ =~= bin_zsh());
                    s
                },
            },
        },
    }
}

/// `UserShell:`
pub open spec fn user_shell_key() -> Seq<char> {
    seq!['U', 's', 'e', 'r', 'S', 'h', 'e', 'l', 'l', ':']
}

/// The login shell in the output of `dscl . -read /Users/<user> UserShell`
/// ("UserShell: /bin/zsh"): the trimmed output must start with
/// "UserShell:"; the rest, trimmed, is the shell, if not empty.
pub open spec fn dscl_user_shell(stdout: Seq<char>) -> Option<Seq<char>> {
    let t = trim_spec(stdout);
    let key = user_shell_key();
    if t.len() >= key.len() && t.take(key.len() as int) == key {
        let shell = trim_spec(t.skip(key.len() as int));
        if shell.len() > 0 { Some(shell) } else { None }
    } else {
        None
    }
}

/// Parse the login shell from the directory service's output.
pub fn parse_dscl_user_shell(stdout: &str) -> (shell: Option<String>)
    ensures
        match shell {
            Some(s) => dscl_user_shell(stdout@) == Some(s@),
            None => dscl_user_shell(stdout@) is None,
        },
{
    let chars = str_chars(stdout);
    let t = trim_chars(&chars);
    let key: [char; 10] = ['U', 's', 'e', 'r', 'S', 'h', 'e', 'l', 'l', ':'];
    assert(key@ =~= user_shell_key());
    if t.len() < 10 {
        return None;
    }
    let mut k: usize = 0;
    while k < 10
        invariant
            k <= 10,
            t@.len() >= 10,
            t@ == trim_spec(stdout@),
            key@ == user_shell_key(),
            forall|j: int| 0 <= j < k ==> t@[j] == key@[j],
        decreases 10 - k,
    {
        if t[k] != key[k] {
            assert(t@.take(10)[k as int] != user_shell_key()[k as int]);
            return None;
        }
        k = k + 1;
    }
    assert(t@.take(10) =~= user_shell_key());
    let mut rest: Vec<char> = Vec::new();
    let mut i: usize = 10;
    while i < t.len()
        invariant
            10 <= i <= t@.len(),
            rest@ == t@.subrange(10, i as int),
        decreases t.len() - i,
    {
        rest.push(t[i]);
        i = i + 1;
        assert(rest@ =~= t@.subrange(10, i as int));
    }
    assert(rest@ =~= t@.skip(10));
    let shell = trim_chars(&rest);
    if shell.len() == 0 {
        None
    } else {
        Some(string_from_chars(shell.as_slice()))
    }
}

/// The shell integration installed before spawning a shell.
#[derive(Debug, Clone, Copy, PartialEq, Eq, Structural)]
pub enum ShellIntegration {
    /// A wrapper rcfile passed with `--rcfile`.
    Bash,
    /// A temporary `ZDOTDIR` with wrapper `.zshenv` and `.zshrc`.
    Zsh,
    /// An integration script run with `--init-command`.
    Fish,
    /// No integration for other shells.
    Unsupported,
}

/// Which integration a shell gets, by the basename of its path.
pub open spec fn integration_for(shell: Seq<char>) -> ShellIntegration {
    let name = basename_spec(shell);
    if name == seq!['b', 'a', 's', 'h'] {
        ShellIntegration::Bash
    } else if name == seq!['z', 's', 'h'] {
        ShellIntegration::Zsh
    } else if name == seq!['f', 'i', 's', 'h'] {
        ShellIntegration::Fish
    } else {
        ShellIntegration::Unsupported
    }
}

/// Choose the shell integration for a shell path.
pub fn shell_integration_for(shell: &str) -> (kind: ShellIntegration)
    ensures
        kind == integration_for(shell@),
{
    let name = basename_from_path(shell);
    let c = str_chars(name.as_str());
    proof {
        assert(['b', 'a', 's', 'h']@ =~= seq!['b', 'a', 's', 'h']);
        assert(['z', 's', 'h']@ =~= seq!['z', 's', 'h']);
        assert(['f', 'i', 's', 'h']@ =~= seq!['f', 'i', 's', 'h']);
    }
    if chars_equal(&c, &['b', 'a', 's', 'h']) {
        ShellIntegration::Bash
    } else if chars_equal(&c, &['z', 's', 'h']) {
        ShellIntegration::Zsh
    } else if chars_equal(&c, &['f', 'i', 's', 'h']) {
        ShellIntegration::Fish
    } else {
        ShellIntegration::Unsupported
    }
}

/// The process names taken for a shell are exactly zsh, bash, fish, sh,
/// dash, tcsh, csh and ksh: each of them is, and nothing else is.
pub proof fn lemma_shell_names(name: Seq<char>)
    ensures
        is_shell_name(name) <==> (
            name =~= seq!['z', 's', 'h'] || name =~= seq!['b', 'a', 's', 'h'] || name =~= seq!['f', 'i', 's', 'h']
            || name =~= seq!['s', 'h'] || name =~= seq!['d', 'a', 's', 'h'] || name =~= seq!['t', 'c', 's', 'h']
            || name =~= seq!['c', 's', 'h'] || name =~= seq!['k', 's', 'h']),
        is_shell_name(seq!['t', 'c', 's', 'h']),
        is_shell_name(seq!['c', 's', 'h']),
        is_shell_name(seq!['k', 's', 'h']),
        is_shell_name(seq!['d', 'a', 's', 'h']),
        is_shell_name(name) ==> 2 <= name.len() <= 4 && name[name.len() - 2] == 's' && name[name.len() - 1] == 'h',
{
}

} // verus!
