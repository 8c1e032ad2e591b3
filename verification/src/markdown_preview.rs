//! Path resolution for the markdown preview: `~` expansion and paths
//! relative to a pane's working directory.

use vstd::prelude::*;
use crate::text::{append_chars, append_chars_from, str_chars, string_from_chars};

verus! {

/// A path that names the home directory or something below it: `~` alone
/// or starting with `~/`.
pub open spec fn is_home_relative(path: Seq<char>) -> bool {
    path == seq!['~'] || (path.len() >= 2 && path[0] == '~' && path[1] == '/')
}

/// An absolute path on Unix: one that starts with the root `/`.
pub open spec fn is_absolute_path(path: Seq<char>) -> bool {
    path.len() > 0 && path[0] == '/'
}

/// `base` joined with the relative path `rel`, with one `/` between them
/// unless `base` is empty or already ends in `/` (`Path::join`).
pub open spec fn join_path(base: Seq<char>, rel: Seq<char>) -> Seq<char> {
    if base.len() > 0 && base.last() != '/' {
        base + seq!['/'] + rel
    } else {
        base + rel
    }
}

/// The expanded path: `~` replaced by the home directory when one is
/// known, else a relative path resolved against the pane's working
/// directory when one is known, else the path as it is.
pub open spec fn expand_path_spec(path: Seq<char>, pane_cwd: Option<Seq<char>>, home: Option<Seq<char>>) -> Seq<char> {
    if is_home_relative(path) && home is Some {
        if path.len() == 1 {
            home->0
        } else {
            home->0 + path.drop_first()
        }
    } else if !is_absolute_path(path) && pane_cwd is Some {
        join_path(pane_cwd->0, path)
    } else {
        path
    }
}

/// Expand a `~` prefix to the user's home directory (`home`, the value of
/// `$HOME` if set), and resolve relative paths against the given pane
/// working directory (from shell integration OSC 7).
pub fn expand_path(path: &str, pane_cwd: Option<&str>, home: Option<&str>) -> (expanded: String)
    ensures
        expanded@ == expand_path_spec(
            path@,
            match pane_cwd {
                Some(c) => Some(c@),
                None => None,
            },
            match home {
                Some(h) => Some(h@),
                None => None,
            },
        ),
{
    let p = str_chars(path);
    let home_relative = (p.len() == 1 && p[0] == '~') || (p.len() >= 2 && p[0] == '~' && p[1] == '/');
    proof {
        if p@ == seq!['~'] {
            assert(p@.len() == 1 && p@[0] == '~');
        }
        if p@.len() == 1 && p@[0] == '~' {
            assert(p@ =~= seq!['~']);
        }
    }
    if home_relative {
        if let Some(h) = home {
            if p.len() == 1 {
                return h.to_string();
            }
            let mut out = str_chars(h);
            append_chars_from(&mut out, p.as_slice(), 1);
            assert(p@.subrange(1, p@.len() as int) =~= p@.drop_first());
            return string_from_chars(out.as_slice());
        }
    }
    let absolute = p.len() > 0 && p[0] == '/';
    if !absolute {
        if let Some(c) = pane_cwd {
            let mut out = str_chars(c);
            let n = out.len();
            if n > 0 && out[n - 1] != '/' {
                out.push('/');
            }
            append_chars(&mut out, p.as_slice());
            return string_from_chars(out.as_slice());
        }
    }
    path.to_string()
}

} // verus!
