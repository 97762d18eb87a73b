//! Paths as text, with `/` between their parts.

use vstd::prelude::*;
use crate::text::{chars_of, string_of};

verus! {

/// The path `rest` as seen from the directory `base`: `rest` itself where
/// it starts at the root, else `base` and `rest` with one `/` between them.
pub open spec fn joined_path(base: Seq<char>, rest: Seq<char>) -> Seq<char> {
    if rest.len() > 0 && rest[0] == '/' {
        rest
    } else if base.len() == 0 || base.last() == '/' {
        base + rest
    } else {
        base + seq!['/'] + rest
    }
}

/// Whether `path` starts with `~/`.
pub open spec fn starts_at_home(path: Seq<char>) -> bool {
    path.len() >= 2 && path[0] == '~' && path[1] == '/'
}

/// The path with a leading `~/` replaced by the home directory, where one
/// is known; any other path as it is.
pub open spec fn expanded_path(path: Seq<char>, home: Option<Seq<char>>) -> Seq<char> {
    match home {
        Some(directory) => if starts_at_home(path) {
            joined_path(directory, path.skip(2))
        } else {
            path
        },
        None => path,
    }
}

/// What an optional text holds.
pub open spec fn text_view(text: Option<&str>) -> Option<Seq<char>> {
    match text {
        Some(s) => Some(s@),
        None => None,
    }
}

/// The path `rest` as seen from the directory `base`.
pub fn join_path(base: &str, rest: &str) -> (path: String)
    ensures
        path@ == joined_path(base@, rest@),
{
    let head = chars_of(base);
    let tail = chars_of(rest);
    if tail.len() > 0 && tail[0] == '/' {
        return rest.to_owned();
    }
    let mut path = base.to_owned();
    if head.len() > 0 && head[head.len() - 1] != '/' {
        path.push('/');
    }
    path.append(rest);
    path
}

/// Replaces a leading `~/` of `path` by the home directory `home`. Without
/// a home directory, and for any other path, the path stays as it is.
pub fn expand_tilde(path: &str, home: Option<&str>) -> (expanded: String)
    ensures
        expanded@ == expanded_path(path@, text_view(home)),
{
    let chars = chars_of(path);
    match home {
        Some(directory) => {
            if chars.len() >= 2 && chars[0] == '~' && chars[1] == '/' {
                let rest = string_of(&chars, 2, chars.len());
                join_path(directory, rest.as_str())
            } else {
                path.to_owned()
            }
        },
        None => path.to_owned(),
    }
}

} // verus!
