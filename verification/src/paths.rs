//! Where a path written in a configuration leads.

use crate::trusted::{
    is_absolute, join, path_is_absolute, path_join, path_starts_with, path_strip_prefix,
    starts_with, strip_prefix,
};
use vstd::prelude::*;

verus! {

/// Where `path` leads for a user whose home directory is `home_dir` and who
/// works in `current_dir`. A path under `~` leads into the home directory,
/// and nowhere if there is none; an absolute path leads where it says; any
/// other path is taken from the working directory.
pub open spec fn resolved_path(
    path: Seq<char>,
    home_dir: Option<Seq<char>>,
    current_dir: Seq<char>,
) -> Option<Seq<char>> {
    if path_starts_with(path, "~"@) {
        match (home_dir, path_strip_prefix(path, "~"@)) {
            (Some(home), Some(rest)) => Some(path_join(home, rest)),
            _ => None,
        }
    } else if path_is_absolute(path) {
        Some(path)
    } else {
        Some(path_join(current_dir, path))
    }
}

/// Resolves a path as written in a configuration. The home directory and
/// the working directory are the caller's to find out.
pub fn resolve_path(path: &str, home_dir: Option<&str>, current_dir: &str) -> (resolved: Option<String>)
    ensures
        match resolved {
            Some(r) => resolved_path(
                path@,
                match home_dir {
                    Some(h) => Some(h@),
                    None => None,
                },
                current_dir@,
            ) == Some(r@),
            None => resolved_path(
                path@,
                match home_dir {
                    Some(h) => Some(h@),
                    None => None,
                },
                current_dir@,
            ).is_none(),
        },
{
    if starts_with(path, "~") {
        match (home_dir, strip_prefix(path, "~")) {
            (Some(home), Some(rest)) => Some(join(home, rest.as_str())),
            _ => None,
        }
    } else if is_absolute(path) {
        Some(path.to_owned())
    } else {
        Some(join(current_dir, path))
    }
}

} // verus!
