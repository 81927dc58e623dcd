//! The engine's own settings, and paths written with a leading `~/`.
use vstd::prelude::*;

use crate::text::{chars_of, matches_at, push_chars, starts_with, string_of};

verus! {

broadcast use vstd::string::group_string_axioms;

/// Workspaces offered when the settings name no count.
pub fn default_workspace_count() -> (r: usize)
    ensures
        r == 10,
{
    10
}

/// Where the output config lives and how many workspaces to offer.
#[derive(Debug, Clone, PartialEq)]
pub struct AppConfig {
    pub monitor_config_path: String,
    pub workspace_count: usize,
}

/// The engine's settings file: the output config it owns and the workspace count.
#[derive(Debug, Clone, PartialEq)]
pub struct Config {
    pub monitor_config_path: String,
    pub workspace_count: usize,
}

/// Relies on `std::path::Path::exists`: whether something is at that path
/// now. Nothing is promised of the answer, which depends on the disk.
#[verifier::external_body]
pub(crate) fn path_exists(path: &str) -> bool {
    std::path::Path::new(path).exists()
}

/// `path` with a leading `~/` replaced by `home` and a slash; unchanged when
/// it has no such prefix or no home is known.
pub open spec fn expand_tilde_spec(path: Seq<char>, home: Option<Seq<char>>) -> Seq<char> {
    if starts_with(path, "~/"@) && home is Some {
        home->0 + "/"@ + path.subrange(2, path.len() as int)
    } else {
        path
    }
}

pub open spec fn opt_str_view(o: Option<&str>) -> Option<Seq<char>> {
    match o {
        Some(s) => Some(s@),
        None => None,
    }
}

/// Expands a leading `~/` against `home`, the value of the home-directory
/// variable if it is set.
pub fn expand_tilde(path: &str, home: Option<&str>) -> (r: String)
    ensures
        r@ == expand_tilde_spec(path@, opt_str_view(home)),
{
    proof {
        reveal_strlit("~/");
        reveal_strlit("/");
    }
    let cs = chars_of(path);
    let s = cs.as_slice();
    assert(s@.subrange(0, s@.len() as int) =~= path@);
    if matches_at(s, 0, cs.len(), "~/") {
        if let Some(h) = home {
            let mut out = chars_of(h);
            out.push('/');
            push_chars(&mut out, &s[2..cs.len()]);
            assert(out@ =~= h@ + "/"@ + path@.subrange(2, path@.len() as int));
            return string_of(out.as_slice());
        }
    }
    String::from_str(path)
}

/// Whether the output config file exists, with `~/` expanded against `home`
/// (kept literal when no home is known).
pub fn monitor_config_exists(path: &str, home: Option<&str>) -> bool {
    let expanded = expand_tilde(path, home);
    path_exists(expanded.as_str())
}

} // verus!
