//! Strict `~/` expansion for paths the engine writes to.
use vstd::prelude::*;

use crate::config::{opt_str_view, path_exists};
use crate::extract::join_path_spec;
use crate::text::{chars_of, copy_range, matches_at, starts_with, string_of};

verus! {

broadcast use vstd::string::group_string_axioms;

#[derive(Debug, Clone, Copy, PartialEq, Eq, Structural)]
pub enum UtilsError {
    /// The path does not start with `~/`.
    NoTilde,
    /// No home directory is known.
    NoHome,
}

/// `home` joined with the rest of a `~/` path (an absolute rest replaces it).
pub open spec fn expand_strict_spec(path: Seq<char>, home: Option<Seq<char>>) -> Result<
    Seq<char>,
    UtilsError,
> {
    if !starts_with(path, "~/"@) {
        Err(UtilsError::NoTilde)
    } else {
        match home {
            None => Err(UtilsError::NoHome),
            Some(h) => {
                let rest = path.subrange(2, path.len() as int);
                if rest.len() > 0 && rest[0] == '/' {
                    Ok(rest)
                } else {
                    Ok(join_path_spec(h, rest))
                }
            },
        }
    }
}

impl UtilsError {
    /// What went wrong, in words.
    pub fn message(&self) -> (r: &'static str)
        ensures
            *self == UtilsError::NoTilde ==> r@ == "path must start with ~/"@,
            *self == UtilsError::NoHome ==> r@ == "no home variable was found"@,
    {
        match self {
            UtilsError::NoTilde => "path must start with ~/",
            UtilsError::NoHome => "no home variable was found",
        }
    }
}

/// Expands a path that must start with `~/` against `home`, the value of the
/// home-directory variable if it is set.
pub fn expand_tilde(path: &str, home: Option<&str>) -> (r: Result<String, UtilsError>)
    ensures
        match r {
            Ok(s) => expand_strict_spec(path@, opt_str_view(home)) == Ok::<Seq<char>, UtilsError>(s@),
            Err(e) => expand_strict_spec(path@, opt_str_view(home)) == Err::<Seq<char>, UtilsError>(e),
        },
{
    proof {
        reveal_strlit("~/");
    }
    let cs = chars_of(path);
    let s = cs.as_slice();
    assert(s@.subrange(0, s@.len() as int) =~= path@);
    if !matches_at(s, 0, cs.len(), "~/") {
        return Err(UtilsError::NoTilde);
    }
    let h = match home {
        Some(h) => h,
        None => {
            return Err(UtilsError::NoHome);
        },
    };
    let rest = copy_range(s, 2, cs.len());
    if rest.len() > 0 && rest[0] == '/' {
        return Ok(string_of(rest.as_slice()));
    }
    let rs = string_of(rest.as_slice());
    Ok(crate::extract::join_path(h, rs.as_str()))
}

/// Whether the output config file exists; a `~/` path that cannot be
/// expanded counts as missing.
pub fn monitor_config_exists(path: &str, home: Option<&str>) -> (r: bool)
    ensures
        expand_strict_spec(path@, opt_str_view(home)) is Err && starts_with(path@, "~/"@) ==> !r,
{
    proof {
        reveal_strlit("~/");
    }
    let cs = chars_of(path);
    assert(cs@.subrange(0, cs@.len() as int) =~= path@);
    if matches_at(cs.as_slice(), 0, cs.len(), "~/") {
        match expand_tilde(path, home) {
            Ok(p) => path_exists(p.as_str()),
            Err(_) => false,
        }
    } else {
        path_exists(path)
    }
}

} // verus!
