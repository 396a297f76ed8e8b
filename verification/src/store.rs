//! The truth layer: what is stored, and what is decided about the store. The database
//! itself is the caller's.
pub mod model;

use crate::number::{decimal_i64, integer_of, parse_i64, signed};
use crate::text::owned;
use vstd::prelude::*;

verus! {

pub const CODEATLAS_DIR: &'static str = ".codeatlas";

pub const DB_FILE: &'static str = "codeatlas.db";

/// The version of the schema that this build writes.
pub const SCHEMA_VERSION: i64 = 2;

/// The first directory, from place `i` on, that holds a knowledge base.
pub open spec fn owner_from(dirs: Seq<(Seq<char>, bool)>, i: int) -> Option<Seq<char>>
    decreases dirs.len() - i,
{
    if i < 0 || i >= dirs.len() {
        None
    } else if dirs[i].1 {
        Some(dirs[i].0)
    } else {
        owner_from(dirs, i + 1)
    }
}

/// What is said where no directory holds a knowledge base.
pub open spec fn no_root_error(start: Seq<char>) -> Seq<char> {
    "在 "@ + start + " 及其上级目录中找不到 "@ + CODEATLAS_DIR@ + "/"@ + DB_FILE@
        + " — 先运行 `catlas init`"@
}

/// Find the project root owning a knowledge base, given a directory and its ancestors
/// from the nearest on, each with whether it holds one.
///
/// Works the way `git` finds `.git/`, and for the same reason: a command is
/// often run from a subdirectory. It matters most for `catlas mcp`, whose
/// working directory is chosen by the MCP client (a session inherits the
/// directory it was launched from, not necessarily the project root), which
/// is why the server can be registered without an explicit `--path`.
pub fn find_root(start: &str, dirs: &Vec<(String, bool)>) -> (r: Result<String, String>)
    ensures
        match r {
            Ok(root) => owner_from(dirs.deep_view(), 0) == Some(root@),
            Err(e) => owner_from(dirs.deep_view(), 0) is None && e@ == no_root_error(start@),
        },
{
    let ghost d = dirs.deep_view();
    let mut i: usize = 0;
    while i < dirs.len()
        invariant
            i <= dirs.len(),
            d == dirs.deep_view(),
            owner_from(d, 0) == owner_from(d, i as int),
        decreases dirs.len() - i,
    {
        assert(d[i as int] == (dirs@[i as int].0@, dirs@[i as int].1));
        if dirs[i].1 {
            return Ok(dirs[i].0.clone());
        }
        i += 1;
    }
    let mut e = owned("在 ");
    e.append(start);
    e.append(" 及其上级目录中找不到 ");
    e.append(CODEATLAS_DIR);
    e.append("/");
    e.append(DB_FILE);
    e.append(" — 先运行 `catlas init`");
    Err(e)
}

/// The version that a database says it has; none of its own counts as the oldest.
pub open spec fn version_read(stored: Seq<char>) -> int {
    match integer_of(stored) {
        Some(v) => v,
        None => 0,
    }
}

/// What is said of a database that a newer build wrote.
pub open spec fn newer_error(v: int) -> Seq<char> {
    "database schema v"@ + signed(v) + " is newer than this build (v"@ + signed(
        SCHEMA_VERSION as int,
    ) + ") — upgrade `catlas`"@
}

/// Decides on a database by the version it holds: whether the version is to be written,
/// which is so for a new one. A database that a newer build wrote is refused.
pub fn check_version(stored: &Option<String>) -> (r: Result<bool, String>)
    ensures
        match r {
            Ok(fresh) => match stored.deep_view() {
                None => fresh,
                Some(v) => !fresh && version_read(v) <= SCHEMA_VERSION,
            },
            Err(e) => stored.deep_view() matches Some(v) && version_read(v) > SCHEMA_VERSION && e@
                == newer_error(version_read(v)),
        },
{
    match stored {
        None => Ok(true),
        Some(s) => {
            let v: i64 = match parse_i64(s.as_str()) {
                Some(n) => n,
                None => 0,
            };
            if v <= SCHEMA_VERSION {
                return Ok(false);
            }
            let mut e = owned("database schema v");
            e.append(decimal_i64(v).as_str());
            e.append(" is newer than this build (v");
            e.append(decimal_i64(SCHEMA_VERSION).as_str());
            e.append(") — upgrade `catlas`");
            Err(e)
        },
    }
}

} // verus!
