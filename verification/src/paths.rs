//! Where the tool keeps its files: the config file under the user's config
//! directory and one cache file per user under the state directory (the
//! data directory where the platform has no state directory).

use crate::text::{push_str, string_of};
use vstd::prelude::*;

verus! {

/// The platform directories of this tool, as text.
#[derive(Debug, Clone)]
pub struct ProjectPaths {
    pub config: String,
    pub data: String,
    pub state: Option<String>,
}

/// The name of the tool's own directory inside each platform directory.
pub open spec fn project_dir_name() -> Seq<char> {
    "bgg-cli"@
}

/// Whether `t` occurs in `s`.
pub open spec fn contains_text(s: Seq<char>, t: Seq<char>) -> bool {
    exists|i: int| 0 <= i && i + t.len() <= s.len() && #[trigger] s.subrange(i, i + t.len()) == t
}

/// Whether each directory is one of the tool's own: its path holds the
/// component `bgg-cli`.
pub open spec fn own_dirs(p: ProjectPaths) -> bool {
    &&& contains_text(p.config@, project_dir_name())
    &&& contains_text(p.data@, project_dir_name())
    &&& match p.state {
        Some(s) => contains_text(s@, project_dir_name()),
        None => true,
    }
}

/// Calls `directories::ProjectDirs::from("", "", "bgg-cli")` and reads its
/// config, data and state directories as text. Where they lie depends on
/// the environment (the home directory, the XDG variables), and whether any
/// come back depends on finding a home directory, so neither is claimed.
/// What is claimed holds of every outcome: on each platform the crate's
/// source builds the project path from the application name alone, as
/// `bgg-cli`, and joins it into every directory it returns (Linux: the base
/// directory, then `bgg-cli`; macOS: `Library/...`, then `bgg-cli`;
/// Windows: the app-data folder, then `bgg-cli`, then `config` or `data`),
/// and that ASCII text survives `to_string_lossy`. A directory whose path
/// is not valid Unicode is read with replacement characters, as
/// `to_string_lossy` does; the tool handles its paths as text.
#[verifier::external_body]
fn project_paths() -> (r: Option<ProjectPaths>)
    ensures
        match r {
            Some(p) => own_dirs(p),
            None => true,
        },
{
    directories::ProjectDirs::from("", "", "bgg-cli").map(
        |d| ProjectPaths {
            config: d.config_dir().to_string_lossy().into_owned(),
            data: d.data_dir().to_string_lossy().into_owned(),
            state: d.state_dir().map(|p| p.to_string_lossy().into_owned()),
        },
    )
}

/// Whether `name` is a relative path: not empty, no root, no drive.
pub open spec fn relative_name(name: Seq<char>) -> bool {
    &&& name.len() > 0
    &&& name[0] != '/'
    &&& name[0] != '\\'
    &&& !(name.len() >= 2 && name[1] == ':')
}

/// `dir` joined with the relative path `name`, as `PathBuf::push` writes
/// it: `name` alone onto an empty `dir`; `name` right after a `dir` that
/// ends in `/`; after a `dir` that ends in `\\` or is a bare drive such as
/// `C:`, either `name` right after it (Windows) or a separator and then
/// `name` (elsewhere); after any other `dir`, a separator (the platform's
/// own) and then `name`.
pub open spec fn joined(r: Seq<char>, dir: Seq<char>, name: Seq<char>) -> bool {
    if dir.len() == 0 {
        r == name
    } else if dir.last() == '/' {
        r == dir + name
    } else if dir.last() == '\\' || (dir.len() == 2 && dir[1] == ':') {
        r == dir + name || exists|c: char| is_separator(c) && r == #[trigger] dir.push(c) + name
    } else {
        exists|c: char| is_separator(c) && r == #[trigger] dir.push(c) + name
    }
}

/// Whether `c` separates path components on some platform.
pub open spec fn is_separator(c: char) -> bool {
    c == '/' || c == '\\'
}

/// Whether `dir` may begin with a Windows verbatim prefix (`\\?\`, where
/// Windows also reads `/` for `\\` in a prefix). Joining onto such a
/// directory rebuilds the path from its components, dropping `.` and `..`.
pub open spec fn verbatim_dir(dir: Seq<char>) -> bool {
    dir.len() >= 3 && is_separator(dir[0]) && is_separator(dir[1]) && dir[2] == '?'
}

/// Calls `std::path::Path::new(dir).join(name)` and reads the result as
/// text. For a relative `name`, `PathBuf::push` appends it to `dir` as it
/// is, adding the platform's separator (`/`, or `\\` on Windows) if `dir`
/// is not empty and does not end in a separator, and none after a bare
/// drive such as `C:` on Windows: what `joined` states. That is claimed only for a
/// `dir` without a verbatim prefix; onto one, Windows rebuilds the path from
/// its components, and nothing is claimed then.
#[verifier::external_body]
fn join_path(dir: &str, name: &str) -> (r: String)
    requires
        relative_name(name@),
    ensures
        !verbatim_dir(dir@) ==> joined(r@, dir@, name@),
{
    std::path::Path::new(dir).join(name).to_string_lossy().into_owned()
}

/// The directory for the cache: the state directory, else the data directory.
pub open spec fn state_dir_of(p: ProjectPaths) -> Seq<char> {
    match p.state {
        Some(s) => s@,
        None => p.data@,
    }
}

/// The cache directory of these platform directories.
pub fn state_dir_in(p: &ProjectPaths) -> (r: String)
    ensures
        r@ == state_dir_of(*p),
{
    match &p.state {
        Some(s) => s.clone(),
        None => p.data.clone(),
    }
}

/// The config file's name.
pub open spec fn config_file_name() -> Seq<char> {
    "config.toml"@
}

/// The name of the cache file of `username`.
pub open spec fn cache_file_name(username: Seq<char>) -> Seq<char> {
    "collection-"@ + username + ".json"@
}

/// The config file under these platform directories.
pub fn config_file_in(p: &ProjectPaths) -> (r: String)
    ensures
        !verbatim_dir(p.config@) ==> joined(r@, p.config@, config_file_name()),
{
    proof {
        reveal_strlit("config.toml");
    }
    join_path(p.config.as_str(), "config.toml")
}

/// The cache file of `username` under these platform directories.
pub fn cache_file_in(p: &ProjectPaths, username: &str) -> (r: String)
    ensures
        !verbatim_dir(state_dir_of(*p)) ==> joined(r@, state_dir_of(*p), cache_file_name(username@)),
{
    let mut name: Vec<char> = Vec::new();
    push_str(&mut name, "collection-");
    push_str(&mut name, username);
    push_str(&mut name, ".json");
    proof {
        reveal_strlit("collection-");
        assert(name@ =~= cache_file_name(username@));
        assert(name@[0] == 'c' && name@[1] == 'o');
    }
    let dir = state_dir_in(p);
    let file = string_of(&name);
    join_path(dir.as_str(), file.as_str())
}

/// The directory the cache lives in, if the platform directories can be
/// found: one of the tool's own (its path holds `bgg-cli`).
pub fn state_dir() -> (r: Option<String>)
    ensures
        match r {
            Some(d) => contains_text(d@, project_dir_name()),
            None => true,
        },
{
    match project_paths() {
        Some(p) => Some(state_dir_in(&p)),
        None => None,
    }
}

/// The directory the config lives in, if the platform directories can be
/// found: one of the tool's own (its path holds `bgg-cli`).
pub fn config_dir() -> (r: Option<String>)
    ensures
        match r {
            Some(d) => contains_text(d@, project_dir_name()),
            None => true,
        },
{
    match project_paths() {
        Some(p) => Some(p.config),
        None => None,
    }
}

/// Whether `f` is the file `name` inside one of the tool's own
/// directories: some directory whose path holds `bgg-cli` and, where it has
/// no verbatim prefix, that `f` extends by `name` as `joined` states.
pub open spec fn in_own_dir(f: Seq<char>, name: Seq<char>) -> bool {
    exists|d: Seq<char>|
        #[trigger] contains_text(d, project_dir_name()) && (!verbatim_dir(d) ==> joined(f, d, name))
}

/// The config file, if the platform directories can be found: `config.toml`
/// inside the tool's own config directory.
pub fn config_file() -> (r: Option<String>)
    ensures
        match r {
            Some(f) => in_own_dir(f@, config_file_name()),
            None => true,
        },
{
    match project_paths() {
        Some(p) => {
            let f = config_file_in(&p);
            assert(contains_text(p.config@, project_dir_name()));
            Some(f)
        },
        None => None,
    }
}

/// The cache file of `username`, if the platform directories can be found:
/// `collection-<username>.json` inside the tool's own state directory (the
/// data directory where the platform has none).
pub fn cache_file(username: &str) -> (r: Option<String>)
    ensures
        match r {
            Some(f) => in_own_dir(f@, cache_file_name(username@)),
            None => true,
        },
{
    match project_paths() {
        Some(p) => {
            let f = cache_file_in(&p, username);
            assert(contains_text(state_dir_of(p), project_dir_name()));
            Some(f)
        },
        None => None,
    }
}

} // verus!
