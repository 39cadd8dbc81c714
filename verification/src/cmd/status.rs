//! `bgg status` and the bare `bgg` summary: what they say about the login
//! and the cache, given what was found.

use crate::error::{error_text, Error};
use crate::text::{decimal, push_decimal, push_str, string_of};
use vstd::prelude::*;

verus! {

/// What is said when no user is configured.
pub open spec fn no_user_message() -> Seq<char> {
    "No logged-in user. Run `bgg auth`."@
}

/// What is said when no user is configured.
pub fn no_user_line() -> (s: String)
    ensures
        s@ == no_user_message(),
{
    "No logged-in user. Run `bgg auth`.".to_owned()
}

/// What the summary says to a user who has not synced yet.
pub fn not_synced_line(username: &str) -> (s: String)
    ensures
        s@ == "Logged in as "@ + username@ + ". Run `bgg sync` to fetch your collection."@,
{
    let mut out: Vec<char> = Vec::new();
    push_str(&mut out, "Logged in as ");
    push_str(&mut out, username);
    push_str(&mut out, ". Run `bgg sync` to fetch your collection.");
    string_of(&out)
}

/// The login lines of the status for `username`, given how loading the
/// stored credentials went; the flag says whether the cache is reported
/// next (not after a credential-store failure).
pub open spec fn auth_lines_of(username: Seq<char>, creds: Result<(), Error>) -> (Seq<Seq<char>>, bool) {
    match creds {
        Ok(()) => (seq!["User:  "@ + username, "Auth:  cookies present"@], true),
        Err(Error::AuthRequired) => (
            seq!["User:  "@ + username, "Auth:  no cookies stored — run `bgg auth`"@],
            true,
        ),
        Err(e) => (seq!["User: "@ + username, "Auth: error ("@ + error_text(e) + ")"@], false),
    }
}

fn line2(a: &str, b: &str) -> (s: String)
    ensures
        s@ == a@ + b@,
{
    let mut out: Vec<char> = Vec::new();
    push_str(&mut out, a);
    push_str(&mut out, b);
    string_of(&out)
}

/// The login lines of the status, and whether the cache is reported next.
pub fn auth_lines(username: &str, creds: &Result<(), Error>) -> (r: (Vec<String>, bool))
    ensures
        r.0@.len() == auth_lines_of(username@, *creds).0.len(),
        forall|k: int| 0 <= k < r.0@.len() ==> (#[trigger] r.0@[k])@ == auth_lines_of(username@, *creds).0[k],
        r.1 == auth_lines_of(username@, *creds).1,
{
    let mut lines: Vec<String> = Vec::new();
    match creds {
        Ok(()) => {
            lines.push(line2("User:  ", username));
            lines.push("Auth:  cookies present".to_owned());
            (lines, true)
        },
        Err(Error::AuthRequired) => {
            lines.push(line2("User:  ", username));
            lines.push("Auth:  no cookies stored — run `bgg auth`".to_owned());
            (lines, true)
        },
        Err(e) => {
            lines.push(line2("User: ", username));
            let m = e.message();
            let mut out: Vec<char> = Vec::new();
            push_str(&mut out, "Auth: error (");
            push_str(&mut out, m.as_str());
            push_str(&mut out, ")");
            lines.push(string_of(&out));
            (lines, false)
        },
    }
}

/// What a loaded cache shows: how many items, where, and when it was last
/// synced (as RFC 3339 text), if ever.
#[derive(Debug)]
pub struct CacheSeen {
    pub items: usize,
    pub path: String,
    pub last_sync: Option<String>,
}

/// The cache lines of the status, given how loading the cache went.
pub open spec fn cache_lines_of(cache: Result<CacheSeen, Error>) -> Seq<Seq<char>> {
    match cache {
        Ok(c) => seq![
            "Cache: "@ + decimal(c.items as nat) + " items at "@ + c.path@,
            "Last sync: "@ + match c.last_sync {
                Some(t) => t@,
                None => "never"@,
            },
            "Note: incremental sync does not detect deletions. Use `bgg sync --full`."@,
        ],
        Err(Error::NoCache(_)) => seq!["Cache: none yet. Run `bgg sync`."@],
        Err(e) => seq!["Cache: error ("@ + error_text(e) + ")"@],
    }
}

/// The cache lines of the status.
pub fn cache_lines(cache: &Result<CacheSeen, Error>) -> (lines: Vec<String>)
    ensures
        lines@.len() == cache_lines_of(*cache).len(),
        forall|k: int| 0 <= k < lines@.len() ==> (#[trigger] lines@[k])@ == cache_lines_of(*cache)[k],
{
    let mut lines: Vec<String> = Vec::new();
    match cache {
        Ok(c) => {
            let mut out: Vec<char> = Vec::new();
            push_str(&mut out, "Cache: ");
            push_decimal(&mut out, c.items as u64);
            push_str(&mut out, " items at ");
            push_str(&mut out, c.path.as_str());
            lines.push(string_of(&out));
            let when = match &c.last_sync {
                Some(t) => line2("Last sync: ", t.as_str()),
                None => line2("Last sync: ", "never"),
            };
            lines.push(when);
            lines.push(
                "Note: incremental sync does not detect deletions. Use `bgg sync --full`.".to_owned(),
            );
        },
        Err(Error::NoCache(_)) => {
            lines.push("Cache: none yet. Run `bgg sync`.".to_owned());
        },
        Err(e) => {
            let m = e.message();
            let mut out: Vec<char> = Vec::new();
            push_str(&mut out, "Cache: error (");
            push_str(&mut out, m.as_str());
            push_str(&mut out, ")");
            lines.push(string_of(&out));
        },
    }
    lines
}

} // verus!
