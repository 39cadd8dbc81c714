//! The library's error type and the process exit code each error maps to.

use crate::text::{decimal, push_decimal, push_str, string_of};
use vstd::prelude::*;

verus! {

/// What can go wrong. Errors that come from outside the library (network,
/// file system) carry the outside error's message as plain text.
#[derive(Debug)]
pub enum Error {
    /// Authentication is required: run `bgg auth`.
    AuthRequired,
    /// BGG kept answering "queued" for this many attempts.
    QueueTimeout { attempts: u32 },
    /// BGG answered with its rate-limit status.
    RateLimited,
    /// A network failure, by its message.
    Network(String),
    /// Malformed data from BGG, the cache or the config, by message.
    Parse(String),
    /// A file-system failure on `path`, by message.
    Cache { path: String, source: String },
    /// A credential-store failure, by message.
    Secrets(String),
    /// No cached collection for this user.
    NoCache(String),
    /// No logged-in user.
    NoUser,
    /// A command-line argument that the library refuses, by message.
    BadArg(String),
}

/// The exit code of an error: 2 when the user must authenticate, 1 otherwise.
pub open spec fn exit_code_of(e: Error) -> i32 {
    match e {
        Error::AuthRequired | Error::NoUser => 2,
        _ => 1,
    }
}

/// Whether `e` is a refused argument with message `m`.
pub open spec fn is_bad_arg(e: Error, m: Seq<char>) -> bool {
    match e {
        Error::BadArg(s) => s@ == m,
        _ => false,
    }
}

impl Error {
    /// The process exit code for this error.
    pub fn exit_code(&self) -> (code: i32)
        ensures
            code == exit_code_of(*self),
    {
        match self {
            Error::AuthRequired | Error::NoUser => 2,
            _ => 1,
        }
    }
}

/// The one-line message shown for an error.
pub open spec fn error_text(e: Error) -> Seq<char> {
    match e {
        Error::AuthRequired => "authentication required: run `bgg auth`"@,
        Error::QueueTimeout { attempts } => "BGG queued the request and did not return data after "@
            + decimal(attempts as nat) + " retries"@,
        Error::RateLimited => "BGG rate limit hit"@,
        Error::Network(m) => "network error: "@ + m@,
        Error::Parse(m) => "failed to parse BGG XML: "@ + m@,
        Error::Cache { path, source } => "cache error at "@ + path@ + ": "@ + source@,
        Error::Secrets(m) => "secrets error: "@ + m@,
        Error::NoCache(u) => "no cached collection for user "@ + u@ + "; run `bgg sync`"@,
        Error::NoUser => "no logged-in user; run `bgg auth`"@,
        Error::BadArg(m) => m@,
    }
}

impl Error {
    /// The one-line message shown for this error.
    pub fn message(&self) -> (m: String)
        ensures
            m@ == error_text(*self),
    {
        let mut out: Vec<char> = Vec::new();
        match self {
            Error::AuthRequired => push_str(&mut out, "authentication required: run `bgg auth`"),
            Error::QueueTimeout { attempts } => {
                push_str(&mut out, "BGG queued the request and did not return data after ");
                push_decimal(&mut out, *attempts as u64);
                push_str(&mut out, " retries");
            },
            Error::RateLimited => push_str(&mut out, "BGG rate limit hit"),
            Error::Network(m) => {
                push_str(&mut out, "network error: ");
                push_str(&mut out, m.as_str());
            },
            Error::Parse(m) => {
                push_str(&mut out, "failed to parse BGG XML: ");
                push_str(&mut out, m.as_str());
            },
            Error::Cache { path, source } => {
                push_str(&mut out, "cache error at ");
                push_str(&mut out, path.as_str());
                push_str(&mut out, ": ");
                push_str(&mut out, source.as_str());
            },
            Error::Secrets(m) => {
                push_str(&mut out, "secrets error: ");
                push_str(&mut out, m.as_str());
            },
            Error::NoCache(u) => {
                push_str(&mut out, "no cached collection for user ");
                push_str(&mut out, u.as_str());
                push_str(&mut out, "; run `bgg sync`");
            },
            Error::NoUser => push_str(&mut out, "no logged-in user; run `bgg auth`"),
            Error::BadArg(m) => push_str(&mut out, m.as_str()),
        }
        proof {
            assert(out@ =~= error_text(*self));
        }
        string_of(&out)
    }
}

} // verus!
