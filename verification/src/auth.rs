//! Logging in to BGG: where the login request goes, and reading the three
//! session cookies out of the response's `Set-Cookie` headers.

use crate::error::Error;
use crate::model::Cookies;
use crate::text::{chars_of, eq_lit, find_char, find_char_exec, push_str, slice_chars, string_of, trim, trim_chars};
use vstd::prelude::*;

verus! {

/// The path of BGG's login endpoint.
pub open spec fn login_path() -> Seq<char> {
    "/login/api/v1"@
}

/// The URL the login request is posted to: the base URL and the login path.
pub fn login_url(base: &str) -> (u: String)
    ensures
        u@ == base@ + login_path(),
{
    let mut out: Vec<char> = Vec::new();
    push_str(&mut out, base);
    push_str(&mut out, "/login/api/v1");
    string_of(&out)
}

/// The `name=value` part of a `Set-Cookie` value: everything before the
/// first `;`.
pub open spec fn cookie_pair_text(s: Seq<char>) -> Seq<char> {
    match find_char(s, ';') {
        Some(i) => s.take(i),
        None => s,
    }
}

/// The cookie a `Set-Cookie` value sets: its name (trimmed) and its value
/// (after the first `=`), or none when the pair has no `=`.
pub open spec fn cookie_of(s: Seq<char>) -> Option<(Seq<char>, Seq<char>)> {
    let pair = cookie_pair_text(s);
    match find_char(pair, '=') {
        Some(j) => Some((trim(pair.take(j)), pair.skip(j + 1))),
        None => None,
    }
}

/// The login cookies found in the `Set-Cookie` values, in order, the last
/// of each name winning: `bggusername`, `bggpassword`, `SessionID`. A value
/// that is not text counts as empty.
pub open spec fn found_cookies(values: Seq<Option<String>>) -> (
    Option<Seq<char>>,
    Option<Seq<char>>,
    Option<Seq<char>>,
)
    decreases values.len(),
{
    if values.len() == 0 {
        (None, None, None)
    } else {
        let prev = found_cookies(values.drop_last());
        let text = match values.last() {
            Some(t) => t@,
            None => Seq::empty(),
        };
        match cookie_of(text) {
            Some((name, value)) => if name == "bggusername"@ {
                (Some(value), prev.1, prev.2)
            } else if name == "bggpassword"@ {
                (prev.0, Some(value), prev.2)
            } else if name == "SessionID"@ {
                (prev.0, prev.1, Some(value))
            } else {
                prev
            },
            None => prev,
        }
    }
}

/// The message when a login response lacks one of the cookies.
pub open spec fn missing_cookies_message() -> Seq<char> {
    "login response missing expected cookies"@
}

/// What reading the cookies out of the `Set-Cookie` values gives.
pub open spec fn cookies_result_ok(r: Result<Cookies, Error>, values: Seq<Option<String>>) -> bool {
    match found_cookies(values) {
        (Some(u), Some(p), Some(s)) => match r {
            Ok(c) => c.bggusername@ == u && c.bggpassword@ == p && c.session_id@ == s,
            Err(_) => false,
        },
        _ => match r {
            Err(Error::Secrets(m)) => m@ == missing_cookies_message(),
            _ => false,
        },
    }
}

/// The cookie a single `Set-Cookie` value sets.
pub fn parse_cookie(s: &str) -> (r: Option<(Vec<char>, Vec<char>)>)
    ensures
        match r {
            Some((n, v)) => cookie_of(s@) == Some((n@, v@)),
            None => cookie_of(s@) is None,
        },
{
    let chars = chars_of(s);
    proof {
        crate::text::lemma_find_char(s@, ';');
    }
    let pair = match find_char_exec(&chars, ';') {
        Some(i) => slice_chars(&chars, 0, i),
        None => chars,
    };
    proof {
        crate::text::lemma_find_char(pair@, '=');
        assert(pair@ == cookie_pair_text(s@)) by {
            match find_char(s@, ';') {
                Some(i) => {
                    assert(s@.subrange(0, i) =~= s@.take(i));
                },
                None => {},
            }
        }
    }
    match find_char_exec(&pair, '=') {
        Some(j) => {
            proof {
                assert(pair@.subrange(0, j as int) =~= pair@.take(j as int));
                assert(pair@.subrange(j as int + 1, pair@.len() as int) =~= pair@.skip(j as int + 1));
            }
            let name = trim_chars(&slice_chars(&pair, 0, j));
            let value = slice_chars(&pair, j + 1, pair.len());
            Some((name, value))
        },
        None => None,
    }
}

/// Reads the three login cookies out of the response's `Set-Cookie` values
/// (`None` where a value is not text); fails when one is missing.
pub fn extract_cookies(values: &Vec<Option<String>>) -> (r: Result<Cookies, Error>)
    ensures
        cookies_result_ok(r, values@),
{
    let mut user: Option<Vec<char>> = None;
    let mut pass: Option<Vec<char>> = None;
    let mut session: Option<Vec<char>> = None;
    let mut i: usize = 0;
    while i < values.len()
        invariant
            i <= values@.len(),
            ({
                let f = found_cookies(values@.take(i as int));
                &&& match user {
                    Some(v) => f.0 == Some(v@),
                    None => f.0 is None,
                }
                &&& match pass {
                    Some(v) => f.1 == Some(v@),
                    None => f.1 is None,
                }
                &&& match session {
                    Some(v) => f.2 == Some(v@),
                    None => f.2 is None,
                }
            }),
        decreases values@.len() - i,
    {
        assert(values@.take(i as int + 1).drop_last() =~= values@.take(i as int));
        let parsed = match &values[i] {
            Some(t) => parse_cookie(t.as_str()),
            None => parse_cookie(""),
        };
        proof {
            reveal_strlit("");
            assert(""@ =~= Seq::<char>::empty());
        }
        match parsed {
            Some((name, value)) => {
                if eq_lit(&name, "bggusername") {
                    user = Some(value);
                } else if eq_lit(&name, "bggpassword") {
                    pass = Some(value);
                } else if eq_lit(&name, "SessionID") {
                    session = Some(value);
                }
            },
            None => {},
        }
        i += 1;
    }
    assert(values@.take(values@.len() as int) =~= values@);
    match (user, pass, session) {
        (Some(u), Some(p), Some(s)) => Ok(
            Cookies { bggusername: string_of(&u), bggpassword: string_of(&p), session_id: string_of(&s) },
        ),
        _ => Err(Error::Secrets("login response missing expected cookies".to_owned())),
    }
}

/// The outcome of a login: a response without a success status means the
/// credentials were refused; otherwise the cookies are read from it.
pub fn login_outcome(success: bool, set_cookies: &Vec<Option<String>>) -> (r: Result<Cookies, Error>)
    ensures
        !success ==> r is Err && r->Err_0 is AuthRequired,
        success ==> cookies_result_ok(r, set_cookies@),
{
    if !success {
        return Err(Error::AuthRequired);
    }
    extract_cookies(set_cookies)
}

} // verus!
