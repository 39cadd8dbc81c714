//! The user's config file: which BGG user this install works for. It is a
//! TOML document with an optional string `username`.

use crate::error::Error;
use crate::text::{push_str, string_of};
use vstd::prelude::*;

verus! {

/// The settings read from the config file.
#[derive(Debug, PartialEq, Eq)]
pub struct Config {
    pub username: Option<String>,
}

impl Default for Config {
    /// No user.
    fn default() -> (c: Self)
        ensures
            c.username is None,
    {
        Config { username: None }
    }
}

/// The configured user, or `NoUser` when there is none.
pub fn require_username(cfg: &Config) -> (r: Result<String, Error>)
    ensures
        match cfg.username {
            Some(u) => r is Ok && r->Ok_0@ == u@,
            None => r is Err && r->Err_0 is NoUser,
        },
{
    match &cfg.username {
        Some(u) => Ok(u.clone()),
        None => Err(Error::NoUser),
    }
}

/// What `toml_edit` finds for `username` in a document: the parse error's
/// message, or no such key, or a value that is not a string, or the string.
pub uninterp spec fn toml_username(text: Seq<char>) -> Result<Option<Option<Seq<char>>>, Seq<char>>;

/// Calls `text.parse::<toml_edit::DocumentMut>()`, then `get("username")`
/// on the document and `as_str()` on the item found; the outcome, with the
/// parse error's `Display` text, is named by `toml_username`. One fact of
/// the parser is stated: the single line that `config_text` writes for a
/// name without DEL parses to a string that `config_text` writes as that
/// same line (the name itself). Its basic-string decoder takes every
/// character but `"`, `\`, DEL and the control
/// characters other than tab as it is, and decodes the escapes
/// `\" \\ \b \t \n \f \r \uXXXX`, the only ones `json_string` writes.
#[verifier::external_body]
fn read_toml_username(text: &str) -> (r: Result<Option<Option<String>>, String>)
    ensures
        match (r, toml_username(text@)) {
            (Err(e), Err(m)) => e@ == m,
            (Ok(None), Ok(None)) => true,
            (Ok(Some(None)), Ok(Some(None))) => true,
            (Ok(Some(Some(s))), Ok(Some(Some(t)))) => s@ == t,
            _ => false,
        },
        (exists|u: Seq<char>| text@ == #[trigger] config_text(Some(u)) && toml_writable(u)) ==> (r
            is Ok && r->Ok_0 is Some && r->Ok_0->0 is Some && text@ == config_text(
            Some(r->Ok_0->0->0@),
        )),
{
    match text.parse::<toml_edit::DocumentMut>() {
        Err(e) => Err(e.to_string()),
        Ok(doc) => Ok(doc.get("username").map(|item| item.as_str().map(|s| s.to_string()))),
    }
}

/// Whether a name survives being written as a TOML basic string by
/// `json_string`: it holds no DEL (U+007F), which TOML requires escaped and
/// `serde_json` writes as it is.
pub open spec fn toml_writable(u: Seq<char>) -> bool {
    !u.contains('\u{7f}')
}

/// The message of a config that cannot be read.
pub open spec fn config_error(path: Seq<char>, detail: Seq<char>) -> Seq<char> {
    "config "@ + path + ": "@ + detail
}

/// What reading the config text at `path` gives.
pub open spec fn parsed_config(r: Result<Config, Error>, text: Seq<char>, path: Seq<char>) -> bool {
    match toml_username(text) {
        Err(m) => match r {
            Err(Error::Parse(e)) => e@ == config_error(path, m),
            _ => false,
        },
        Ok(None) => match r {
            Ok(c) => c.username is None,
            _ => false,
        },
        Ok(Some(None)) => match r {
            Err(Error::Parse(e)) => e@ == config_error(path, "username must be a string"@),
            _ => false,
        },
        Ok(Some(Some(u))) => match r {
            Ok(c) => c.username is Some && c.username->0@ == u,
            _ => false,
        },
    }
}

fn config_error_text(path: &str, detail: &str) -> (s: String)
    ensures
        s@ == config_error(path@, detail@),
{
    let mut out: Vec<char> = Vec::new();
    push_str(&mut out, "config ");
    push_str(&mut out, path);
    push_str(&mut out, ": ");
    push_str(&mut out, detail);
    string_of(&out)
}

/// Reads the config text found at `path`: `username`, when present, must be
/// a string; other keys are ignored.
pub fn parse_config(text: &str, path: &str) -> (r: Result<Config, Error>)
    ensures
        parsed_config(r, text@, path@),
        (exists|u: Seq<char>| text@ == #[trigger] config_text(Some(u)) && toml_writable(u)) ==> (
        r matches Ok(c) && c.username matches Some(n) && text@ == config_text(Some(n@))),
{
    match read_toml_username(text) {
        Err(e) => Err(Error::Parse(config_error_text(path, e.as_str()))),
        Ok(None) => Ok(Config { username: None }),
        Ok(Some(None)) => Err(Error::Parse(config_error_text(path, "username must be a string"))),
        Ok(Some(Some(u))) => Ok(Config { username: Some(u) }),
    }
}

/// The lowercase hexadecimal digit of `n` (below 16).
pub open spec fn hex_digit(n: nat) -> char {
    if n < 10 {
        ((n + 48) as u8) as char
    } else {
        ((n + 87) as u8) as char
    }
}

/// How `serde_json` writes one character inside a string: quote, backslash
/// and the control characters escaped, everything else as it is.
pub open spec fn json_char(c: char) -> Seq<char> {
    if c == '"' {
        seq!['\\', '"']
    } else if c == '\\' {
        seq!['\\', '\\']
    } else if c == '\u{8}' {
        seq!['\\', 'b']
    } else if c == '\t' {
        seq!['\\', 't']
    } else if c == '\n' {
        seq!['\\', 'n']
    } else if c == '\u{c}' {
        seq!['\\', 'f']
    } else if c == '\r' {
        seq!['\\', 'r']
    } else if (c as u32) < 0x20 {
        seq!['\\', 'u', '0', '0', hex_digit((c as u32 / 16) as nat), hex_digit((c as u32 % 16) as nat)]
    } else {
        seq![c]
    }
}

/// The escaped characters of `s`.
pub open spec fn json_escaped(s: Seq<char>) -> Seq<char>
    decreases s.len(),
{
    if s.len() == 0 {
        Seq::empty()
    } else {
        json_escaped(s.drop_last()) + json_char(s.last())
    }
}

/// The JSON text of a string: the escaped characters between double quotes.
pub open spec fn json_string(s: Seq<char>) -> Seq<char> {
    seq!['"'] + json_escaped(s) + seq!['"']
}

/// Calls `serde_json::to_string` on a string. Its source writes the string
/// between double quotes, escaping `"`, `\` and the control characters
/// (`\b \t \n \f \r`, the rest as `\u00XX` in lowercase hex) and copying
/// everything else: what `json_string` states. It writes into a `Vec<u8>`,
/// whose writes never fail, and a string's `Serialize` never fails, so the
/// result is always `Ok`; an error would be passed on as its message.
#[verifier::external_body]
fn json_quote(s: &str) -> (r: Result<String, String>)
    ensures
        r is Ok,
        r->Ok_0@ == json_string(s@),
{
    serde_json::to_string(s).map_err(|e| e.to_string())
}

/// The config text written for these settings.
pub open spec fn config_text(username: Option<Seq<char>>) -> Seq<char> {
    match username {
        Some(u) => "username = "@ + json_string(u) + seq!['\n'],
        None => Seq::empty(),
    }
}

/// The config file's text for `cfg`: a `username` line holding the name as
/// a quoted, escaped string (a JSON string is a valid TOML basic string),
/// or nothing when there is no user.
pub fn render_config(cfg: &Config) -> (r: Result<String, Error>)
    ensures
        match cfg.username {
            None => r is Ok && r->Ok_0@ == Seq::<char>::empty(),
            Some(u) => r is Ok && r->Ok_0@ == config_text(Some(u@)),
        },
{
    match &cfg.username {
        None => Ok(String::new()),
        Some(u) => match json_quote(u.as_str()) {
            Ok(q) => {
                let mut out: Vec<char> = Vec::new();
                push_str(&mut out, "username = ");
                push_str(&mut out, q.as_str());
                out.push('\n');
                proof {
                    assert(out@ =~= config_text(Some(u@)));
                }
                Ok(string_of(&out))
            },
            Err(e) => {
                let mut out: Vec<char> = Vec::new();
                push_str(&mut out, "config serialize: ");
                push_str(&mut out, e.as_str());
                Err(Error::Parse(string_of(&out)))
            },
        },
    }
}

/// Whether a character is written escaped inside a JSON string.
pub open spec fn json_escapes(c: char) -> bool {
    c == '"' || c == '\\' || (c as u32) < 0x20
}

proof fn lemma_json_char_shape(c: char)
    ensures
        json_char(c).len() >= 1,
        json_escapes(c) ==> json_char(c).len() >= 2 && json_char(c)[0] == '\\',
        !json_escapes(c) ==> json_char(c) == seq![c],
{
}

proof fn lemma_hex_digit_injective(a: nat, b: nat)
    requires
        a < 16,
        b < 16,
        hex_digit(a) == hex_digit(b),
    ensures
        a == b,
{
    assert(hex_digit(a) as u32 == (if a < 10 { a + 48 } else { a + 87 }));
    assert(hex_digit(b) as u32 == (if b < 10 { b + 48 } else { b + 87 }));
}

/// The escaped forms of two characters never begin one another unless the
/// characters are the same.
proof fn lemma_json_char_prefix_free(c1: char, c2: char, x: Seq<char>, y: Seq<char>)
    requires
        json_char(c1) + x == json_char(c2) + y,
    ensures
        c1 == c2,
{
    let w = json_char(c1) + x;
    lemma_json_char_shape(c1);
    lemma_json_char_shape(c2);
    assert(w[0] == json_char(c1)[0]);
    assert(w[0] == json_char(c2)[0]);
    if !json_escapes(c1) || !json_escapes(c2) {
    } else {
        assert(w[1] == json_char(c1)[1]);
        assert(w[1] == json_char(c2)[1]);
        if (c1 as u32) < 0x20 && c1 != '\u{8}' && c1 != '\t' && c1 != '\n' && c1 != '\u{c}' && c1
            != '\r' {
            assert(json_char(c1)[1] == 'u');
            assert(json_char(c2)[1] == 'u');
            assert(w[4] == json_char(c1)[4] && w[4] == json_char(c2)[4]);
            assert(w[5] == json_char(c1)[5] && w[5] == json_char(c2)[5]);
            lemma_hex_digit_injective((c1 as u32 / 16) as nat, (c2 as u32 / 16) as nat);
            lemma_hex_digit_injective((c1 as u32 % 16) as nat, (c2 as u32 % 16) as nat);
            assert(c1 as u32 == c2 as u32);
        }
    }
}

proof fn lemma_json_escaped_append(a: Seq<char>, b: Seq<char>)
    ensures
        json_escaped(a + b) == json_escaped(a) + json_escaped(b),
    decreases b.len(),
{
    if b.len() == 0 {
        assert(a + b =~= a);
    } else {
        lemma_json_escaped_append(a, b.drop_last());
        assert((a + b).drop_last() =~= a + b.drop_last());
        assert((a + b).last() == b.last());
    }
}

proof fn lemma_json_escaped_first(s: Seq<char>)
    requires
        s.len() > 0,
    ensures
        json_escaped(s) == json_char(s[0]) + json_escaped(s.drop_first()),
{
    lemma_json_escaped_append(seq![s[0]], s.drop_first());
    assert(seq![s[0]] + s.drop_first() =~= s);
    let one = seq![s[0]];
    assert(one.drop_last() =~= Seq::<char>::empty());
    assert(one.last() == s[0]);
    assert(json_escaped(one.drop_last()) == Seq::<char>::empty());
    assert(json_escaped(one) =~= json_char(s[0]));
}

proof fn lemma_json_escaped_injective(u: Seq<char>, v: Seq<char>)
    requires
        json_escaped(u) == json_escaped(v),
    ensures
        u == v,
    decreases u.len(),
{
    if u.len() == 0 {
        if v.len() > 0 {
            lemma_json_escaped_first(v);
            lemma_json_char_shape(v[0]);
        }
        assert(u =~= v);
    } else {
        lemma_json_escaped_first(u);
        lemma_json_char_shape(u[0]);
        if v.len() == 0 {
            assert(v =~= Seq::<char>::empty());
            assert(json_escaped(v).len() == 0);
            assert(json_escaped(u).len() >= 1);
        } else {
            lemma_json_escaped_first(v);
            lemma_json_char_prefix_free(u[0], v[0], json_escaped(u.drop_first()), json_escaped(v.drop_first()));
            let k = json_char(u[0]).len() as int;
            assert(json_escaped(u.drop_first()) =~= json_escaped(u).subrange(k, json_escaped(u).len() as int));
            assert(json_escaped(v.drop_first()) =~= json_escaped(v).subrange(k, json_escaped(v).len() as int));
            lemma_json_escaped_injective(u.drop_first(), v.drop_first());
            assert(u =~= seq![u[0]] + u.drop_first());
            assert(v =~= seq![v[0]] + v.drop_first());
        }
    }
}

/// Reading back a written config gives the written name: `render_config`
/// writes `config_text(Some(u))`, and `parse_config` reads from that text
/// a name whose config text is the same; no other name has that text.
pub proof fn lemma_config_round_trip(u: Seq<char>, n: Seq<char>)
    requires
        config_text(Some(n)) == config_text(Some(u)),
    ensures
        n == u,
{
    reveal_strlit("username = ");
    let p = "username = "@;
    let tn = config_text(Some(n));
    let tu = config_text(Some(u));
    let en = json_escaped(n);
    let eu = json_escaped(u);
    assert(tn =~= p + seq!['"'] + en + seq!['"'] + seq!['\n']);
    assert(tu =~= p + seq!['"'] + eu + seq!['"'] + seq!['\n']);
    assert(tn.len() == tu.len());
    assert(en.len() == eu.len());
    assert(en =~= tn.subrange(p.len() as int + 1, p.len() as int + 1 + en.len() as int));
    assert(eu =~= tu.subrange(p.len() as int + 1, p.len() as int + 1 + eu.len() as int));
    lemma_json_escaped_injective(n, u);
}

} // verus!
