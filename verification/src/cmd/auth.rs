//! `bgg auth`: log in and keep the credentials, or with `--clear` forget
//! them. The command alternates between the user, the config file, BGG and
//! the credential store; here are its decisions, as a state machine that
//! the front end drives: it performs each action and reports what came of
//! it as the next event.

use crate::config::Config;
use crate::error::Error;
use crate::model::{Cookies, StoredCreds};
use crate::text::{chars_of, push_str, string_of, trim, trim_chars};
use vstd::prelude::*;

verus! {

/// Where the command stands.
#[derive(Debug)]
pub enum AuthState {
    /// Clearing: waiting for the config.
    ClearLoading,
    /// Clearing: waiting for the stored credentials of `username` to go.
    ClearDeleting { username: String },
    /// Logging in: waiting for the config; the user named on the command line, if any.
    LoginLoading { username_arg: Option<String> },
    /// Logging in: waiting for the user to type a user name.
    AskingUsername,
    /// Logging in: waiting for the password of `username`.
    AskingPassword { username: String },
    /// Logging in: waiting for BGG to answer the login.
    LoggingIn { username: String, password: String },
    /// Logging in: waiting for the credentials to be stored.
    Storing { username: String },
    /// Logging in: waiting for the config to be written.
    SavingConfig { username: String },
    /// Done.
    Finished,
}

/// What came of the last action.
#[derive(Debug)]
pub enum AuthEvent {
    ConfigLoaded(Result<Config, Error>),
    UsernameTyped(String),
    /// The password, or the prompt's failure message.
    PasswordTyped(Result<String, String>),
    LoggedIn(Result<Cookies, Error>),
    Deleted(Result<(), Error>),
    Stored(Result<(), Error>),
    Saved(Result<(), Error>),
}

/// What to do next.
#[derive(Debug)]
pub enum AuthAction {
    LoadConfig,
    PromptUsername,
    PromptPassword { prompt: String },
    Login { username: String, password: String },
    Store { username: String, creds: StoredCreds },
    SaveConfig { config: Config },
    Delete { username: String },
    /// Print the message, if any, and end with the result.
    Finish { message: Option<String>, result: Result<(), Error> },
}

/// Whether the event answers the action the state waits on.
pub open spec fn event_fits(s: AuthState, e: AuthEvent) -> bool {
    match s {
        AuthState::ClearLoading => e is ConfigLoaded,
        AuthState::ClearDeleting { .. } => e is Deleted,
        AuthState::LoginLoading { .. } => e is ConfigLoaded,
        AuthState::AskingUsername => e is UsernameTyped,
        AuthState::AskingPassword { .. } => e is PasswordTyped,
        AuthState::LoggingIn { .. } => e is LoggedIn,
        AuthState::Storing { .. } => e is Stored,
        AuthState::SavingConfig { .. } => e is Saved,
        AuthState::Finished => false,
    }
}

/// The password prompt for `username`.
pub open spec fn password_prompt(username: Seq<char>) -> Seq<char> {
    "Password for BGG user "@ + username + ": "@
}

/// The message after clearing the credentials of `username`.
pub open spec fn cleared_message(username: Seq<char>) -> Seq<char> {
    "Cleared stored cookies for "@ + username + ". (Config and cache retained.)"@
}

/// The message after logging in as `username`.
pub open spec fn logged_in_message(username: Seq<char>) -> Seq<char> {
    "Authenticated as "@ + username + ". Credentials stored in OS keyring."@
}

/// The message when there is nothing to clear.
pub open spec fn nothing_stored_message() -> Seq<char> {
    "No stored auth."@
}

/// The command ends with `result` and no message.
pub open spec fn fails_with(next: AuthState, a: AuthAction, e: Error) -> bool {
    &&& next is Finished
    &&& a matches AuthAction::Finish { message: None, result: Err(e2) } && e2 == e
}

/// The command ends successfully, printing `m`.
pub open spec fn ends_saying(next: AuthState, a: AuthAction, m: Seq<char>) -> bool {
    &&& next is Finished
    &&& a matches AuthAction::Finish { message: Some(t), result: Ok(()) } && t@ == m
}

/// The command goes on to ask for the password of `u`.
pub open spec fn asks_password(next: AuthState, a: AuthAction, u: Seq<char>) -> bool {
    &&& next matches AuthState::AskingPassword { username } && username@ == u
    &&& a matches AuthAction::PromptPassword { prompt } && prompt@ == password_prompt(u)
}

/// What the command does on `e` in state `s`.
pub open spec fn auth_step(s: AuthState, e: AuthEvent, next: AuthState, a: AuthAction) -> bool {
    match s {
        AuthState::ClearLoading => match e {
            AuthEvent::ConfigLoaded(Err(err)) => fails_with(next, a, err),
            AuthEvent::ConfigLoaded(Ok(cfg)) => match cfg.username {
                None => ends_saying(next, a, nothing_stored_message()),
                Some(u) => {
                    &&& next matches AuthState::ClearDeleting { username } && username@ == u@
                    &&& a matches AuthAction::Delete { username } && username@ == u@
                },
            },
            _ => false,
        },
        AuthState::ClearDeleting { username } => match e {
            AuthEvent::Deleted(Err(err)) => fails_with(next, a, err),
            AuthEvent::Deleted(Ok(())) => ends_saying(next, a, cleared_message(username@)),
            _ => false,
        },
        AuthState::LoginLoading { username_arg } => match e {
            AuthEvent::ConfigLoaded(Err(err)) => fails_with(next, a, err),
            AuthEvent::ConfigLoaded(Ok(cfg)) => match username_arg {
                Some(u) => asks_password(next, a, u@),
                None => match cfg.username {
                    Some(u) => asks_password(next, a, u@),
                    None => next is AskingUsername && a is PromptUsername,
                },
            },
            _ => false,
        },
        AuthState::AskingUsername => match e {
            AuthEvent::UsernameTyped(t) => asks_password(next, a, trim(t@)),
            _ => false,
        },
        AuthState::AskingPassword { username } => match e {
            AuthEvent::PasswordTyped(Err(m)) => {
                &&& next is Finished
                &&& a matches AuthAction::Finish { message: None, result: Err(Error::Secrets(msg)) }
                    && msg@ == "password prompt: "@ + m@
            },
            AuthEvent::PasswordTyped(Ok(p)) => {
                &&& next matches AuthState::LoggingIn { username: u2, password: p2 } && u2@
                    == username@ && p2@ == p@
                &&& a matches AuthAction::Login { username: u3, password: p3 } && u3@
                    == username@ && p3@ == p@
            },
            _ => false,
        },
        AuthState::LoggingIn { username, password } => match e {
            AuthEvent::LoggedIn(Err(err)) => fails_with(next, a, err),
            AuthEvent::LoggedIn(Ok(c)) => {
                &&& next matches AuthState::Storing { username: u2 } && u2@ == username@
                &&& a matches AuthAction::Store { username: u3, creds } && u3@ == username@
                    && creds.password@ == password@ && creds.cookies.bggusername@
                    == c.bggusername@ && creds.cookies.bggpassword@ == c.bggpassword@
                    && creds.cookies.session_id@ == c.session_id@ && creds.session_fresh_until
                    is None
            },
            _ => false,
        },
        AuthState::Storing { username } => match e {
            AuthEvent::Stored(Err(err)) => fails_with(next, a, err),
            AuthEvent::Stored(Ok(())) => {
                &&& next matches AuthState::SavingConfig { username: u2 } && u2@ == username@
                &&& a matches AuthAction::SaveConfig { config } && config.username is Some
                    && config.username->0@ == username@
            },
            _ => false,
        },
        AuthState::SavingConfig { username } => match e {
            AuthEvent::Saved(Err(err)) => fails_with(next, a, err),
            AuthEvent::Saved(Ok(())) => ends_saying(next, a, logged_in_message(username@)),
            _ => false,
        },
        AuthState::Finished => false,
    }
}

/// Starts `bgg auth`: either way the config is read first.
pub fn run(username_arg: Option<String>, clear: bool) -> (r: (AuthState, AuthAction))
    ensures
        r.1 is LoadConfig,
        clear ==> r.0 is ClearLoading,
        !clear ==> (r.0 matches AuthState::LoginLoading { username_arg: a } && a == username_arg),
{
    if clear {
        (AuthState::ClearLoading, AuthAction::LoadConfig)
    } else {
        (AuthState::LoginLoading { username_arg }, AuthAction::LoadConfig)
    }
}

fn joined3(a: &str, b: &str, c: &str) -> (s: String)
    ensures
        s@ == a@ + b@ + c@,
{
    let mut out: Vec<char> = Vec::new();
    push_str(&mut out, a);
    push_str(&mut out, b);
    push_str(&mut out, c);
    string_of(&out)
}

fn ask_password(username: String) -> (r: (AuthState, AuthAction))
    ensures
        asks_password(r.0, r.1, username@),
{
    let prompt = joined3("Password for BGG user ", username.as_str(), ": ");
    (AuthState::AskingPassword { username }, AuthAction::PromptPassword { prompt })
}

fn finish_with(e: Error) -> (r: (AuthState, AuthAction))
    ensures
        fails_with(r.0, r.1, e),
{
    (AuthState::Finished, AuthAction::Finish { message: None, result: Err(e) })
}

/// The next state and action of `bgg auth` on event `e` in state `s`.
pub fn step(s: AuthState, e: AuthEvent) -> (r: (AuthState, AuthAction))
    requires
        event_fits(s, e),
    ensures
        auth_step(s, e, r.0, r.1),
{
    match s {
        AuthState::ClearLoading => match e {
            AuthEvent::ConfigLoaded(Err(err)) => finish_with(err),
            AuthEvent::ConfigLoaded(Ok(cfg)) => match cfg.username {
                None => (
                    AuthState::Finished,
                    AuthAction::Finish { message: Some("No stored auth.".to_owned()), result: Ok(()) },
                ),
                Some(u) => {
                    let u2 = u.clone();
                    (AuthState::ClearDeleting { username: u }, AuthAction::Delete { username: u2 })
                },
            },
            _ => (AuthState::Finished, AuthAction::LoadConfig),
        },
        AuthState::ClearDeleting { username } => match e {
            AuthEvent::Deleted(Err(err)) => finish_with(err),
            AuthEvent::Deleted(Ok(())) => {
                let m = joined3(
                    "Cleared stored cookies for ",
                    username.as_str(),
                    ". (Config and cache retained.)",
                );
                (AuthState::Finished, AuthAction::Finish { message: Some(m), result: Ok(()) })
            },
            _ => (AuthState::Finished, AuthAction::LoadConfig),
        },
        AuthState::LoginLoading { username_arg } => match e {
            AuthEvent::ConfigLoaded(Err(err)) => finish_with(err),
            AuthEvent::ConfigLoaded(Ok(cfg)) => match username_arg {
                Some(u) => ask_password(u),
                None => match cfg.username {
                    Some(u) => ask_password(u),
                    None => (AuthState::AskingUsername, AuthAction::PromptUsername),
                },
            },
            _ => (AuthState::Finished, AuthAction::LoadConfig),
        },
        AuthState::AskingUsername => match e {
            AuthEvent::UsernameTyped(t) => {
                let name = string_of(&trim_chars(&chars_of(t.as_str())));
                ask_password(name)
            },
            _ => (AuthState::Finished, AuthAction::LoadConfig),
        },
        AuthState::AskingPassword { username } => match e {
            AuthEvent::PasswordTyped(Err(m)) => {
                let msg = joined3("password prompt: ", m.as_str(), "");
                proof {
                    reveal_strlit("");
                    assert(msg@ =~= "password prompt: "@ + m@);
                }
                finish_with(Error::Secrets(msg))
            },
            AuthEvent::PasswordTyped(Ok(p)) => {
                let u2 = username.clone();
                let p2 = p.clone();
                (
                    AuthState::LoggingIn { username, password: p },
                    AuthAction::Login { username: u2, password: p2 },
                )
            },
            _ => (AuthState::Finished, AuthAction::LoadConfig),
        },
        AuthState::LoggingIn { username, password } => match e {
            AuthEvent::LoggedIn(Err(err)) => finish_with(err),
            AuthEvent::LoggedIn(Ok(c)) => {
                let u2 = username.clone();
                (
                    AuthState::Storing { username },
                    AuthAction::Store {
                        username: u2,
                        creds: StoredCreds { password, cookies: c, session_fresh_until: None },
                    },
                )
            },
            _ => (AuthState::Finished, AuthAction::LoadConfig),
        },
        AuthState::Storing { username } => match e {
            AuthEvent::Stored(Err(err)) => finish_with(err),
            AuthEvent::Stored(Ok(())) => {
                let u2 = username.clone();
                (
                    AuthState::SavingConfig { username },
                    AuthAction::SaveConfig { config: Config { username: Some(u2) } },
                )
            },
            _ => (AuthState::Finished, AuthAction::LoadConfig),
        },
        AuthState::SavingConfig { username } => match e {
            AuthEvent::Saved(Err(err)) => finish_with(err),
            AuthEvent::Saved(Ok(())) => {
                let m = joined3(
                    "Authenticated as ",
                    username.as_str(),
                    ". Credentials stored in OS keyring.",
                );
                (AuthState::Finished, AuthAction::Finish { message: Some(m), result: Ok(()) })
            },
            _ => (AuthState::Finished, AuthAction::LoadConfig),
        },
        AuthState::Finished => (AuthState::Finished, AuthAction::LoadConfig),
    }
}

} // verus!
