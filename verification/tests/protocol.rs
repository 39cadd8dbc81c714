use bgg_cli::auth::{extract_cookies, login_outcome, login_url};
use bgg_cli::bgg::client::{answer, rate_floor_wait, unexpected_status, Answer, ClientTiming};
use bgg_cli::bgg::collection::collection_query;
use bgg_cli::bgg::parse::{item_from_raw, parse_bgg_datetime, rating_applies, BoolFlag, RawItem, RawStatus};
use bgg_cli::cli::{stats_json, StatsCommand};
use bgg_cli::cmd::auth::{run, step, AuthAction, AuthEvent, AuthState};
use bgg_cli::cmd::status::{auth_lines, cache_lines, CacheSeen};
use bgg_cli::config::Config;
use bgg_cli::error::Error;
use bgg_cli::model::{Cookies, Timestamp};
use bgg_cli::list::filter::FilterSpec;
use bgg_cli::text::truncate;

fn flag(s: &str) -> BoolFlag {
    BoolFlag(s.to_string())
}

fn status(own: &str) -> RawStatus {
    RawStatus {
        own: flag(own),
        prevowned: flag(""),
        fortrade: flag("0"),
        want: flag(""),
        wanttoplay: flag("true"),
        wanttobuy: flag(""),
        wishlist: flag("1"),
        wishlistpriority: Some(2),
        preordered: flag(""),
        lastmodified: Some("2024-01-02 03:04:05".into()),
    }
}

#[test]
fn extracts_cookies_from_set_cookie_values() {
    let values = vec![
        Some("bggusername=alice; Path=/; Domain=.boardgamegeek.com".to_string()),
        Some("bggpassword=cookiepw; Path=/".to_string()),
        Some("SessionID=abc123; Path=/".to_string()),
        Some("other=ignored; Path=/".to_string()),
        None,
    ];
    let c = extract_cookies(&values).unwrap();
    assert_eq!(c.bggusername, "alice");
    assert_eq!(c.bggpassword, "cookiepw");
    assert_eq!(c.session_id, "abc123");
}

#[test]
fn missing_cookie_is_a_secrets_error() {
    let values = vec![Some("bggusername=alice".to_string())];
    assert!(matches!(extract_cookies(&values), Err(Error::Secrets(m)) if m == "login response missing expected cookies"));
}

#[test]
fn refused_login_asks_for_auth() {
    assert!(matches!(login_outcome(false, &Vec::new()), Err(Error::AuthRequired)));
    assert_eq!(login_url("https://x.test"), "https://x.test/login/api/v1");
}

#[test]
fn cookie_header_joins_the_three_cookies() {
    let c = Cookies { bggusername: "alice".into(), bggpassword: "pw".into(), session_id: "sid".into() };
    assert_eq!(c.header(), "bggusername=alice; bggpassword=pw; SessionID=sid");
}

#[test]
fn queued_requests_are_asked_exactly_the_limit_times() {
    let standard = ClientTiming::standard();
    let mut attempts = 0;
    let mut asked = 0;
    loop {
        asked += 1;
        let (a, n) = answer(202, attempts, standard.max_queue_retries);
        attempts = n;
        match a {
            Answer::Wait => assert!(asked < 25),
            Answer::Stop(Error::QueueTimeout { attempts: k }) => {
                assert_eq!(k, 25);
                break;
            }
            other => panic!("unexpected answer {other:?}"),
        }
    }
    assert_eq!(asked, 25);
}

#[test]
fn answers_to_requests() {
    assert!(matches!(answer(200, 0, 25), (Answer::ReadBody, 0)));
    assert!(matches!(answer(202, 0, 25), (Answer::Wait, 1)));
    assert!(matches!(answer(202, 24, 25), (Answer::Stop(Error::QueueTimeout { attempts: 25 }), 25)));
    assert!(matches!(answer(401, 3, 25), (Answer::Stop(Error::AuthRequired), 3)));
    assert!(matches!(answer(429, 0, 25), (Answer::Stop(Error::RateLimited), 0)));
    assert!(matches!(answer(500, 0, 25), (Answer::Unexpected, 0)));
    assert!(matches!(unexpected_status("500 Internal Server Error", "oops"), Error::Parse(m) if m == "unexpected status 500 Internal Server Error: oops"));
    assert_eq!(rate_floor_wait(2000, 5000), 3000);
    assert_eq!(rate_floor_wait(6000, 5000), 0);
    let t = ClientTiming::standard();
    assert_eq!(t.max_queue_retries, 25);
    assert_eq!(t.with_fast_timing().rate_floor_ms, 0);
}

#[test]
fn collection_query_carries_user_stats_subtype_and_since() {
    let since = Timestamp { secs: 1778673600, nanos: 0 };
    let q = collection_query("alice", Some(since), Some("boardgameexpansion")).unwrap();
    let pairs: Vec<(&str, &str)> = q.iter().map(|(k, v)| (k.as_str(), v.as_str())).collect();
    assert_eq!(
        pairs,
        vec![
            ("username", "alice"),
            ("stats", "1"),
            ("subtype", "boardgameexpansion"),
            ("modifiedsince", "26-05-13 11:59:00"),
        ]
    );
    let q = collection_query("alice", None, None).unwrap();
    assert_eq!(q.len(), 2);
}

#[test]
fn parses_bgg_timestamps() {
    assert_eq!(parse_bgg_datetime("2024-01-02 03:04:05"), Some(Timestamp { secs: 1704164645, nanos: 0 }));
    assert_eq!(parse_bgg_datetime("yesterday"), None);
}

#[test]
fn raw_item_becomes_collection_item() {
    let raw = RawItem {
        objectid: 174430,
        subtype: "boardgame".into(),
        collid: Some(9),
        name: "Gloomhaven".into(),
        yearpublished: Some(2017),
        image: None,
        thumbnail: None,
        stats: None,
        status: status("1"),
        numplays: None,
    };
    let it = item_from_raw(raw);
    assert_eq!(it.id, 174430);
    assert_eq!(it.name, "Gloomhaven");
    assert!(it.status.own);
    assert!(it.status.wishlist);
    assert!(it.status.want_to_play);
    assert!(!it.status.for_trade);
    assert_eq!(it.status.wishlist_priority, Some(2));
    assert_eq!(it.status.last_modified, Some(Timestamp { secs: 1704164645, nanos: 0 }));
    assert_eq!(it.num_plays, 0);
}

#[test]
fn bool_flags_and_ratings() {
    assert!(flag("1").truthy());
    assert!(flag("true").truthy());
    assert!(!flag("0").truthy());
    assert!(!flag("TRUE").truthy());
    assert!(!rating_applies("N/A"));
    assert!(!rating_applies("n/a"));
    assert!(rating_applies("7.5"));
}

#[test]
fn auth_login_flow() {
    let (s, a) = run(None, false);
    assert!(matches!(a, AuthAction::LoadConfig));
    let (s, a) = step(s, AuthEvent::ConfigLoaded(Ok(Config { username: None })));
    assert!(matches!(a, AuthAction::PromptUsername));
    let (s, a) = step(s, AuthEvent::UsernameTyped("  alice \n".into()));
    match &a {
        AuthAction::PromptPassword { prompt } => assert_eq!(prompt, "Password for BGG user alice: "),
        other => panic!("unexpected {other:?}"),
    }
    let (s, a) = step(s, AuthEvent::PasswordTyped(Ok("pw".into())));
    assert!(matches!(&a, AuthAction::Login { username, password } if username == "alice" && password == "pw"));
    let cookies = Cookies { bggusername: "alice".into(), bggpassword: "c".into(), session_id: "s".into() };
    let (s, a) = step(s, AuthEvent::LoggedIn(Ok(cookies)));
    assert!(matches!(&a, AuthAction::Store { username, creds } if username == "alice" && creds.password == "pw"));
    let (s, a) = step(s, AuthEvent::Stored(Ok(())));
    assert!(matches!(&a, AuthAction::SaveConfig { config } if config.username.as_deref() == Some("alice")));
    let (s, a) = step(s, AuthEvent::Saved(Ok(())));
    assert!(matches!(s, AuthState::Finished));
    assert!(matches!(&a, AuthAction::Finish { message: Some(m), result: Ok(()) } if m == "Authenticated as alice. Credentials stored in OS keyring."));
}

#[test]
fn auth_clear_flow() {
    let (s, _) = run(None, true);
    let (_, a) = step(s, AuthEvent::ConfigLoaded(Ok(Config { username: None })));
    assert!(matches!(&a, AuthAction::Finish { message: Some(m), result: Ok(()) } if m == "No stored auth."));
    let (s, _) = run(None, true);
    let (s, a) = step(s, AuthEvent::ConfigLoaded(Ok(Config { username: Some("bob".into()) })));
    assert!(matches!(&a, AuthAction::Delete { username } if username == "bob"));
    let (_, a) = step(s, AuthEvent::Deleted(Ok(())));
    assert!(matches!(&a, AuthAction::Finish { message: Some(m), .. } if m == "Cleared stored cookies for bob. (Config and cache retained.)"));
}

#[test]
fn auth_failures_end_the_command() {
    let (s, _) = run(Some("carol".into()), false);
    let (s, a) = step(s, AuthEvent::ConfigLoaded(Ok(Config { username: Some("x".into()) })));
    assert!(matches!(&a, AuthAction::PromptPassword { prompt } if prompt == "Password for BGG user carol: "));
    let (_, a) = step(s, AuthEvent::PasswordTyped(Err("no tty".into())));
    assert!(matches!(&a, AuthAction::Finish { result: Err(Error::Secrets(m)), .. } if m == "password prompt: no tty"));
}

#[test]
fn status_lines() {
    let (lines, more) = auth_lines("alice", &Ok(()));
    assert_eq!(lines, vec!["User:  alice".to_string(), "Auth:  cookies present".to_string()]);
    assert!(more);
    let (lines, more) = auth_lines("alice", &Err(Error::Secrets("locked".into())));
    assert_eq!(lines[1], "Auth: error (secrets error: locked)");
    assert!(!more);
    let seen = CacheSeen { items: 3, path: "/tmp/c.json".into(), last_sync: None };
    let lines = cache_lines(&Ok(seen));
    assert_eq!(lines[0], "Cache: 3 items at /tmp/c.json");
    assert_eq!(lines[1], "Last sync: never");
    assert_eq!(cache_lines(&Err(Error::NoCache("a".into()))), vec!["Cache: none yet. Run `bgg sync`.".to_string()]);
}

#[test]
fn stats_json_from_either_flag() {
    assert!(stats_json(true, &None));
    assert!(!stats_json(false, &None));
    assert!(stats_json(false, &Some(StatsCommand::Plays { json: true })));
}

#[test]
fn text_helpers() {
    assert!(FilterSpec::parse("\u{3000}owned\u{2003},\tplayed ").is_ok());
    assert!(FilterSpec::parse("\u{3000}").is_err());
    assert_eq!(truncate("Gloomhaven", 5), "Gloo…");
    assert_eq!(truncate("Azul", 5), "Azul");
}
