use bgg_cli::cache::{merge, MergeReport};
use bgg_cli::cmd::sync::{
    apply_sync, fetch_start, fetch_step, modified_since, refresh_error, remove_missing, session_stale,
    sync_summary, FetchAction, FetchEvent,
};
use bgg_cli::config::{parse_config, render_config, require_username, Config};
use bgg_cli::error::Error;
use bgg_cli::model::{items_equal, CacheFile, CollectionItem, Status, Timestamp};
use bgg_cli::paths::{cache_file, config_dir, config_file, state_dir};

fn item(id: u32, name: &str) -> CollectionItem {
    CollectionItem {
        id,
        collid: None,
        subtype: "boardgame".into(),
        name: name.into(),
        year_published: None,
        image: None,
        thumbnail: None,
        status: Status::default(),
        num_plays: 0,
        stats: None,
    }
}

#[test]
fn merge_classifies_new_updated_unchanged() {
    let mut cache = CacheFile::empty("alice");
    cache.insert("1".into(), item(1, "Azul"));
    cache.insert("2".into(), item(2, "Catan"));
    let incoming = vec![item(1, "Azul"), item(2, "Catan: Cities"), item(3, "Wingspan")];
    let report = merge(&mut cache, incoming);
    assert_eq!(report, MergeReport { new: 1, updated: 1, unchanged: 1 });
    assert_eq!(cache.get("2").unwrap().name, "Catan: Cities");
    assert!(cache.last_sync.is_some());
}

#[test]
fn merging_the_same_items_again_changes_nothing() {
    let mut cache = CacheFile::empty("alice");
    merge(&mut cache, vec![item(1, "Azul"), item(2, "Catan")]);
    let report = merge(&mut cache, vec![item(1, "Azul"), item(2, "Catan")]);
    assert_eq!(report, MergeReport { new: 0, updated: 0, unchanged: 2 });
    assert_eq!(cache.len(), 2);
}

#[test]
fn merge_keeps_items_not_fetched() {
    let mut cache = CacheFile::empty("alice");
    cache.insert("7".into(), item(7, "Old"));
    merge(&mut cache, vec![item(1, "Azul")]);
    assert_eq!(cache.len(), 2);
    assert_eq!(cache.get("7").unwrap().name, "Old");
}

#[test]
fn full_sync_drops_items_not_fetched() {
    let mut cache = CacheFile::empty("alice");
    cache.insert("7".into(), item(7, "Old"));
    cache.insert("1".into(), item(1, "Azul"));
    let incoming = vec![item(1, "Azul"), item(3, "New")];
    let removed = remove_missing(&mut cache, &incoming);
    assert_eq!(removed, 1);
    assert!(cache.get("7").is_none());
    merge(&mut cache, incoming);
    assert_eq!(cache.len(), 2);
    assert!(cache.get("3").is_some());
}

#[test]
fn sync_summary_lines() {
    let r = MergeReport { new: 1, updated: 2, unchanged: 3 };
    let lines = sync_summary(&r, 0, 10, false);
    assert_eq!(lines[0], "6 items processed (1 new, 2 updated, 3 unchanged). Total: 10.");
    assert!(lines[1].starts_with("Tip: incremental sync"));
    let full = sync_summary(&r, 4, 10, true);
    assert_eq!(full, vec!["Full sync: 1 new, 2 updated, 3 unchanged, 4 removed. Total: 10.".to_string()]);
    let none = sync_summary(&MergeReport { new: 0, updated: 0, unchanged: 0 }, 0, 5, true);
    assert_eq!(none, vec!["No changes since last sync. Total: 5 items.".to_string()]);
}

#[test]
fn sync_decisions() {
    let t = Timestamp { secs: 100, nanos: 0 };
    assert_eq!(modified_since(true, Some(t)), None);
    assert_eq!(modified_since(false, Some(t)), Some(t));
    assert!(session_stale(Some(t), Timestamp { secs: 100, nanos: 0 }));
    assert!(!session_stale(Some(t), Timestamp { secs: 99, nanos: 5 }));
    assert!(!session_stale(None, t));
    assert!(matches!(refresh_error(Error::AuthRequired), Error::Secrets(m) if m.contains("stored password")));
    assert!(matches!(refresh_error(Error::RateLimited), Error::RateLimited));
}

#[test]
fn parses_valid_toml_config() {
    let cfg = parse_config(
        r#"
            # comments are normal TOML now
            username = "alice"
            username_extra = "ignored"
        "#,
        "config.toml",
    )
    .unwrap();
    assert_eq!(cfg, Config { username: Some("alice".into()) });
}

#[test]
fn rejects_non_string_username() {
    let err = parse_config("username = 42", "config.toml").unwrap_err();
    assert!(matches!(err, Error::Parse(_)));
}

#[test]
fn render_escapes_username_as_toml_string() {
    let cfg = Config { username: Some(r#"ali"ce"#.into()) };
    let out = render_config(&cfg).unwrap();
    let parsed = parse_config(&out, "config.toml").unwrap();
    assert_eq!(parsed, cfg);
}

#[test]
fn config_without_username_and_bad_toml() {
    assert_eq!(parse_config("", "c.toml").unwrap(), Config { username: None });
    match parse_config("username = ", "c.toml") {
        Err(Error::Parse(m)) => assert!(m.starts_with("config c.toml: ")),
        other => panic!("unexpected: {other:?}"),
    }
    assert_eq!(render_config(&Config { username: None }).unwrap(), "");
    assert_eq!(
        render_config(&Config { username: Some("a\\b\n".into()) }).unwrap(),
        "username = \"a\\\\b\\n\"\n"
    );
}

#[test]
fn written_config_reads_back_the_same_name() {
    for name in ["bob", "tab\there", "q\"uote\\", "ctl\u{1}\u{1f}", "\u{e9}t\u{e9} \u{1f3b2}"] {
        let cfg = Config { username: Some(name.to_string()) };
        let text = render_config(&cfg).unwrap();
        assert_eq!(parse_config(&text, "c.toml").unwrap(), cfg);
    }
}

#[test]
fn name_with_delete_character_does_not_read_back() {
    let cfg = Config { username: Some("a\u{7f}b".to_string()) };
    let text = render_config(&cfg).unwrap();
    assert_eq!(text, "username = \"a\u{7f}b\"\n");
    assert!(matches!(parse_config(&text, "c.toml"), Err(Error::Parse(_))));
}

#[test]
fn require_username_needs_a_user() {
    assert!(matches!(require_username(&Config { username: None }), Err(Error::NoUser)));
    assert_eq!(require_username(&Config { username: Some("bob".into()) }).unwrap(), "bob");
}

#[test]
fn cache_file_uses_username_in_name() {
    let p = cache_file("alice").unwrap();
    assert!(p.ends_with("collection-alice.json"));
}

#[test]
fn config_file_is_under_config_dir() {
    assert!(config_file().unwrap().starts_with(&config_dir().unwrap()));
}

#[test]
fn files_live_in_the_tools_own_directories() {
    assert!(state_dir().unwrap().contains("bgg-cli"));
    assert!(config_dir().unwrap().contains("bgg-cli"));
    assert!(config_file().unwrap().contains("bgg-cli"));
    assert!(cache_file("alice").unwrap().contains("bgg-cli"));
}

#[test]
fn cache_file_keeps_the_whole_name() {
    let p = cache_file("a b").unwrap();
    assert!(p.ends_with("collection-a b.json"));
    let q = cache_file("x/y").unwrap();
    assert!(q.ends_with("collection-x/y.json"));
}

#[test]
fn error_messages_and_exit_codes() {
    assert_eq!(Error::AuthRequired.message(), "authentication required: run `bgg auth`");
    assert_eq!(
        Error::QueueTimeout { attempts: 25 }.message(),
        "BGG queued the request and did not return data after 25 retries"
    );
    assert_eq!(Error::NoCache("al".into()).message(), "no cached collection for user al; run `bgg sync`");
    assert_eq!(Error::AuthRequired.exit_code(), 2);
    assert_eq!(Error::NoUser.exit_code(), 2);
    assert_eq!(Error::RateLimited.exit_code(), 1);
    assert_eq!(Error::Parse("x".into()).exit_code(), 1);
}

#[test]
fn expired_session_is_renewed_once() {
    let (s, a) = fetch_start(false);
    assert!(matches!(a, FetchAction::Fetch));
    let (s, a) = fetch_step(s, FetchEvent::Fetched(Err(Error::AuthRequired)));
    assert!(matches!(&a, FetchAction::Refresh { message } if message == "Session expired, refreshing…"));
    let (s, a) = fetch_step(s, FetchEvent::Refreshed(Ok(())));
    assert!(matches!(a, FetchAction::Fetch));
    let (_, a) = fetch_step(s, FetchEvent::Fetched(Err(Error::AuthRequired)));
    assert!(matches!(a, FetchAction::Finish(Err(Error::AuthRequired))));

    let (s, a) = fetch_start(true);
    assert!(matches!(&a, FetchAction::Refresh { message } if message == "Refreshing BGG session…"));
    let (_, a) = fetch_step(s, FetchEvent::Refreshed(Err(Error::AuthRequired)));
    assert!(matches!(a, FetchAction::Finish(Err(Error::Secrets(_)))));
}

#[test]
fn cache_keys_are_checked_for_order() {
    let mut cache = bgg_cli::model::CacheFile::empty("alice");
    assert!(cache.keys_in_order());
    cache.insert("2".into(), item(2, "Catan"));
    cache.insert("1".into(), item(1, "Azul"));
    cache.insert("10".into(), item(10, "Wingspan"));
    assert!(cache.keys_in_order());
    cache.items.swap(0, 2);
    assert!(!cache.keys_in_order());
}

#[test]
fn applying_a_sync_drops_unfetched_items_only_when_full() {
    let fresh = || {
        let mut cache = CacheFile::empty("alice");
        cache.insert("7".into(), item(7, "Old"));
        cache.insert("1".into(), item(1, "Azul"));
        cache
    };
    let incoming = || vec![item(1, "Azul"), item(3, "New")];
    let mut full = fresh();
    let (report, removed) = apply_sync(&mut full, incoming(), true);
    assert_eq!(report, MergeReport { new: 1, updated: 0, unchanged: 1 });
    assert_eq!(removed, 1);
    assert!(full.get("7").is_none());
    assert_eq!(full.len(), 2);
    let mut incremental = fresh();
    let (report, removed) = apply_sync(&mut incremental, incoming(), false);
    assert_eq!(report, MergeReport { new: 1, updated: 0, unchanged: 1 });
    assert_eq!(removed, 0);
    assert!(incremental.get("7").is_some());
    assert_eq!(incremental.len(), 3);
    assert!(incremental.last_sync.is_some());
}

#[test]
fn whitespace_is_the_unicode_property() {
    for c in (0u32..=0x10FFFF).filter_map(char::from_u32) {
        assert_eq!(bgg_cli::text::is_whitespace(c), c.is_whitespace(), "{:x}", c as u32);
    }
}

fn rated_item(id: u32, r: f32) -> CollectionItem {
    let bits = r.to_bits();
    let key = if bits >> 31 == 1 { !bits } else { bits | 0x8000_0000 };
    let mut i = item(id, "Rated");
    i.stats = Some(bgg_cli::model::Stats {
        min_players: None,
        max_players: None,
        playing_time: None,
        user_rating: Some(key),
        average: None,
        bayes_average: None,
        users_rated: None,
    });
    i
}

#[test]
fn items_compare_their_ratings_as_floats() {
    assert!(items_equal(&rated_item(1, 7.5), &rated_item(1, 7.5)));
    assert!(!items_equal(&rated_item(1, 7.5), &rated_item(1, 8.0)));
    assert!(items_equal(&rated_item(1, 0.0), &rated_item(1, -0.0)));
    assert!(!items_equal(&rated_item(1, f32::NAN), &rated_item(1, f32::NAN)));
    let mut cache = CacheFile::empty("alice");
    merge(&mut cache, vec![rated_item(1, f32::NAN), rated_item(2, 6.0)]);
    let again = merge(&mut cache, vec![rated_item(1, f32::NAN), rated_item(2, 6.0)]);
    assert_eq!(again, MergeReport { new: 0, updated: 1, unchanged: 1 });
}
