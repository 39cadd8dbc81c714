use bgg_cli::cmd::list::{select_rows, Direction, SortField};
use bgg_cli::list::columns::{resolve_columns, Col};
use bgg_cli::list::filter::FilterSpec;
use bgg_cli::list::render::{display_width, footer, hyperlink, render_table};
use bgg_cli::list::sort::SortSpec;
use bgg_cli::model::{CacheFile, CollectionItem, Stats, Status};

fn rating_key(r: f32) -> u32 {
    let bits = r.to_bits();
    if bits >> 31 == 1 {
        !bits
    } else {
        bits | 0x8000_0000
    }
}

fn item(owned: bool, subtype: &str, plays: u32) -> CollectionItem {
    CollectionItem {
        id: 1,
        collid: Some(1),
        subtype: subtype.into(),
        name: "x".into(),
        year_published: None,
        image: None,
        thumbnail: None,
        status: Status { own: owned, ..Default::default() },
        num_plays: plays,
        stats: None,
    }
}

fn named(name: &str) -> CollectionItem {
    let mut i = item(true, "boardgame", 0);
    i.name = name.into();
    i
}

fn rated(name: &str, r: f32) -> CollectionItem {
    let mut i = named(name);
    i.stats = Some(Stats {
        min_players: None,
        max_players: None,
        playing_time: None,
        user_rating: Some(rating_key(r)),
        average: None,
        bayes_average: None,
        users_rated: None,
    });
    i
}

fn solo_item(min: u32) -> CollectionItem {
    let mut i = item(true, "boardgame", 0);
    i.stats = Some(Stats {
        min_players: Some(min),
        max_players: Some(4),
        playing_time: None,
        user_rating: None,
        average: None,
        bayes_average: None,
        users_rated: None,
    });
    i
}

fn sort_names(spec: &SortSpec, rows: &mut Vec<&CollectionItem>) -> Vec<String> {
    rows.sort_by(|a, b| spec.compare(a, b));
    rows.iter().map(|i| i.name.clone()).collect()
}

// ---- tests of the list command ----

#[test]
fn list_sort_parses_field_and_uses_natural_direction_by_default() {
    let a = SortSpec::parse("name").unwrap();
    assert_eq!(a.field, SortField::Name);
    assert_eq!(a.direction, Direction::Asc);

    let c = SortSpec::parse("plays").unwrap();
    assert_eq!(c.field, SortField::Plays);
    assert_eq!(c.direction, Direction::Desc);
}

#[test]
fn list_sort_direction_postfix_overrides_natural() {
    assert_eq!(SortSpec::parse("name:desc").unwrap().direction, Direction::Desc);
    assert_eq!(SortSpec::parse("plays:asc").unwrap().direction, Direction::Asc);
    assert_eq!(SortSpec::parse("year:asc").unwrap().direction, Direction::Asc);
}

#[test]
fn list_sort_rejects_unknown_field_or_direction() {
    assert!(SortSpec::parse("nope").is_err());
    assert!(SortSpec::parse("name:sideways").is_err());
}

#[test]
fn list_sort_desc_keeps_missing_optional_values_last() {
    let unrated = named("Unrated");
    let low = rated("Low", 4.0);
    let high = rated("High", 9.0);
    let sort = SortSpec::parse("rating").unwrap();
    let mut rows = vec![&unrated, &low, &high];
    assert_eq!(sort_names(&sort, &mut rows), vec!["High", "Low", "Unrated"]);
}

#[test]
fn list_resolve_columns_defaults_to_year_name() {
    let cols = resolve_columns(None, SortField::Name).unwrap();
    assert_eq!(cols, vec![Col::Year, Col::Name]);
}

#[test]
fn list_resolve_columns_implicitly_adds_sort_column_before_name() {
    let cols = resolve_columns(None, SortField::Plays).unwrap();
    assert_eq!(cols, vec![Col::Year, Col::Plays, Col::Name]);
}

#[test]
fn list_resolve_columns_explicit_overrides_implicit() {
    let cols = resolve_columns(Some("name,year"), SortField::Plays).unwrap();
    assert_eq!(cols, vec![Col::Name, Col::Year]);
}

#[test]
fn list_resolve_columns_all_expands() {
    let cols = resolve_columns(Some("all"), SortField::Name).unwrap();
    assert_eq!(cols, Col::all());
}

#[test]
fn list_resolve_columns_rejects_unknown() {
    assert!(resolve_columns(Some("year,bogus"), SortField::Name).is_err());
}

#[test]
fn list_filter_default_keeps_owned_boardgames_and_drops_expansions() {
    let spec = FilterSpec::parse("owned,not:expansion").unwrap();
    let bg = item(true, "boardgame", 0);
    let exp = item(true, "boardgameexpansion", 0);
    let unowned = item(false, "boardgame", 0);
    assert!(spec.matches(&bg));
    assert!(!spec.matches(&exp));
    assert!(!spec.matches(&unowned));
}

#[test]
fn list_filter_played_matches_when_num_plays_gt_zero() {
    let spec = FilterSpec::parse("played").unwrap();
    assert!(spec.matches(&item(false, "boardgame", 3)));
    assert!(!spec.matches(&item(false, "boardgame", 0)));
}

#[test]
fn filter_solo_requires_min_players_le_one() {
    assert!(FilterSpec::parse("solo").unwrap().matches(&solo_item(1)));
    assert!(!FilterSpec::parse("solo").unwrap().matches(&solo_item(2)));
    assert!(!FilterSpec::parse("solo").unwrap().matches(&solo_item(0)));
}

#[test]
fn list_filter_rejects_unknown_value() {
    assert!(FilterSpec::parse("owned,bogus").is_err());
}

#[test]
fn list_filter_rejects_empty_value() {
    assert!(FilterSpec::parse("").is_err());
    assert!(FilterSpec::parse("  ,  ").is_err());
}

// ---- tests of the list modules ----

#[test]
fn columns_resolve_columns_defaults_to_year_name() {
    let cols = resolve_columns(None, SortField::Name).unwrap();
    assert_eq!(cols, vec![Col::Year, Col::Name]);
}

#[test]
fn columns_resolve_columns_implicitly_adds_sort_column_before_name() {
    let cols = resolve_columns(None, SortField::Plays).unwrap();
    assert_eq!(cols, vec![Col::Year, Col::Plays, Col::Name]);
}

#[test]
fn columns_resolve_columns_explicit_overrides_implicit() {
    let cols = resolve_columns(Some("name,year"), SortField::Plays).unwrap();
    assert_eq!(cols, vec![Col::Name, Col::Year]);
}

#[test]
fn columns_resolve_columns_all_expands() {
    let cols = resolve_columns(Some("all"), SortField::Name).unwrap();
    assert_eq!(cols, Col::all());
}

#[test]
fn columns_resolve_columns_rejects_unknown() {
    assert!(resolve_columns(Some("year,bogus"), SortField::Name).is_err());
}

#[test]
fn filter_filter_default_keeps_owned_boardgames_and_drops_expansions() {
    let spec = FilterSpec::parse("owned,not:expansion").unwrap();
    assert!(spec.matches(&item(true, "boardgame", 0)));
    assert!(!spec.matches(&item(true, "boardgameexpansion", 0)));
    assert!(!spec.matches(&item(false, "boardgame", 0)));
}

#[test]
fn filter_filter_played_matches_when_num_plays_gt_zero() {
    let spec = FilterSpec::parse("played").unwrap();
    assert!(spec.matches(&item(false, "boardgame", 3)));
    assert!(!spec.matches(&item(false, "boardgame", 0)));
}

#[test]
fn filter_solo_requires_valid_solo_range() {
    assert!(FilterSpec::parse("solo").unwrap().matches(&solo_item(1)));
    assert!(!FilterSpec::parse("solo").unwrap().matches(&solo_item(2)));
    assert!(!FilterSpec::parse("solo").unwrap().matches(&solo_item(0)));
}

#[test]
fn filter_filter_rejects_unknown_value() {
    assert!(FilterSpec::parse("owned,bogus").is_err());
}

#[test]
fn filter_filter_rejects_empty_value() {
    assert!(FilterSpec::parse("").is_err());
    assert!(FilterSpec::parse("  ,  ").is_err());
}

#[test]
fn sort_sort_parses_field_and_uses_natural_direction_by_default() {
    let a = SortSpec::parse("name").unwrap();
    assert_eq!(a.field, SortField::Name);
    assert_eq!(a.direction, Direction::Asc);
    let c = SortSpec::parse("plays").unwrap();
    assert_eq!(c.field, SortField::Plays);
    assert_eq!(c.direction, Direction::Desc);
}

#[test]
fn sort_sort_direction_postfix_overrides_natural() {
    assert_eq!(SortSpec::parse("name:desc").unwrap().direction, Direction::Desc);
    assert_eq!(SortSpec::parse("plays:asc").unwrap().direction, Direction::Asc);
    assert_eq!(SortSpec::parse("year:asc").unwrap().direction, Direction::Asc);
}

#[test]
fn sort_sort_rejects_unknown_field_or_direction() {
    assert!(SortSpec::parse("nope").is_err());
    assert!(SortSpec::parse("name:sideways").is_err());
}

#[test]
fn sort_sort_desc_keeps_missing_optional_values_last() {
    let unrated = named("Unrated");
    let low = rated("Low", 4.0);
    let high = rated("High", 9.0);
    let sort = SortSpec::parse("rating").unwrap();
    let mut rows = vec![&unrated, &low, &high];
    assert_eq!(sort_names(&sort, &mut rows), vec!["High", "Low", "Unrated"]);
}

// ---- further cases ----

#[test]
fn not_prefix_inverts_a_filter() {
    let spec = FilterSpec::parse("not:played").unwrap();
    assert!(spec.matches(&item(false, "boardgame", 0)));
    assert!(!spec.matches(&item(false, "boardgame", 2)));
}

#[test]
fn filter_error_names_the_bad_value() {
    let e = FilterSpec::parse("owned,bogus").unwrap_err();
    assert!(e.message().contains("bogus"));
}

#[test]
fn ascending_rating_also_keeps_missing_last() {
    let unrated = named("Unrated");
    let low = rated("Low", 4.0);
    let high = rated("High", 9.0);
    let sort = SortSpec::parse("rating:asc").unwrap();
    let mut rows = vec![&unrated, &high, &low];
    assert_eq!(sort_names(&sort, &mut rows), vec!["Low", "High", "Unrated"]);
}

#[test]
fn name_sort_ignores_letter_case() {
    let a = named("azul");
    let b = named("Brass");
    let c = named("catan");
    let sort = SortSpec::parse("name").unwrap();
    let mut rows = vec![&c, &b, &a];
    assert_eq!(sort_names(&sort, &mut rows), vec!["azul", "Brass", "catan"]);
}

#[test]
fn select_rows_filters_sorts_and_limits() {
    let mut cache = CacheFile::empty("alice");
    let mut a = item(true, "boardgame", 5);
    a.id = 1;
    a.name = "Azul".into();
    let mut b = item(true, "boardgame", 9);
    b.id = 2;
    b.name = "Brass".into();
    let mut c = item(true, "boardgameexpansion", 20);
    c.id = 3;
    c.name = "Cities".into();
    cache.insert("1".into(), a);
    cache.insert("2".into(), b);
    cache.insert("3".into(), c);
    let view = select_rows(&cache, "owned,not:expansion", "plays", None, Some(1)).unwrap();
    assert_eq!(view.total, 2);
    assert_eq!(view.rows.len(), 1);
    assert_eq!(view.rows[0].name, "Brass");
    assert_eq!(view.cols, vec![Col::Year, Col::Plays, Col::Name]);
}

#[test]
fn select_rows_reports_the_filter_error_first() {
    let cache = CacheFile::empty("alice");
    let e = select_rows(&cache, "bogus", "nope", Some("bad"), None).err().unwrap();
    assert!(e.message().contains("bogus"));
}

#[test]
fn footer_counts_shown_of_total() {
    assert_eq!(footer(3, 10), "Showing 3 of 10 items.");
    assert_eq!(footer(4, 4), "4 items.");
    assert_eq!(footer(0, 0), "No items match the filter.");
}

#[test]
fn render_table_pads_columns() {
    let cols = vec![Col::Year, Col::Name];
    let rows = vec![vec!["2017".to_string(), "Gloomhaven".to_string()]];
    let lines = render_table(&cols, &rows);
    assert_eq!(lines.len(), 2);
    assert_eq!(lines[0], "YEAR  NAME");
    assert_eq!(lines[1], "2017  Gloomhaven");
}

#[test]
fn joined_filters_keep_what_both_keep_and_not_inverts() {
    let items = [
        item(true, "boardgame", 0),
        item(true, "boardgame", 3),
        item(false, "boardgame", 3),
        item(true, "boardgameexpansion", 0),
        item(false, "boardgameexpansion", 2),
    ];
    let words = ["owned", "played", "expansion", "all", "solo", "not:played", " owned , not:expansion "];
    for a in words {
        for b in words {
            let pa = FilterSpec::parse(a).unwrap();
            let pb = FilterSpec::parse(b).unwrap();
            let joined = FilterSpec::parse(&format!("{a},{b}")).unwrap();
            for i in &items {
                assert_eq!(joined.matches(i), pa.matches(i) && pb.matches(i), "{a},{b}");
            }
        }
    }
    for k in ["owned", "played", "expansion", "all"] {
        let p = FilterSpec::parse(k).unwrap();
        let n = FilterSpec::parse(&format!("not:{k}")).unwrap();
        for i in &items {
            assert_eq!(n.matches(i), !p.matches(i), "not:{k}");
        }
    }
    let all = FilterSpec::parse("all").unwrap();
    let owned = FilterSpec::parse("owned").unwrap();
    let played = FilterSpec::parse("played").unwrap();
    let expansion = FilterSpec::parse("expansion").unwrap();
    for i in &items {
        assert!(all.matches(i));
        assert_eq!(owned.matches(i), i.status.own);
        assert_eq!(played.matches(i), i.num_plays > 0);
        assert_eq!(expansion.matches(i), i.subtype == "boardgameexpansion");
    }
}

#[test]
fn hyperlinks_are_as_wide_as_their_text() {
    let link = hyperlink("https://boardgamegeek.com/boardgame/1", "Azul");
    assert_eq!(display_width(&link.chars().collect()), 4);
    assert_eq!(display_width(&"Wingspan".chars().collect()), 8);
    assert_eq!(display_width(&"".chars().collect()), 0);
}

#[test]
fn negative_zero_rating_sorts_as_zero() {
    let mut a = rated("a", -0.0);
    a.id = 1;
    let mut b = rated("b", 0.0);
    b.id = 2;
    let spec = SortSpec::parse("rating").unwrap();
    let mut rows = vec![&b, &a];
    assert_eq!(sort_names(&spec, &mut rows), vec!["a".to_string(), "b".to_string()]);
}
