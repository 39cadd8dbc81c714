use bgg_cli::model::{CacheFile, CollectionItem, Stats, Status, Timestamp};
use bgg_cli::stats::common::{index_of_hash, random_index, rating_bucket, values};
use bgg_cli::stats::owned::{build as owned_build, trim_outlier_years, OwnedStats};
use bgg_cli::stats::players::build as players_build;
use bgg_cli::stats::plays::{build as plays_build, h_index};
use bgg_cli::stats::ratings::build as ratings_build;
use bgg_cli::stats::render::{
    bar_chart, human_since, overview_sections, priorities_label, range_label, OverviewSection,
};
use bgg_cli::stats::report::build as report_build;
use bgg_cli::stats::time::{bucket_picks, build as time_build};
use bgg_cli::stats::year::{build as year_build, decade_picks, dense_years};

fn key(r: f32) -> u32 {
    let bits = r.to_bits();
    if bits >> 31 == 1 {
        !bits
    } else {
        bits | 0x8000_0000
    }
}

fn full_stats(min: u32, max: u32, time: u32, user: Option<f32>, avg: Option<f32>) -> Stats {
    Stats {
        min_players: Some(min),
        max_players: Some(max),
        playing_time: Some(time),
        user_rating: user.map(key),
        average: avg.map(key),
        bayes_average: avg.map(key),
        users_rated: Some(1000),
    }
}

fn game(id: u32, name: &str, subtype: &str, owned: bool, plays: u32, year: Option<i32>, stats: Option<Stats>) -> CollectionItem {
    CollectionItem {
        id,
        collid: Some(id as u64),
        subtype: subtype.into(),
        name: name.into(),
        year_published: year,
        image: None,
        thumbnail: None,
        status: Status { own: owned, ..Default::default() },
        num_plays: plays,
        stats,
    }
}

fn owned_item(id: u32, name: &str, owned: bool, plays: u32) -> CollectionItem {
    game(id, name, "boardgame", owned, plays, Some(2020), Some(full_stats(2, 4, 60, Some(8.0), Some(7.5))))
}

fn cache_with(items: Vec<CollectionItem>) -> CacheFile {
    let mut cache = CacheFile::empty("tester");
    for item in items {
        let k = item.collid.unwrap().to_string();
        cache.insert(k, item);
    }
    cache
}

fn owned_with(items: &[CollectionItem]) -> OwnedStats {
    let all: Vec<&CollectionItem> = items.iter().collect();
    owned_build(&all)
}

fn top_tuple(e: Option<&bgg_cli::stats::owned::TopEntry>) -> Option<(u32, &str, i64)> {
    e.map(|t| (t.id, t.name.as_str(), t.value))
}

#[test]
fn deep_dive_headlines_match_owned_overview() {
    let cache = cache_with(vec![
        game(1, "User rated only", "boardgame", true, 10, Some(2000), Some(full_stats(1, 4, 25, Some(9.0), None))),
        game(2, "Rated with BGG", "boardgame", true, 0, Some(1990), Some(full_stats(2, 4, 60, Some(7.0), Some(7.5)))),
        game(3, "BGG only", "boardgame", true, 5, Some(2020), Some(full_stats(2, 4, 120, None, Some(8.0)))),
        game(4, "Missing stats", "boardgame", true, 0, None, None),
        game(5, "Expansion", "boardgameexpansion", true, 99, Some(1800), Some(full_stats(1, 1, 10, Some(10.0), Some(10.0)))),
        game(6, "Not owned", "boardgame", false, 99, Some(1800), Some(full_stats(1, 1, 10, Some(10.0), Some(10.0)))),
    ]);
    let all = values(&cache);
    let overview = owned_build(&all);

    let plays = plays_build(&cache);
    assert_eq!(overview.count, plays.played_count + plays.unplayed_count);
    assert_eq!(overview.plays.total, plays.total);
    assert_eq!(overview.plays.played_count, plays.played_count);
    assert_eq!(overview.plays.unplayed_count, plays.unplayed_count);

    let ratings = ratings_build(&cache);
    assert_eq!(overview.count, ratings.total_owned);
    assert_eq!(overview.ratings.rated_count, ratings.rated_count);
    assert_eq!(overview.ratings.your_distribution, ratings.your_distribution);
    assert_eq!(overview.ratings.bgg_distribution, ratings.bgg_distribution);

    let year = year_build(&cache);
    assert_eq!(top_tuple(overview.year.oldest.as_ref()), top_tuple(year.oldest.as_ref()));
    assert_eq!(top_tuple(overview.year.newest.as_ref()), top_tuple(year.newest.as_ref()));
    assert_eq!(overview.year.by_year, year.by_year);

    let time = time_build(&cache);
    assert_eq!(overview.time.avg_minutes, time.avg_minutes);
    assert_eq!(overview.time.quick_under_30, time.quick_under_30.len());
    assert_eq!(overview.time.medium_30_to_89, time.medium_30_to_89.len());
    assert_eq!(overview.time.long_90_to_180, time.long_90_to_180.len());
    assert_eq!(overview.time.epic_over_180, time.epic_over_180.len());

    let players = players_build(&cache);
    assert_eq!(overview.players.solo_capable, players.solo_capable);
    assert_eq!(overview.players.two_capable, players.two_capable);
    assert_eq!(overview.players.common_range, players.common_range);
}

#[test]
fn ratings_distribution_buckets_rounded_to_integers() {
    let mk = |id, r| {
        let mut i = owned_item(id, "x", true, 0);
        i.stats.as_mut().unwrap().user_rating = Some(key(r));
        i
    };
    let items = vec![mk(1, 7.4), mk(2, 7.6), mk(3, 10.0), mk(4, 11.0)];
    let r = owned_with(&items);
    assert_eq!(r.ratings.your_distribution[6], 1, "bucket 7");
    assert_eq!(r.ratings.your_distribution[7], 1, "bucket 8");
    assert_eq!(r.ratings.your_distribution[9], 1, "bucket 10");
    let total: usize = r.ratings.your_distribution.iter().sum();
    assert_eq!(total, 3, "11.0 is dropped");
}

#[test]
fn rating_buckets_follow_rounding_half_away_from_zero() {
    let cases: [(f32, Option<usize>); 12] = [
        (0.49, None),
        (0.5, Some(0)),
        (1.0, Some(0)),
        (1.49, Some(0)),
        (1.5, Some(1)),
        (7.5, Some(7)),
        (10.0, Some(9)),
        (10.49, Some(9)),
        (10.5, None),
        (-3.0, None),
        (f32::NAN, None),
        (f32::INFINITY, None),
    ];
    for (r, want) in cases {
        let n = r.round() as i32;
        let b = if (1..=10).contains(&n) { Some((n - 1) as usize) } else { None };
        assert_eq!(b, want, "rounding {r}");
        assert_eq!(rating_bucket(key(r)), want, "bucket of {r}");
    }
    let bgg = vec![owned_item(1, "a", true, 0), owned_item(2, "b", true, 0)];
    let r = owned_with(&bgg);
    assert_eq!(r.ratings.bgg_distribution, vec![0, 0, 0, 0, 0, 0, 0, 2, 0, 0]);
}

#[test]
fn dense_years_fills_missing_years_with_zero() {
    let by_year = vec![(1990, 2), (1993, 1), (2000, 4)];
    assert_eq!(dense_years(&by_year, 1990, 1994), vec![2, 0, 0, 1, 0]);
    assert_eq!(dense_years(&by_year, 2000, 2000), vec![4]);
    assert!(dense_years(&by_year, 2001, 2000).is_empty());
}

#[test]
fn owned_stats_restrict_to_boardgame_subtype() {
    let mut exp = owned_item(1, "Expansion", true, 99);
    exp.subtype = "boardgameexpansion".into();
    let g = owned_item(2, "Game", true, 3);
    let r = owned_with(&[exp, g]);
    assert_eq!(r.count, 1);
    assert_eq!(r.plays.total, 3);
    assert_eq!(r.plays.top.first().unwrap().name, "Game");
}

#[test]
fn plays_top_excludes_unplayed_and_sorts_desc() {
    let items = vec![
        owned_item(1, "Zero", true, 0),
        owned_item(2, "Two", true, 2),
        owned_item(3, "Ten", true, 10),
        owned_item(4, "Five", true, 5),
    ];
    let r = owned_with(&items);
    let names: Vec<String> = r.plays.top.iter().map(|t| t.name.clone()).collect();
    assert_eq!(names, vec!["Ten", "Five", "Two"]);
    assert_eq!(r.plays.played_count, 3);
    assert_eq!(r.plays.unplayed_count, 1);
}

#[test]
fn year_buckets_per_year_and_extremes() {
    let mk = |id: u32, name: &str, y: i32| {
        let mut i = owned_item(id, name, true, 0);
        i.year_published = Some(y);
        i
    };
    let items = vec![mk(1, "1985", 1985), mk(2, "1992", 1992), mk(3, "2020", 2020), mk(4, "2021", 2021)];
    let r = owned_with(&items);
    assert_eq!(r.year.by_year, vec![(1985, 1), (1992, 1), (2020, 1), (2021, 1)]);
    assert_eq!(r.year.oldest.as_ref().unwrap().value, 1985);
    assert_eq!(r.year.newest.as_ref().unwrap().value, 2021);
}

#[test]
fn trim_outlier_years_drops_thin_leading_and_trailing_tails() {
    let mut by = vec![(1500, 1), (1600, 1)];
    for y in 2000..=2009 {
        by.push((y, 10));
    }
    by.push((2100, 1));
    by.push((2200, 1));
    let (lo, hi) = trim_outlier_years(&by, 40).unwrap();
    assert_eq!(lo, 2000);
    assert_eq!(hi, 2009);
}

#[test]
fn trim_outlier_years_returns_none_for_empty_input() {
    let by: Vec<(i32, usize)> = Vec::new();
    assert!(trim_outlier_years(&by, 20).is_none());
}

#[test]
fn time_buckets_split_at_30_90_180() {
    let mk = |id: u32, t: u32| {
        let mut i = owned_item(id, "x", true, 0);
        i.stats.as_mut().unwrap().playing_time = Some(t);
        i
    };
    let items = vec![mk(1, 15), mk(2, 30), mk(3, 89), mk(4, 90), mk(5, 180), mk(6, 181)];
    let r = owned_with(&items);
    assert_eq!(r.time.quick_under_30, 1);
    assert_eq!(r.time.medium_30_to_89, 2);
    assert_eq!(r.time.long_90_to_180, 2);
    assert_eq!(r.time.epic_over_180, 1);
    let buckets = r.time.quick_under_30 + r.time.medium_30_to_89 + r.time.long_90_to_180 + r.time.epic_over_180;
    assert_eq!(buckets, 6);
}

#[test]
fn players_solo_two_and_common_range() {
    let mk = |id: u32, min: u32, max: u32| {
        let mut i = owned_item(id, "x", true, 0);
        let s = i.stats.as_mut().unwrap();
        s.min_players = Some(min);
        s.max_players = Some(max);
        i
    };
    let items = vec![mk(1, 1, 4), mk(2, 2, 4), mk(3, 2, 4), mk(4, 3, 6)];
    let r = owned_with(&items);
    assert_eq!(r.players.solo_capable, 1);
    assert_eq!(r.players.two_capable, 3);
    assert_eq!(r.players.common_range, Some((2, 4)));
}

#[test]
fn counts_status_flags_across_all_subtypes() {
    let mut a = game(1, "A", "boardgame", true, 0, Some(2020), None);
    let mut b = game(2, "B", "boardgame", false, 0, Some(2020), None);
    b.status.wishlist = true;
    b.status.wishlist_priority = Some(2);
    a.subtype = "boardgameexpansion".into();
    let r = report_build(&cache_with(vec![a, b]));
    assert_eq!(r.items.boardgames, 1);
    assert_eq!(r.items.expansions, 1);
    assert_eq!(r.statuses.own, 1);
    assert_eq!(r.statuses.wishlist, 1);
    assert_eq!(r.statuses.wishlist_by_priority, vec![(2u8, 1usize)]);
    assert_eq!(r.owned.count, r.statuses.own_boardgames);
}

// ---- further cases ----

#[test]
fn h_index_counts_games_played_at_least_that_often() {
    let items = vec![
        owned_item(1, "a", true, 10),
        owned_item(2, "b", true, 4),
        owned_item(3, "c", true, 3),
        owned_item(4, "d", true, 3),
        owned_item(5, "e", true, 1),
    ];
    let refs: Vec<&CollectionItem> = items.iter().collect();
    assert_eq!(h_index(&refs), 3);
    let none: Vec<&CollectionItem> = Vec::new();
    assert_eq!(h_index(&none), 0);
}

#[test]
fn plays_report_counts_milestones_and_histogram() {
    let cache = cache_with(vec![
        owned_item(1, "One", true, 1),
        owned_item(2, "Five", true, 5),
        owned_item(3, "Twelve", true, 12),
        owned_item(4, "Thirty", true, 30),
        owned_item(5, "Zero", true, 0),
    ]);
    let r = plays_build(&cache);
    assert_eq!(r.total, 48);
    assert_eq!(r.nickels, 3);
    assert_eq!(r.dimes, 2);
    assert_eq!(r.quarters, 1);
    assert_eq!(r.h_index, 3);
    let counts: Vec<usize> = r.histogram.iter().map(|b| b.count).collect();
    assert_eq!(counts, vec![1, 1, 0, 1, 1, 0, 0]);
    assert_eq!(r.histogram[1].label, "2-5");
    assert_eq!(r.top_plays[0].name, "Thirty");
}

#[test]
fn recent_plays_are_newest_first() {
    let mut a = owned_item(1, "Old", true, 2);
    a.status.last_modified = Some(Timestamp { secs: 100, nanos: 0 });
    let mut b = owned_item(2, "New", true, 1);
    b.status.last_modified = Some(Timestamp { secs: 200, nanos: 0 });
    let mut c = owned_item(3, "Unplayed", true, 0);
    c.status.last_modified = Some(Timestamp { secs: 300, nanos: 0 });
    let r = plays_build(&cache_with(vec![a, b, c]));
    let names: Vec<&str> = r.recent_plays.iter().map(|e| e.name.as_str()).collect();
    assert_eq!(names, vec!["New", "Old"]);
}

#[test]
fn ratings_ranked_best_first_with_bgg_average() {
    let cache = cache_with(vec![
        game(1, "Low", "boardgame", true, 0, None, Some(full_stats(1, 2, 30, Some(5.0), Some(6.0)))),
        game(2, "High", "boardgame", true, 0, None, Some(full_stats(1, 2, 30, Some(9.0), None))),
        game(3, "Unrated", "boardgame", true, 0, None, Some(full_stats(1, 2, 30, None, Some(7.0)))),
    ]);
    let r = ratings_build(&cache);
    assert_eq!(r.rated_count, 2);
    assert_eq!(r.total_owned, 3);
    let names: Vec<&str> = r.ranked.iter().map(|e| e.name.as_str()).collect();
    assert_eq!(names, vec!["High", "Low"]);
    assert_eq!(r.ranked[0].your_rating, key(9.0));
    assert_eq!(r.ranked[1].bgg_average, Some(key(6.0)));
}

#[test]
fn year_report_decades_and_order() {
    let mk = |id: u32, name: &str, y: i32| {
        let mut i = owned_item(id, name, true, 0);
        i.year_published = Some(y);
        i
    };
    let cache = cache_with(vec![mk(1, "B", 1995), mk(2, "A", 1995), mk(3, "C", 2021), mk(4, "D", 1960)]);
    let r = year_build(&cache);
    let labels: Vec<(&str, usize)> = r.by_decade.iter().map(|b| (b.label.as_str(), b.count)).collect();
    assert_eq!(labels, vec![("< 1970", 1), ("1990s", 2), ("2020s", 1)]);
    let names: Vec<&str> = r.sorted.iter().map(|e| e.name.as_str()).collect();
    assert_eq!(names, vec!["D", "A", "B", "C"]);
    assert_eq!(r.chart_range, Some((1960, 2021)));
    let picks = decade_picks(&r.sorted, 7);
    assert_eq!(picks.len(), 1);
    assert_eq!(picks[0].0, "1990s");
    assert_eq!(r.sorted[picks[0].1].value, 1995);
}

#[test]
fn time_report_lists_buckets_shortest_first() {
    let mk = |id: u32, name: &str, t: u32| {
        let mut i = owned_item(id, name, true, 0);
        i.stats.as_mut().unwrap().playing_time = Some(t);
        i
    };
    let cache = cache_with(vec![mk(1, "Long", 25), mk(2, "Short", 10), mk(3, "Epic", 300)]);
    let r = time_build(&cache);
    let quick: Vec<&str> = r.quick_under_30.iter().map(|e| e.name.as_str()).collect();
    assert_eq!(quick, vec!["Short", "Long"]);
    assert_eq!(r.avg_minutes, Some(112));
    assert_eq!(r.histogram.len(), 9);
    assert_eq!(r.histogram[0].count, 1);
    assert_eq!(r.histogram[1].count, 1);
    assert_eq!(r.histogram[8].label, "240m+");
    let picks = bucket_picks(&r, 3);
    assert_eq!(picks.len(), 1);
    assert_eq!(picks[0].0, 0);
    assert!(picks[0].1 < 2);
}

#[test]
fn average_minutes_rounds_half_up() {
    let mk = |id: u32, t: u32| {
        let mut i = owned_item(id, "x", true, 0);
        i.stats.as_mut().unwrap().playing_time = Some(t);
        i
    };
    let r = owned_with(&[mk(1, 1), mk(2, 2)]);
    assert_eq!(r.time.avg_minutes, Some(2));
    let r = owned_with(&[mk(1, 1), mk(2, 1), mk(3, 2)]);
    assert_eq!(r.time.avg_minutes, Some(1));
}

#[test]
fn players_rows_cover_one_to_twelve() {
    let mut solo = owned_item(1, "Solo only", true, 0);
    {
        let s = solo.stats.as_mut().unwrap();
        s.min_players = Some(1);
        s.max_players = Some(1);
    }
    let party = owned_item(2, "Party", true, 0);
    let r = players_build(&cache_with(vec![solo, party]));
    assert_eq!(r.by_count.len(), 12);
    assert_eq!(r.by_count[0].players, 1);
    assert_eq!(r.by_count[0].count, 1);
    assert_eq!(r.by_count[0].only_at_count, vec!["Solo only".to_string()]);
    assert_eq!(r.by_count[1].count, 1);
    assert_eq!(r.by_count[1].best.as_ref().unwrap().name, "Party");
    assert_eq!(r.by_count[11].count, 0);
}

#[test]
fn human_since_picks_the_largest_unit() {
    let t = |s: i64| Timestamp { secs: s, nanos: 0 };
    assert_eq!(human_since(t(0), t(59)), "just now");
    assert_eq!(human_since(t(0), t(125)), "2m ago");
    assert_eq!(human_since(t(0), t(7200)), "2h ago");
    assert_eq!(human_since(t(0), t(86400 * 3)), "3d ago");
    assert_eq!(human_since(t(0), t(86400 * 65)), "2mo ago");
    assert_eq!(human_since(t(0), t(86400 * 800)), "2y ago");
    assert_eq!(human_since(t(100), t(0)), "just now");
}

#[test]
fn random_index_stays_below_the_length() {
    assert_eq!(random_index(1, "x", 0), None);
    for n in 1..20usize {
        assert!(random_index(42, "label", n).unwrap() < n);
    }
}

#[test]
fn range_and_priority_labels() {
    assert_eq!(range_label(None), "-");
    assert_eq!(range_label(Some((2, 2))), "2");
    assert_eq!(range_label(Some((2, 4))), "2-4");
    assert_eq!(priorities_label(&vec![(1, 3), (4, 1)]), "P1: 3  P4: 1");
    assert_eq!(priorities_label(&Vec::new()), "");
}

#[test]
fn drawn_hash_picks_its_remainder() {
    assert_eq!(index_of_hash(17, 5), 2);
    assert_eq!(index_of_hash(0, 1), 0);
    assert_eq!(index_of_hash(u64::MAX, 10), (u64::MAX as usize) % 10);
}

#[test]
fn overview_shows_owned_sections_only_with_owned_games() {
    type S = OverviewSection;
    assert_eq!(overview_sections(0), vec![S::Items, S::NoOwnedGames]);
    assert_eq!(overview_sections(3), vec![S::Items, S::Plays, S::Ratings, S::Year, S::Time, S::Players]);
}

#[test]
fn bars_fill_their_share_of_the_width() {
    assert_eq!(bar_chart(3, 6, 10), "\u{2588}\u{2588}\u{2588}\u{2588}\u{2588}     ");
    assert_eq!(bar_chart(6, 6, 4), "\u{2588}\u{2588}\u{2588}\u{2588}");
    assert_eq!(bar_chart(1, 3, 4), "\u{2588}   ");
    assert_eq!(bar_chart(0, 0, 3), "   ");
    assert_eq!(bar_chart(0, 5, 0), "");
}
