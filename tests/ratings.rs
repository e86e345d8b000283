use elo_pools::{
    contains_ignoring_case, estimated_length, is_casual, same_bytes, RatingOutOfRange, Ratings,
    MAX_RATING,
};

fn game(headers: &[(&str, &str)]) -> Vec<(Vec<u8>, Vec<u8>)> {
    headers
        .iter()
        .map(|(k, v)| (k.as_bytes().to_vec(), v.as_bytes().to_vec()))
        .collect()
}

fn pool_name(r: &Ratings) -> Option<&'static str> {
    r.pool.map(|i| r.rating_pools[i].perf_type.name)
}

#[test]
fn default_categories() {
    let r = Ratings::default();
    let names: Vec<&str> = r.rating_pools.iter().map(|p| p.perf_type.name).collect();
    assert_eq!(names, vec!["ultrabullet", "bullet", "blitz", "rapid", "classical"]);
    let ranges: Vec<(u64, u64)> =
        r.rating_pools.iter().map(|p| (p.perf_type.speed.start, p.perf_type.speed.end)).collect();
    assert_eq!(ranges, vec![(0, 30), (30, 180), (180, 480), (480, 1500), (1500, 21600)]);
    assert_eq!(r.games_skipped, 0);
    assert_eq!(r.casual, 0);
    assert!(r.pool.is_none());
}

#[test]
fn bullet_from_120_plus_1() {
    assert_eq!(estimated_length(b"120+1"), Some(160));
    let mut r = Ratings::default();
    r.set_pool(b"120+1");
    assert_eq!(r.pool, Some(1));
    assert_eq!(pool_name(&r), Some("bullet"));
}

#[test]
fn rapid_from_900_plus_10() {
    assert_eq!(estimated_length(b"900+10"), Some(1300));
    let mut r = Ratings::default();
    r.set_pool(b"900+10");
    assert_eq!(pool_name(&r), Some("rapid"));
}

#[test]
fn each_category_from_its_time_control() {
    let mut r = Ratings::default();
    let cases: [(&[u8], Option<&str>); 9] = [
        (b"15+0", Some("ultrabullet")),
        (b"29+0", Some("ultrabullet")),
        (b"30+0", Some("bullet")),
        (b"60+3", Some("blitz")),
        (b"180+0", Some("blitz")),
        (b"300+5", Some("rapid")),
        (b"1500+0", Some("classical")),
        (b"1800+30", Some("classical")),
        (b"21600+0", None),
    ];
    for (tc, expected) in cases.iter() {
        r.set_pool(tc);
        assert_eq!(pool_name(&r), *expected);
    }
}

#[test]
fn unclassifiable_time_controls() {
    for tc in [&b"-"[..], b"", b"300", b"300+", b"+5", b"abc", b"99999999999999999999+1", b"1+999999999999999999"] {
        assert_eq!(estimated_length(tc), None);
        let mut r = Ratings::default();
        r.set_pool(tc);
        assert_eq!(r.pool, None);
    }
}

#[test]
fn first_time_control_in_text_is_used() {
    assert_eq!(estimated_length(b"x 300+5 y"), Some(500));
    assert_eq!(estimated_length(b"40/7200+60"), Some(7200 + 40 * 60));
    assert_eq!(estimated_length(b"a+1 20+2+3"), Some(100));
    assert_eq!(estimated_length(b"007+001"), Some(47));
}

#[test]
fn rating_of_digits() {
    assert_eq!(Ratings::parse_rating(b"1500"), Some(1500));
    assert_eq!(Ratings::parse_rating(b"0"), Some(0));
    assert_eq!(Ratings::parse_rating(b"2850"), Some(2850));
    assert_eq!(Ratings::parse_rating(b"18446744073709551615"), Some(u64::MAX));
}

#[test]
fn rating_strips_other_bytes() {
    assert_eq!(Ratings::parse_rating(b" 1,5a00 "), Some(1500));
    assert_eq!(Ratings::parse_rating(b"?1500"), Some(1500));
}

#[test]
fn rating_rejections() {
    assert_eq!(Ratings::parse_rating(b"1600?"), None);
    assert_eq!(Ratings::parse_rating(b"?"), None);
    assert_eq!(Ratings::parse_rating(b""), None);
    assert_eq!(Ratings::parse_rating(b"abc"), None);
    assert_eq!(Ratings::parse_rating(b"18446744073709551616"), None);
}

#[test]
fn white_unknown_black_marker() {
    let mut r = Ratings::default();
    let g = game(&[("TimeControl", "180+2"), ("WhiteElo", "1500"), ("BlackElo", "1600?")]);
    assert_eq!(r.read_game(&g), Ok(()));
    let blitz = 2;
    assert_eq!(r.white_rating, Some(1500));
    assert_eq!(r.black_rating, None);
    assert_eq!(r.total_count(blitz), 1);
    assert_eq!(r.export(blitz), vec![(1500, 1)]);
}

#[test]
fn casual_event_still_recorded() {
    let mut r = Ratings::default();
    let g = game(&[
        ("Event", "Casual Bullet game"),
        ("TimeControl", "60+0"),
        ("WhiteElo", "1700"),
        ("BlackElo", "1800"),
    ]);
    assert_eq!(r.read_game(&g), Ok(()));
    assert_eq!(r.casual, 1);
    assert!(!r.rated);
    assert_eq!(r.total_count(1), 2);
    assert_eq!(r.export(1), vec![(1700, 1), (1800, 1)]);
}

#[test]
fn rated_event_not_counted_casual() {
    let mut r = Ratings::default();
    r.header(b"Event", b"Rated Blitz game");
    assert!(r.rated);
    assert_eq!(r.casual, 0);
    r.header(b"Event", b"Titled SIMUL");
    assert!(!r.rated);
    assert_eq!(r.casual, 1);
}

#[test]
fn casual_words_any_case() {
    assert!(is_casual(b"casual"));
    assert!(is_casual(b"A CaSuAl game"));
    assert!(is_casual(b"simul"));
    assert!(!is_casual(b"Rated Rapid game"));
    assert!(!is_casual(b"casu al"));
    assert!(!is_casual(b""));
    assert!(contains_ignoring_case(b"xxABC", b"abc"));
    assert!(!contains_ignoring_case(b"ab", b"abc"));
    assert!(contains_ignoring_case(b"anything", b""));
}

#[test]
fn same_bytes_compares() {
    assert!(same_bytes(b"Event", b"Event"));
    assert!(!same_bytes(b"Event", b"event"));
    assert!(!same_bytes(b"Even", b"Event"));
}

#[test]
fn other_headers_ignored() {
    let mut r = Ratings::default();
    r.header(b"Site", b"180+0");
    r.header(b"WhiteTitle", b"1500");
    r.header(b"event", b"casual");
    assert_eq!(r.pool, None);
    assert_eq!(r.white_rating, None);
    assert_eq!(r.casual, 0);
    assert!(!r.rated);
}

#[test]
fn begin_headers_twice_resets() {
    let mut r = Ratings::default();
    r.header(b"TimeControl", b"180+0");
    r.header(b"WhiteElo", b"1500");
    r.header(b"BlackElo", b"1400");
    r.header(b"Event", b"casual");
    r.begin_headers();
    r.begin_headers();
    assert_eq!(r.pool, None);
    assert_eq!(r.white_rating, None);
    assert_eq!(r.black_rating, None);
    assert_eq!(r.casual, 1);
}

#[test]
fn skipped_counts_games_without_category() {
    let mut r = Ratings::default();
    let games = vec![
        game(&[("TimeControl", "180+0"), ("WhiteElo", "1500"), ("BlackElo", "1400")]),
        game(&[("TimeControl", "-"), ("WhiteElo", "1500")]),
        game(&[("WhiteElo", "2000")]),
        game(&[("TimeControl", "600+0"), ("WhiteElo", "2100")]),
        game(&[("TimeControl", "30000+0")]),
    ];
    assert_eq!(r.read_games(&games), Ok(()));
    assert_eq!(r.games_skipped, 3);
    assert_eq!(r.total_count(2), 2);
    assert_eq!(r.total_count(3), 1);
}

#[test]
fn last_time_control_header_wins() {
    let mut r = Ratings::default();
    let g = game(&[("TimeControl", "-"), ("TimeControl", "15+0"), ("WhiteElo", "1000")]);
    assert_eq!(r.read_game(&g), Ok(()));
    assert_eq!(r.games_skipped, 0);
    assert_eq!(r.export(0), vec![(1000, 1)]);
}

#[test]
fn export_is_frequency_table() {
    let mut r = Ratings::default();
    for v in [1500u64, 1500, 1200, 3500, 0, 1033, 1034, 2047] {
        assert_eq!(r.increment(3, v), Ok(()));
    }
    assert_eq!(
        r.export(3),
        vec![(0, 1), (1033, 1), (1034, 1), (1200, 1), (1500, 2), (2047, 1), (3500, 1)]
    );
    assert_eq!(r.total_count(3), 8);
    assert_eq!(r.export(2), vec![]);
}

#[test]
fn increment_above_maximum_refused() {
    let mut r = Ratings::default();
    assert_eq!(r.increment(0, MAX_RATING + 1), Err(RatingOutOfRange { rating: 3501 }));
    assert_eq!(r.total_count(0), 0);
    assert_eq!(r.increment(0, MAX_RATING), Ok(()));
    assert_eq!(r.total_count(0), 1);
}

#[test]
fn end_headers_refuses_rating_above_maximum() {
    let mut r = Ratings::default();
    let g = game(&[("TimeControl", "180+0"), ("WhiteElo", "1500"), ("BlackElo", "4000")]);
    assert_eq!(r.read_game(&g), Err(RatingOutOfRange { rating: 4000 }));
    assert_eq!(r.total_count(2), 0);
}

#[test]
fn game_without_category_records_nothing() {
    let mut r = Ratings::default();
    r.begin_headers();
    r.header(b"WhiteElo", b"1500");
    assert_eq!(r.end_headers(), Ok(()));
    assert_eq!(r.games_skipped, 1);
    for i in 0..5 {
        assert_eq!(r.total_count(i), 0);
    }
}

#[test]
fn summary_of_pools() {
    let mut r = Ratings::default();
    r.increment(2, 1000).unwrap();
    r.increment(2, 2000).unwrap();
    let s = r.summarize();
    assert_eq!(s.len(), 5);
    assert_eq!(s[2].name, "blitz");
    assert_eq!(s[2].total_count, 2);
    assert_eq!(s[2].mean, Some(1500));
    assert_eq!(s[2].stddev, Some(500));
    assert_eq!(s[0].name, "ultrabullet");
    assert_eq!(s[0].total_count, 0);
    assert_eq!(s[0].mean, None);
    assert_eq!(s[0].stddev, None);
}

#[test]
fn can_take_game_on_fresh_state() {
    let r = Ratings::default();
    assert!(r.can_take_game());
    let mut r = r;
    r.games_skipped = usize::MAX;
    assert!(!r.can_take_game());
}

#[test]
fn end_game_changes_nothing() {
    let mut r = Ratings::default();
    r.header(b"TimeControl", b"180+0");
    r.end_game();
    assert_eq!(r.pool, Some(2));
}

#[test]
fn read_games_fails_exactly_on_refused_game() {
    let mut r = Ratings::default();
    let games = vec![
        game(&[("TimeControl", "180+0"), ("WhiteElo", "1500")]),
        game(&[("TimeControl", "-"), ("WhiteElo", "9000")]),
    ];
    assert_eq!(r.read_games(&games), Ok(()));
    assert_eq!(r.games_skipped, 1);
    let mut r = Ratings::default();
    let games = vec![
        game(&[("TimeControl", "180+0"), ("WhiteElo", "1500")]),
        game(&[("TimeControl", "180+0"), ("BlackElo", "9000")]),
        game(&[("TimeControl", "180+0"), ("WhiteElo", "1600")]),
    ];
    assert_eq!(r.read_games(&games), Err(RatingOutOfRange { rating: 9000 }));
}

#[test]
fn run_export_counts_add_up() {
    let mut r = Ratings::default();
    let games = vec![
        game(&[("TimeControl", "300+0"), ("WhiteElo", "1500"), ("BlackElo", "1400")]),
        game(&[("Event", "Casual"), ("TimeControl", "300+3"), ("WhiteElo", "1500"), ("BlackElo", "?")]),
        game(&[("TimeControl", "60+0"), ("WhiteElo", "900"), ("BlackElo", "1100")]),
    ];
    assert_eq!(r.read_games(&games), Ok(()));
    let rows = r.export(2);
    assert_eq!(rows, vec![(1400, 1), (1500, 2)]);
    let sum: u64 = rows.iter().map(|(_, c)| c).sum();
    assert_eq!(sum, r.total_count(2));
    assert_eq!(r.export(1), vec![(900, 1), (1100, 1)]);
    assert_eq!(r.casual, 1);
}
