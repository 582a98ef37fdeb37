use alastor::config::{BotConfig, Config, RadioStation};
use alastor::error::AlastorError;

fn station(url: &str, aliases: &[&str]) -> RadioStation {
    RadioStation {
        url: url.to_string(),
        aliases: aliases.iter().map(|s| s.to_string()).collect(),
        bitrate: None,
        format: None,
        description: None,
    }
}

fn catalog(entries: Vec<(&str, RadioStation)>) -> Config {
    Config {
        discord_token: String::new(),
        bot: BotConfig { prefix: "!".to_string(), description: String::new() },
        radios: entries.into_iter().map(|(k, s)| (k.to_string(), s)).collect(),
    }
}

#[test]
fn exact_key_match_is_case_insensitive() {
    let cfg = catalog(vec![
        ("JazzFM", station("http://jazz.example/stream", &[])),
        ("RockRadio", station("http://rock.example/stream", &[])),
    ]);
    let (key, st) = cfg.find_station("JAZZFM").expect("exact match expected");
    assert_eq!(key, "JazzFM");
    assert_eq!(st.url, "http://jazz.example/stream");
}

#[test]
fn exact_match_beats_fuzzy_on_similar_keys() {
    // "JazzFM" is a very close fuzzy match to "JazzFN", but an exact key
    // match must win outright.
    let cfg = catalog(vec![
        ("JazzFN", station("http://other.example/stream", &[])),
        ("JazzFM", station("http://jazz.example/stream", &[])),
    ]);
    let (key, _) = cfg.find_station("jazzfm").expect("exact match expected");
    assert_eq!(key, "JazzFM");
}

#[test]
fn alias_match_beats_fuzzy_match_to_other_key() {
    // "ROCK" equals (case-insensitively) an alias of JazzFM, and is also a
    // close fuzzy match to the key "Rocks"; the alias must win.
    let cfg = catalog(vec![
        ("Rocks", station("http://rocks.example/stream", &[])),
        ("JazzFM", station("http://jazz.example/stream", &["rock"])),
    ]);
    let (key, _) = cfg.find_station("ROCK").expect("alias match expected");
    assert_eq!(key, "JazzFM");
}

#[test]
fn fuzzy_match_fires_above_threshold() {
    let cfg = catalog(vec![
        ("JazzFM", station("http://jazz.example/stream", &[])),
        ("RockRadio", station("http://rock.example/stream", &[])),
    ]);
    // lev("jazfm", "jazzfm") = 1 over max length 6: similarity 5/6 > 0.7.
    let (key, _) = cfg.find_station("JazFM").expect("fuzzy match expected");
    assert_eq!(key, "JazzFM");
}

#[test]
fn fuzzy_match_never_fires_at_or_below_threshold() {
    let cfg = catalog(vec![
        ("JazzFM", station("http://jazz.example/stream", &[])),
        ("RockRadio", station("http://rock.example/stream", &[])),
    ]);
    assert!(cfg.find_station("xyz123").is_none());
}

#[test]
fn unresolved_query_reports_station_not_found() {
    let cfg = catalog(vec![("JazzFM", station("http://jazz.example/stream", &[]))]);
    let err = cfg.resolve_station("xyz123").unwrap_err();
    assert!(matches!(err, AlastorError::StationNotFound { name } if name == "xyz123"));
}

#[test]
fn empty_search_lists_catalog_order_up_to_25() {
    let mut entries = Vec::new();
    let names: Vec<String> = (0..30).map(|i| format!("Station{:02}", i)).collect();
    for name in &names {
        entries.push((name.as_str(), station("http://s.example/stream", &[])));
    }
    let cfg = catalog(entries);
    let found = cfg.search_stations("");
    assert_eq!(found.len(), 25);
    for (i, (key, _)) in found.iter().enumerate() {
        assert_eq!(key, &names[i]);
    }
}

#[test]
fn prefix_match_ranks_above_fuzzy() {
    let cfg = catalog(vec![
        ("RockRadio", station("http://rock.example/stream", &[])),
        ("JazzFM", station("http://jazz.example/stream", &[])),
    ]);
    let found = cfg.search_stations("roc");
    assert_eq!(found.len(), 1);
    assert_eq!(found[0].0, "RockRadio");
}

#[test]
fn search_orders_by_layered_scores() {
    // With query "rock": exact key (1.0) > exact alias (0.95) > key prefix
    // (0.9) > alias prefix (0.85) > key substring (0.8) > alias substring (0.75).
    let cfg = catalog(vec![
        ("HardRockFM", station("http://f.example", &[])),       // key substring, 0.8
        ("Classical", station("http://e.example", &["Rockabilly FM"])), // alias prefix, 0.85
        ("Rockland", station("http://d.example", &[])),         // key prefix, 0.9
        ("Jazz24", station("http://c.example", &["rock"])),     // exact alias, 0.95
        ("Rock", station("http://b.example", &[])),             // exact key, 1.0
        ("Oldies", station("http://a.example", &["the hard rock hour"])), // alias substring, 0.75
    ]);
    let found = cfg.search_stations("rock");
    let keys: Vec<&str> = found.iter().map(|(k, _)| k.as_str()).collect();
    assert_eq!(keys, vec!["Rock", "Jazz24", "Rockland", "Classical", "HardRockFM", "Oldies"]);
}

#[test]
fn search_ties_keep_catalog_order() {
    let cfg = catalog(vec![
        ("RockOne", station("http://1.example", &[])),
        ("RockTwo", station("http://2.example", &[])),
        ("RockTen", station("http://3.example", &[])),
    ]);
    let found = cfg.search_stations("rock");
    let keys: Vec<&str> = found.iter().map(|(k, _)| k.as_str()).collect();
    // All three are key-prefix matches with score 0.9: catalog order holds.
    assert_eq!(keys, vec!["RockOne", "RockTwo", "RockTen"]);
}

#[test]
fn search_truncates_to_25_matches() {
    let mut entries = Vec::new();
    let names: Vec<String> = (0..30).map(|i| format!("Rock{:02}", i)).collect();
    for name in &names {
        entries.push((name.as_str(), station("http://s.example/stream", &[])));
    }
    let cfg = catalog(entries);
    let found = cfg.search_stations("rock");
    assert_eq!(found.len(), 25);
    for (i, (key, _)) in found.iter().enumerate() {
        assert_eq!(key, &names[i]);
    }
}

#[test]
fn search_fuzzy_scores_below_every_layered_score() {
    // "JazzFN" only fuzzy-matches the query (similarity 5/6 > 0.6), while
    // "the jazz hour" holds it as an alias substring (0.75): the layered
    // match must rank first.
    let cfg = catalog(vec![
        ("JazzFN", station("http://n.example", &[])),
        ("Evening", station("http://h.example", &["the jazzfm hour"])),
    ]);
    let found = cfg.search_stations("jazzfm");
    let keys: Vec<&str> = found.iter().map(|(k, _)| k.as_str()).collect();
    assert_eq!(keys, vec!["Evening", "JazzFN"]);
}

#[test]
fn station_names_come_back_in_catalog_order() {
    let cfg = catalog(vec![
        ("JazzFM", station("http://jazz.example/stream", &[])),
        ("RockRadio", station("http://rock.example/stream", &[])),
        ("Ambient", station("http://ambient.example/stream", &[])),
    ]);
    assert_eq!(cfg.get_station_names(), vec!["JazzFM", "RockRadio", "Ambient"]);
}

#[test]
fn defaults_are_the_documented_strings() {
    assert_eq!(alastor::config::default_prefix(), "!");
    assert_eq!(
        alastor::config::default_description(),
        "Alastor - The Radio Daemon: High-performance Discord radio bot inspired by Hazbin Hotel"
    );
}

#[test]
fn next_station_cycles_through_the_catalog() {
    let cfg = catalog(vec![
        ("Alpha", station("http://a.example", &[])),
        ("Beta", station("http://b.example", &[])),
        ("Gamma", station("http://c.example", &[])),
    ]);
    assert_eq!(cfg.next_station_name("alpha"), Some("Beta".to_string()));
    assert_eq!(cfg.next_station_name("BETA"), Some("Gamma".to_string()));
    assert_eq!(cfg.next_station_name("Gamma"), Some("Alpha".to_string()));
}

#[test]
fn next_station_with_no_match_follows_the_catalog_start() {
    let cfg = catalog(vec![
        ("Alpha", station("http://a.example", &[])),
        ("Beta", station("http://b.example", &[])),
    ]);
    assert_eq!(cfg.next_station_name("unknown"), Some("Beta".to_string()));
}

#[test]
fn next_station_on_a_singleton_catalog_stays_put() {
    let cfg = catalog(vec![("Alpha", station("http://a.example", &[]))]);
    assert_eq!(cfg.next_station_name("Alpha"), Some("Alpha".to_string()));
}

#[test]
fn next_station_on_an_empty_catalog_is_none() {
    let cfg = catalog(vec![]);
    assert_eq!(cfg.next_station_name("anything"), None);
}

#[test]
fn empty_query_resolves_to_nothing() {
    let cfg = catalog(vec![
        ("JazzFM", station("http://jazz.example/stream", &[])),
        ("RockRadio", station("http://rock.example/stream", &[])),
    ]);
    assert!(cfg.find_station("").is_none());
}

#[test]
fn search_with_no_match_is_empty() {
    let cfg = catalog(vec![
        ("JazzFM", station("http://jazz.example/stream", &[])),
        ("RockRadio", station("http://rock.example/stream", &[])),
    ]);
    assert!(cfg.search_stations("qqqqqqqq").is_empty());
}
