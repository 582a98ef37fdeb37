use alastor::config::{BotConfig, Config, RadioStation};
use alastor::health::health_verdict;
use alastor::radio::RadioManager;

fn station(url: &str) -> RadioStation {
    RadioStation {
        url: url.to_string(),
        aliases: Vec::new(),
        bitrate: Some(128),
        format: Some("mp3".to_string()),
        description: None,
    }
}

fn manager() -> RadioManager {
    RadioManager::new(Config {
        discord_token: String::new(),
        bot: BotConfig { prefix: "!".to_string(), description: String::new() },
        radios: vec![("JazzFM".to_string(), station("http://jazz.example/stream"))],
    })
}

#[test]
fn start_records_the_stream() {
    let mut mgr = manager();
    let prev = mgr.start_station(7, 42, 99, "JazzFM".to_string(), station("http://jazz.example/stream"), 1, 1000);
    assert!(prev.is_none());
    let cur = mgr.get_current_station(7).expect("stream expected");
    assert_eq!(cur.station_name, "JazzFM");
    assert_eq!(cur.channel_id, 42);
    assert_eq!(cur.started_by, 99);
    assert_eq!(cur.started_at, 1000);
    assert_eq!(cur.playback_handle, 1);
    assert_eq!(mgr.get_active_streams_count(), 1);
}

#[test]
fn second_start_replaces_and_hands_back_the_first() {
    let mut mgr = manager();
    let prev = mgr.start_station(7, 42, 99, "X".to_string(), station("http://x.example"), 1, 1000);
    assert!(prev.is_none());
    let prev = mgr.start_station(7, 42, 99, "Y".to_string(), station("http://y.example"), 2, 1010);
    // The replaced record comes back exactly once, so its handle is stopped
    // exactly once.
    let replaced = prev.expect("the first record must come back");
    assert_eq!(replaced.station_name, "X");
    assert_eq!(replaced.playback_handle, 1);
    let cur = mgr.get_current_station(7).expect("stream expected");
    assert_eq!(cur.station_name, "Y");
    assert_eq!(cur.playback_handle, 2);
    assert_eq!(mgr.get_active_streams_count(), 1);
}

#[test]
fn streams_are_tracked_per_guild() {
    let mut mgr = manager();
    mgr.start_station(1, 10, 99, "A".to_string(), station("http://a.example"), 1, 1000);
    mgr.start_station(2, 20, 99, "B".to_string(), station("http://b.example"), 2, 1000);
    mgr.start_station(3, 30, 99, "C".to_string(), station("http://c.example"), 3, 1000);
    assert_eq!(mgr.get_active_streams_count(), 3);
    assert_eq!(mgr.get_current_station(2).unwrap().station_name, "B");
    mgr.stop_station(2);
    assert_eq!(mgr.get_active_streams_count(), 2);
    assert!(mgr.get_current_station(2).is_none());
    assert_eq!(mgr.get_current_station(1).unwrap().station_name, "A");
    assert_eq!(mgr.get_current_station(3).unwrap().station_name, "C");
}

#[test]
fn stop_on_idle_guild_returns_nothing_without_error() {
    let mut mgr = manager();
    assert!(mgr.stop_station(7).is_none());
    assert_eq!(mgr.get_active_streams_count(), 0);
}

#[test]
fn stop_hands_back_the_record_and_clears_the_guild() {
    let mut mgr = manager();
    mgr.start_station(7, 42, 99, "JazzFM".to_string(), station("http://jazz.example/stream"), 5, 1000);
    let stopped = mgr.stop_station(7).expect("record expected");
    assert_eq!(stopped.station_name, "JazzFM");
    assert_eq!(stopped.playback_handle, 5);
    assert!(mgr.get_current_station(7).is_none());
    assert_eq!(mgr.get_active_streams_count(), 0);
}

#[test]
fn player_messages_are_set_read_and_cleared() {
    let mut mgr = manager();
    assert!(mgr.get_player_message(7).is_none());
    mgr.set_player_message(7, 555);
    assert_eq!(mgr.get_player_message(7), Some(555));
    mgr.set_player_message(7, 556);
    assert_eq!(mgr.get_player_message(7), Some(556));
    mgr.clear_player_message(7);
    assert!(mgr.get_player_message(7).is_none());
}

#[test]
fn fresh_healthy_cache_entry_is_served_once_stored() {
    let mut mgr = manager();
    let url = "http://jazz.example/list.m3u";
    assert!(mgr.cached_stream_input(url, 1000).is_none());
    mgr.store_stream_input(url, 7, true, 1000);
    // Within the five-minute window the stored handle is served: the
    // resolution and health work are not repeated.
    assert_eq!(mgr.cached_stream_input(url, 1000), Some(7));
    assert_eq!(mgr.cached_stream_input(url, 1299), Some(7));
    // Once the entry ages past the window, the lookup misses: re-resolution.
    assert!(mgr.cached_stream_input(url, 1300).is_none());
    assert!(mgr.cached_stream_input(url, 5000).is_none());
}

#[test]
fn unhealthy_cache_entry_is_never_served() {
    let mut mgr = manager();
    let url = "http://jazz.example/stream";
    mgr.store_stream_input(url, 7, false, 1000);
    assert!(mgr.cached_stream_input(url, 1001).is_none());
}

#[test]
fn storing_again_replaces_the_entry() {
    let mut mgr = manager();
    let url = "http://jazz.example/stream";
    mgr.store_stream_input(url, 7, true, 1000);
    mgr.store_stream_input(url, 8, true, 2000);
    assert_eq!(mgr.cached_stream_input(url, 2001), Some(8));
}

#[test]
fn cache_entries_are_keyed_by_url() {
    let mut mgr = manager();
    mgr.store_stream_input("http://a.example/list.m3u", 1, true, 1000);
    mgr.store_stream_input("http://b.example/list.m3u", 2, true, 1000);
    assert_eq!(mgr.cached_stream_input("http://a.example/list.m3u", 1001), Some(1));
    assert_eq!(mgr.cached_stream_input("http://b.example/list.m3u", 1001), Some(2));
}

#[test]
fn sweep_evicts_old_records_and_keeps_recent_ones() {
    let mut mgr = manager();
    let now: u64 = 100_000;
    mgr.start_station(1, 10, 99, "Old".to_string(), station("http://old.example"), 1, now - 7200);
    mgr.start_station(2, 20, 99, "New".to_string(), station("http://new.example"), 2, now - 1800);
    mgr.store_stream_input("http://old.example", 1, true, now - 7200);
    mgr.store_stream_input("http://new.example", 2, true, now - 120);
    mgr.sweep(now);
    assert!(mgr.get_current_station(1).is_none());
    assert_eq!(mgr.get_current_station(2).unwrap().station_name, "New");
    assert_eq!(mgr.get_active_streams_count(), 1);
    assert!(mgr.cached_stream_input("http://old.example", now).is_none());
    assert_eq!(mgr.cached_stream_input("http://new.example", now), Some(2));
}

#[test]
fn sweep_keeps_a_record_exactly_at_the_horizon() {
    let mut mgr = manager();
    let now: u64 = 100_000;
    mgr.start_station(1, 10, 99, "Edge".to_string(), station("http://edge.example"), 1, now - 3600);
    mgr.sweep(now);
    assert_eq!(mgr.get_active_streams_count(), 1);
}

#[test]
fn sweep_is_idempotent() {
    let mut mgr = manager();
    let now: u64 = 100_000;
    mgr.start_station(1, 10, 99, "A".to_string(), station("http://a.example"), 1, now - 7200);
    mgr.start_station(2, 20, 99, "B".to_string(), station("http://b.example"), 2, now);
    mgr.sweep(now);
    mgr.sweep(now);
    assert_eq!(mgr.get_active_streams_count(), 1);
    assert_eq!(mgr.get_current_station(2).unwrap().station_name, "B");
}

#[test]
fn scheduled_cleanup_uses_the_process_clock() {
    let mut mgr = manager();
    let now = u64::try_from(chrono::Utc::now().timestamp()).unwrap_or(0);
    mgr.start_station(1, 10, 99, "Ancient".to_string(), station("http://a.example"), 1, 0);
    mgr.start_station(2, 20, 99, "Current".to_string(), station("http://b.example"), 2, now);
    mgr.cleanup_inactive_streams();
    assert!(mgr.get_current_station(1).is_none());
    assert_eq!(mgr.get_current_station(2).unwrap().station_name, "Current");
}

#[test]
fn config_is_kept_and_served() {
    let mgr = manager();
    let cfg = mgr.get_config();
    assert_eq!(cfg.radios.len(), 1);
    assert_eq!(cfg.radios[0].0, "JazzFM");
    let names = cfg.get_station_names();
    assert_eq!(names, vec!["JazzFM"]);
}

#[test]
fn health_verdict_follows_the_status_class() {
    assert!(health_verdict(Some(200)));
    assert!(health_verdict(Some(204)));
    assert!(health_verdict(Some(299)));
    assert!(!health_verdict(Some(199)));
    assert!(!health_verdict(Some(300)));
    assert!(!health_verdict(Some(404)));
    assert!(!health_verdict(Some(503)));
    assert!(!health_verdict(None));
}
