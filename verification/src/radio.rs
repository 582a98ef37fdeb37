//! Guild stream registry, stream cache and janitor sweep.
//!
//! One `ActiveStream` per guild, replaced atomically on station switch and
//! removed on stop; a cache of decoded stream inputs keyed by the original
//! station URL, trusted only within a five-minute freshness window and only
//! with a passed health check; and a sweep that evicts records older than
//! one hour. The concurrent maps are `dashmap::DashMap`s, taken on trust
//! through the wrappers below; every rule about their contents is verified
//! against the map models.

use vstd::prelude::*;

use crate::config::{Config, RadioStation, RadioStationView};

verus! {

/// How long a cache entry is trusted without re-validation, in seconds.
pub const FRESHNESS_WINDOW_SECS: u64 = 300;

/// After how long the janitor evicts records outright, in seconds.
pub const EVICTION_HORIZON_SECS: u64 = 3600;

/// The stream a guild is playing: the resolved station, who started it
/// where and when, and the opaque handle of the playback the voice
/// transport owns.
#[derive(Debug)]
pub struct ActiveStream {
    pub station_name: String,
    pub station: RadioStation,
    pub channel_id: u64,
    pub started_by: u64,
    pub started_at: u64,
    pub playback_handle: u64,
}

/// Abstract value of an active stream.
pub struct ActiveStreamView {
    pub station_name: Seq<char>,
    pub station: RadioStationView,
    pub channel_id: u64,
    pub started_by: u64,
    pub started_at: u64,
    pub playback_handle: u64,
}

impl View for ActiveStream {
    type V = ActiveStreamView;

    open spec fn view(&self) -> ActiveStreamView {
        ActiveStreamView {
            station_name: self.station_name@,
            station: self.station@,
            channel_id: self.channel_id,
            started_by: self.started_by,
            started_at: self.started_at,
            playback_handle: self.playback_handle,
        }
    }
}

impl Clone for ActiveStream {
    fn clone(&self) -> (r: Self)
        ensures
            r@ == self@,
    {
        ActiveStream {
            station_name: self.station_name.clone(),
            station: self.station.clone(),
            channel_id: self.channel_id,
            started_by: self.started_by,
            started_at: self.started_at,
            playback_handle: self.playback_handle,
        }
    }
}

/// A cached decoded stream input: the opaque input handle, when it was
/// cached, and whether the health check passed at that time.
#[derive(Clone, Copy, PartialEq, Eq, Debug)]
pub struct CachedStream {
    pub input: u64,
    pub cached_at: u64,
    pub health_check_passed: bool,
}

/// Declares `dashmap::DashMap`, the concurrent map behind the registry, the
/// cache and the message table. Its values stay opaque here; what each map
/// holds is named by the model functions below, and every method the logic
/// calls goes through a wrapper whose contract speaks over those models.
#[verifier::external_type_specification]
#[verifier::external_body]
#[verifier::reject_recursive_types(K)]
#[verifier::reject_recursive_types(V)]
#[verifier::reject_recursive_types(S)]
pub struct ExDashMap<K, V, S>(dashmap::DashMap<K, V, S>);

/// What the guild-to-stream map holds, as abstract values.
pub uninterp spec fn active_streams_model(m: dashmap::DashMap<u64, ActiveStream>) -> Map<
    u64,
    ActiveStreamView,
>;

/// What the URL-to-cached-input map holds, keyed by the URL's characters.
pub uninterp spec fn stream_cache_model(m: dashmap::DashMap<String, CachedStream>) -> Map<
    Seq<char>,
    CachedStream,
>;

/// What the guild-to-player-message map holds.
pub uninterp spec fn player_messages_model(m: dashmap::DashMap<u64, u64>) -> Map<u64, u64>;

/// A record the janitor keeps: started within the eviction horizon.
pub open spec fn active_kept(s: ActiveStreamView, now: u64) -> bool {
    s.started_at + EVICTION_HORIZON_SECS >= now
}

/// A cache entry the janitor keeps: cached within the eviction horizon.
pub open spec fn cache_kept(e: CachedStream, now: u64) -> bool {
    e.cached_at + EVICTION_HORIZON_SECS >= now
}

/// A cache entry young enough to be trusted on lookup.
pub open spec fn cache_fresh(e: CachedStream, now: u64) -> bool {
    now < e.cached_at + FRESHNESS_WINDOW_SECS
}

/// What a cache lookup at `now` serves: the stored input handle, but only
/// for an entry that exists, is fresh, and passed its health check.
pub open spec fn cache_hit(c: Map<Seq<char>, CachedStream>, url: Seq<char>, now: u64) -> Option<
    u64,
> {
    if c.dom().contains(url) && cache_fresh(c[url], now) && c[url].health_check_passed {
        Some(c[url].input)
    } else {
        None
    }
}

/// Whether the janitor keeps this stream at time `now`.
fn active_is_recent(s: &ActiveStream, now: u64) -> (r: bool)
    ensures
        r == active_kept(s@, now),
{
    (s.started_at as u128) + (EVICTION_HORIZON_SECS as u128) >= (now as u128)
}

/// Whether the janitor keeps this cache entry at time `now`.
fn cached_is_recent(e: &CachedStream, now: u64) -> (r: bool)
    ensures
        r == cache_kept(*e, now),
{
    (e.cached_at as u128) + (EVICTION_HORIZON_SECS as u128) >= (now as u128)
}

/// Relies on `DashMap::new`: a fresh map holds nothing.
#[verifier::external_body]
fn active_map_new() -> (m: dashmap::DashMap<u64, ActiveStream>)
    ensures
        forall|g: u64| !(#[trigger] active_streams_model(m).dom().contains(g)),
{
    dashmap::DashMap::new()
}

/// Relies on `DashMap::insert`: maps the key to the value and returns what
/// was under the key before, if anything.
#[verifier::external_body]
fn active_map_insert(m: &mut dashmap::DashMap<u64, ActiveStream>, k: u64, v: ActiveStream) -> (prev:
    Option<ActiveStream>)
    ensures
        active_streams_model(*final(m)) == active_streams_model(*old(m)).insert(k, v@),
        (prev is Some <==> active_streams_model(*old(m)).dom().contains(k)),
        prev matches Some(p) ==> p@ == active_streams_model(*old(m))[k],
{
    m.insert(k, v)
}

/// Relies on `DashMap::remove`: takes the entry out and hands it back.
#[verifier::external_body]
fn active_map_remove(m: &mut dashmap::DashMap<u64, ActiveStream>, k: u64) -> (prev: Option<
    ActiveStream,
>)
    ensures
        active_streams_model(*final(m)) == active_streams_model(*old(m)).remove(k),
        (prev is Some <==> active_streams_model(*old(m)).dom().contains(k)),
        prev matches Some(p) ==> p@ == active_streams_model(*old(m))[k],
{
    m.remove(&k).map(|kv| kv.1)
}

/// Relies on `DashMap::get`: a read-only snapshot of the entry, cloned out.
#[verifier::external_body]
fn active_map_get(m: &dashmap::DashMap<u64, ActiveStream>, k: u64) -> (r: Option<ActiveStream>)
    ensures
        (r is Some <==> active_streams_model(*m).dom().contains(k)),
        r matches Some(s) ==> s@ == active_streams_model(*m)[k],
{
    m.get(&k).map(|entry| entry.value().clone())
}

/// Relies on `DashMap::len`: the number of entries in the map.
#[verifier::external_body]
fn active_map_len(m: &dashmap::DashMap<u64, ActiveStream>) -> (r: usize)
    requires
        active_streams_model(*m).dom().finite(),
    ensures
        r == active_streams_model(*m).dom().len(),
{
    m.len()
}

/// Relies on `DashMap::retain`: keeps exactly the entries on which the
/// predicate returns true — here, the streams the janitor keeps at `now`.
#[verifier::external_body]
fn active_map_retain_recent(m: &mut dashmap::DashMap<u64, ActiveStream>, now: u64)
    ensures
        forall|g: u64|
            (#[trigger] active_streams_model(*final(m)).dom().contains(g)) <==> (
            active_streams_model(*old(m)).dom().contains(g) && active_kept(
                active_streams_model(*old(m))[g],
                now,
            )),
        forall|g: u64|
            (#[trigger] active_streams_model(*final(m)).dom().contains(g))
                ==> active_streams_model(*final(m))[g] == active_streams_model(*old(m))[g],
{
    m.retain(|_, s| active_is_recent(s, now));
}

/// Relies on `DashMap::new`: a fresh map holds nothing.
#[verifier::external_body]
fn cache_map_new() -> (m: dashmap::DashMap<String, CachedStream>)
    ensures
        forall|u: Seq<char>| !(#[trigger] stream_cache_model(m).dom().contains(u)),
{
    dashmap::DashMap::new()
}

/// Relies on `DashMap::insert`: maps the URL to the entry, replacing any
/// entry stored under the same characters.
#[verifier::external_body]
fn cache_map_insert(m: &mut dashmap::DashMap<String, CachedStream>, url: &str, e: CachedStream)
    ensures
        stream_cache_model(*final(m)) == stream_cache_model(*old(m)).insert(url@, e),
{
    m.insert(url.to_owned(), e);
}

/// Relies on `DashMap::get`: the entry stored under these characters, if any.
#[verifier::external_body]
fn cache_map_get(m: &dashmap::DashMap<String, CachedStream>, url: &str) -> (r: Option<CachedStream>)
    ensures
        (r is Some <==> stream_cache_model(*m).dom().contains(url@)),
        r matches Some(e) ==> e == stream_cache_model(*m)[url@],
{
    m.get(url).map(|entry| *entry.value())
}

/// Relies on `DashMap::retain`: keeps exactly the entries on which the
/// predicate returns true — here, the cache entries the janitor keeps at `now`.
#[verifier::external_body]
fn cache_map_retain_recent(m: &mut dashmap::DashMap<String, CachedStream>, now: u64)
    ensures
        forall|u: Seq<char>|
            (#[trigger] stream_cache_model(*final(m)).dom().contains(u)) <==> (stream_cache_model(
                *old(m),
            ).dom().contains(u) && cache_kept(stream_cache_model(*old(m))[u], now)),
        forall|u: Seq<char>|
            (#[trigger] stream_cache_model(*final(m)).dom().contains(u)) ==> stream_cache_model(
                *final(m),
            )[u] == stream_cache_model(*old(m))[u],
{
    m.retain(|_, e| cached_is_recent(e, now));
}

/// Relies on `DashMap::new`: a fresh map holds nothing.
#[verifier::external_body]
fn msg_map_new() -> (m: dashmap::DashMap<u64, u64>)
    ensures
        forall|g: u64| !(#[trigger] player_messages_model(m).dom().contains(g)),
{
    dashmap::DashMap::new()
}

/// Relies on `DashMap::insert`: maps the guild to the message id.
#[verifier::external_body]
fn msg_map_insert(m: &mut dashmap::DashMap<u64, u64>, k: u64, v: u64)
    ensures
        player_messages_model(*final(m)) == player_messages_model(*old(m)).insert(k, v),
{
    m.insert(k, v);
}

/// Relies on `DashMap::get`: the message id stored for the guild, if any.
#[verifier::external_body]
fn msg_map_get(m: &dashmap::DashMap<u64, u64>, k: u64) -> (r: Option<u64>)
    ensures
        (r is Some <==> player_messages_model(*m).dom().contains(k)),
        r matches Some(v) ==> v == player_messages_model(*m)[k],
{
    m.get(&k).map(|entry| *entry.value())
}

/// Relies on `DashMap::remove`: drops the guild's entry.
#[verifier::external_body]
fn msg_map_remove(m: &mut dashmap::DashMap<u64, u64>, k: u64)
    ensures
        player_messages_model(*final(m)) == player_messages_model(*old(m)).remove(k),
{
    m.remove(&k);
}

/// Relies on `std::time::SystemTime::now`: the current time as Unix
/// seconds. Nothing is promised of the value; a clock set before the epoch
/// reads as zero, and no outcome panics.
#[verifier::external_body]
fn now_unix_seconds() -> u64 {
    match std::time::SystemTime::now().duration_since(std::time::UNIX_EPOCH) {
        Ok(elapsed) => elapsed.as_secs(),
        Err(_) => 0,
    }
}

/// The registry: the catalog it serves, at most one active stream per guild,
/// the cache of decoded inputs, and the per-guild now-playing message ids.
pub struct RadioManager {
    config: Config,
    active_streams: dashmap::DashMap<u64, ActiveStream>,
    stream_cache: dashmap::DashMap<String, CachedStream>,
    player_messages: dashmap::DashMap<u64, u64>,
}

/// How a janitor sweep at time `now` relates the registry and cache before
/// and after: exactly the records within the eviction horizon survive,
/// unchanged.
pub open spec fn sweep_rel(
    a0: Map<u64, ActiveStreamView>,
    c0: Map<Seq<char>, CachedStream>,
    a1: Map<u64, ActiveStreamView>,
    c1: Map<Seq<char>, CachedStream>,
    now: u64,
) -> bool {
    &&& forall|g: u64|
        (#[trigger] a1.dom().contains(g)) <==> (a0.dom().contains(g) && active_kept(a0[g], now))
    &&& forall|g: u64| (#[trigger] a1.dom().contains(g)) ==> a1[g] == a0[g]
    &&& forall|u: Seq<char>|
        (#[trigger] c1.dom().contains(u)) <==> (c0.dom().contains(u) && cache_kept(c0[u], now))
    &&& forall|u: Seq<char>| (#[trigger] c1.dom().contains(u)) ==> c1[u] == c0[u]
}

impl RadioManager {
    /// The configuration the registry was built with.
    pub closed spec fn spec_config(&self) -> Config {
        self.config
    }

    /// The guild-to-stream map, as abstract values.
    pub closed spec fn active(&self) -> Map<u64, ActiveStreamView> {
        active_streams_model(self.active_streams)
    }

    /// The cache contents, keyed by the source URL's characters.
    pub closed spec fn cache(&self) -> Map<Seq<char>, CachedStream> {
        stream_cache_model(self.stream_cache)
    }

    /// The now-playing message ids per guild.
    pub closed spec fn messages(&self) -> Map<u64, u64> {
        player_messages_model(self.player_messages)
    }

    /// Well-formedness: every map holds finitely many entries.
    pub open spec fn wf(&self) -> bool {
        &&& self.active().dom().finite()
        &&& self.cache().dom().finite()
        &&& self.messages().dom().finite()
    }

    /// A fresh registry over the given configuration: nothing plays, the
    /// cache is empty, no messages are tracked.
    pub fn new(config: Config) -> (r: Self)
        ensures
            r.wf(),
            r.spec_config() == config,
            r.active() == Map::<u64, ActiveStreamView>::empty(),
            r.cache() == Map::<Seq<char>, CachedStream>::empty(),
            r.messages() == Map::<u64, u64>::empty(),
    {
        let r = RadioManager {
            config,
            active_streams: active_map_new(),
            stream_cache: cache_map_new(),
            player_messages: msg_map_new(),
        };
        proof {
            assert(r.active() =~= Map::<u64, ActiveStreamView>::empty());
            assert(r.cache() =~= Map::<Seq<char>, CachedStream>::empty());
            assert(r.messages() =~= Map::<u64, u64>::empty());
            assert(r.active().dom() =~= Set::<u64>::empty());
            assert(r.cache().dom() =~= Set::<Seq<char>>::empty());
            assert(r.messages().dom() =~= Set::<u64>::empty());
        }
        r
    }

    /// The configuration, for station lookup and listing.
    pub fn get_config(&self) -> (r: &Config)
        ensures
            *r == self.spec_config(),
    {
        &self.config
    }

    /// Starts (or replaces) the guild's stream: the guild unconditionally
    /// transitions to playing this station, with `started_at = now`, and any
    /// previous record comes back so the caller can halt its playback handle
    /// — switching stations is no error.
    pub fn start_station(
        &mut self,
        guild_id: u64,
        channel_id: u64,
        started_by: u64,
        station_name: String,
        station: RadioStation,
        playback_handle: u64,
        now: u64,
    ) -> (prev: Option<ActiveStream>)
        requires
            old(self).wf(),
        ensures
            final(self).wf(),
            final(self).active() == old(self).active().insert(
                guild_id,
                ActiveStreamView {
                    station_name: station_name@,
                    station: station@,
                    channel_id,
                    started_by,
                    started_at: now,
                    playback_handle,
                },
            ),
            (prev is Some <==> old(self).active().dom().contains(guild_id)),
            prev matches Some(p) ==> p@ == old(self).active()[guild_id],
            final(self).cache() == old(self).cache(),
            final(self).messages() == old(self).messages(),
            final(self).spec_config() == old(self).spec_config(),
    {
        let record = ActiveStream {
            station_name,
            station,
            channel_id,
            started_by,
            started_at: now,
            playback_handle,
        };
        active_map_insert(&mut self.active_streams, guild_id, record)
    }

    /// Stops the guild's stream, if one plays: removes the record and hands
    /// it back so the caller can halt playback and read the station key. An
    /// idle guild yields `None`, which is not an error, and nothing changes.
    pub fn stop_station(&mut self, guild_id: u64) -> (r: Option<ActiveStream>)
        requires
            old(self).wf(),
        ensures
            final(self).wf(),
            final(self).active() == old(self).active().remove(guild_id),
            (r is Some <==> old(self).active().dom().contains(guild_id)),
            r matches Some(p) ==> p@ == old(self).active()[guild_id],
            final(self).cache() == old(self).cache(),
            final(self).messages() == old(self).messages(),
            final(self).spec_config() == old(self).spec_config(),
    {
        active_map_remove(&mut self.active_streams, guild_id)
    }

    /// A read-only snapshot of what the guild is playing, if anything.
    pub fn get_current_station(&self, guild_id: u64) -> (r: Option<ActiveStream>)
        ensures
            (r is Some <==> self.active().dom().contains(guild_id)),
            r matches Some(s) ==> s@ == self.active()[guild_id],
    {
        active_map_get(&self.active_streams, guild_id)
    }

    /// How many guilds are playing.
    pub fn get_active_streams_count(&self) -> (r: usize)
        requires
            self.wf(),
        ensures
            r == self.active().dom().len(),
    {
        active_map_len(&self.active_streams)
    }

    /// The cached decoded input for this station URL, served only when the
    /// entry is younger than the freshness window and its health check
    /// passed; anything else is a miss.
    pub fn cached_stream_input(&self, url: &str, now: u64) -> (r: Option<u64>)
        ensures
            r == cache_hit(self.cache(), url@, now),
    {
        match cache_map_get(&self.stream_cache, url) {
            Some(e) => {
                if (now as u128) < (e.cached_at as u128) + (FRESHNESS_WINDOW_SECS as u128)
                    && e.health_check_passed {
                    Some(e.input)
                } else {
                    None
                }
            },
            None => None,
        }
    }

    /// Stores a freshly decoded input under the station's original URL,
    /// replacing any stale entry, with the health verdict just computed.
    pub fn store_stream_input(
        &mut self,
        url: &str,
        input: u64,
        health_check_passed: bool,
        now: u64,
    )
        requires
            old(self).wf(),
        ensures
            final(self).wf(),
            final(self).cache() == old(self).cache().insert(
                url@,
                CachedStream { input, cached_at: now, health_check_passed },
            ),
            final(self).active() == old(self).active(),
            final(self).messages() == old(self).messages(),
            final(self).spec_config() == old(self).spec_config(),
    {
        let e = CachedStream { input, cached_at: now, health_check_passed };
        cache_map_insert(&mut self.stream_cache, url, e);
    }

    /// Remembers the guild's now-playing message, overwriting any previous one.
    pub fn set_player_message(&mut self, guild_id: u64, message_id: u64)
        requires
            old(self).wf(),
        ensures
            final(self).wf(),
            final(self).messages() == old(self).messages().insert(guild_id, message_id),
            final(self).active() == old(self).active(),
            final(self).cache() == old(self).cache(),
            final(self).spec_config() == old(self).spec_config(),
    {
        msg_map_insert(&mut self.player_messages, guild_id, message_id);
    }

    /// The guild's now-playing message, if one was remembered.
    pub fn get_player_message(&self, guild_id: u64) -> (r: Option<u64>)
        ensures
            (r is Some <==> self.messages().dom().contains(guild_id)),
            r matches Some(mid) ==> mid == self.messages()[guild_id],
    {
        msg_map_get(&self.player_messages, guild_id)
    }

    /// Forgets the guild's now-playing message.
    pub fn clear_player_message(&mut self, guild_id: u64)
        requires
            old(self).wf(),
        ensures
            final(self).wf(),
            final(self).messages() == old(self).messages().remove(guild_id),
            final(self).active() == old(self).active(),
            final(self).cache() == old(self).cache(),
            final(self).spec_config() == old(self).spec_config(),
    {
        msg_map_remove(&mut self.player_messages, guild_id);
    }

    /// The janitor sweep at time `now`: evicts every active stream and every
    /// cache entry older than the eviction horizon, and keeps the rest
    /// untouched. Idempotent, callable on any schedule.
    pub fn sweep(&mut self, now: u64)
        requires
            old(self).wf(),
        ensures
            final(self).wf(),
            sweep_rel(
                old(self).active(),
                old(self).cache(),
                final(self).active(),
                final(self).cache(),
                now,
            ),
            final(self).messages() == old(self).messages(),
            final(self).spec_config() == old(self).spec_config(),
    {
        let ghost a0 = self.active();
        let ghost c0 = self.cache();
        active_map_retain_recent(&mut self.active_streams, now);
        cache_map_retain_recent(&mut self.stream_cache, now);
        proof {
            let af = |g: u64| a0.dom().contains(g) && active_kept(a0[g], now);
            assert(self.active().dom() =~= a0.dom().filter(af));
            a0.dom().lemma_len_filter(af);
            let cf = |u: Seq<char>| c0.dom().contains(u) && cache_kept(c0[u], now);
            assert(self.cache().dom() =~= c0.dom().filter(cf));
            c0.dom().lemma_len_filter(cf);
        }
    }

    /// The sweep against the process clock, as the scheduled cleanup runs it.
    pub fn cleanup_inactive_streams(&mut self)
        requires
            old(self).wf(),
        ensures
            final(self).wf(),
            exists|now: u64|
                #[trigger] sweep_rel(
                    old(self).active(),
                    old(self).cache(),
                    final(self).active(),
                    final(self).cache(),
                    now,
                ),
            final(self).messages() == old(self).messages(),
            final(self).spec_config() == old(self).spec_config(),
    {
        let now = now_unix_seconds();
        self.sweep(now);
    }
}

/// A healthy entry stored once is served for the whole freshness window —
/// the resolution and health work happen exactly once — and is refused as
/// soon as it ages out, which forces re-resolution.
pub proof fn lemma_cache_window(
    c: Map<Seq<char>, CachedStream>,
    url: Seq<char>,
    e: CachedStream,
    t1: u64,
    t2: u64,
)
    requires
        e.health_check_passed,
        t1 < e.cached_at + FRESHNESS_WINDOW_SECS,
        t2 >= e.cached_at + FRESHNESS_WINDOW_SECS,
    ensures
        cache_hit(c.insert(url, e), url, t1) == Some(e.input),
        cache_hit(c.insert(url, e), url, t2) is None,
{
}

/// Starting X then Y for one guild leaves Y playing, and the second start
/// hands back X's record — whose playback handle the caller halts, exactly
/// once.
pub proof fn lemma_start_replaces(
    a: Map<u64, ActiveStreamView>,
    g: u64,
    x: ActiveStreamView,
    y: ActiveStreamView,
)
    ensures
        a.insert(g, x).insert(g, y).dom().contains(g),
        a.insert(g, x).insert(g, y)[g] == y,
        a.insert(g, x).dom().contains(g),
        a.insert(g, x)[g] == x,
{
}

/// Stopping a playing guild shrinks the active count by exactly one.
pub proof fn lemma_stop_decrements_count(a: Map<u64, ActiveStreamView>, g: u64)
    requires
        a.dom().finite(),
        a.dom().contains(g),
    ensures
        a.remove(g).dom().len() == a.dom().len() - 1,
{
}

/// Stopping an idle guild changes nothing: the registry `stop_station`
/// leaves behind is the one it found, and it returns nothing without error.
pub proof fn lemma_stop_idle(a: Map<u64, ActiveStreamView>, g: u64)
    requires
        !a.dom().contains(g),
    ensures
        a.remove(g) == a,
{
    assert(a.remove(g) =~= a);
}

/// The janitor's horizon: a stream started two hours before the sweep is
/// evicted; one started half an hour before it is kept.
pub proof fn lemma_sweep_horizon(older: ActiveStreamView, newer: ActiveStreamView, now: u64)
    requires
        older.started_at + 7200 == now,
        newer.started_at + 1800 == now,
    ensures
        !active_kept(older, now),
        active_kept(newer, now),
{
}

} // verus!
