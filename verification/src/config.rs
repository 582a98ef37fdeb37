//! Station catalog: configuration data and its matching rules.
//!
//! A catalog is an ordered list of named stations. `find_station` resolves
//! free text to a station by exact key match, then alias match, then a fuzzy
//! scan over keys and aliases; `search_stations` ranks every station against
//! a query with a layered scoring scheme. All comparisons are
//! case-insensitive through `lower_of`, and fuzzy similarity
//! `1 - d/max(|q|, |c|)` is compared exactly with integer arithmetic.

use vstd::prelude::*;

use crate::distance::{edit_dist, max_nat};
use crate::error::AlastorError;
use crate::text::{contains_seq, is_prefix, lower_of, lowercase, str_contains, str_starts_with};

verus! {

/// One configured internet-radio station (its key lives beside it in `Config::radios`).
#[derive(Debug)]
pub struct RadioStation {
    pub url: String,
    pub aliases: Vec<String>,
    pub bitrate: Option<u32>,
    pub format: Option<String>,
    pub description: Option<String>,
}

/// Abstract value of a station: every text field as a character sequence.
pub struct RadioStationView {
    pub url: Seq<char>,
    pub aliases: Seq<Seq<char>>,
    pub bitrate: Option<u32>,
    pub format: Option<Seq<char>>,
    pub description: Option<Seq<char>>,
}

impl View for RadioStation {
    type V = RadioStationView;

    open spec fn view(&self) -> RadioStationView {
        RadioStationView {
            url: self.url@,
            aliases: self.aliases.deep_view(),
            bitrate: self.bitrate,
            format: match self.format {
                Some(s) => Some(s@),
                None => None,
            },
            description: match self.description {
                Some(s) => Some(s@),
                None => None,
            },
        }
    }
}

impl Clone for RadioStation {
    fn clone(&self) -> (r: Self)
        ensures
            r@ == self@,
    {
        let r = RadioStation {
            url: self.url.clone(),
            aliases: self.aliases.clone(),
            bitrate: self.bitrate,
            format: match &self.format {
                Some(s) => Some(s.clone()),
                None => None,
            },
            description: match &self.description {
                Some(s) => Some(s.clone()),
                None => None,
            },
        };
        proof {
            assert(r.aliases.deep_view() =~= self.aliases.deep_view());
            assert(r@ =~= self@);
        }
        r
    }
}

/// General bot options.
#[derive(Debug)]
pub struct BotConfig {
    pub prefix: String,
    pub description: String,
}

impl Clone for BotConfig {
    fn clone(&self) -> (r: Self)
        ensures
            r.prefix@ == self.prefix@,
            r.description@ == self.description@,
    {
        BotConfig { prefix: self.prefix.clone(), description: self.description.clone() }
    }
}

/// Full configuration: token, bot options and the station catalog,
/// an ordered list of `(key, station)` pairs.
#[derive(Debug)]
pub struct Config {
    pub discord_token: String,
    pub bot: BotConfig,
    pub radios: Vec<(String, RadioStation)>,
}

/// The fallback command prefix.
pub fn default_prefix() -> (r: String)
    ensures
        r@ == "!"@,
{
    "!".to_owned()
}

/// The fallback bot description.
pub fn default_description() -> (r: String)
    ensures
        r@ == "Alastor - The Radio Daemon: High-performance Discord radio bot inspired by Hazbin Hotel"@,
{
    "Alastor - The Radio Daemon: High-performance Discord radio bot inspired by Hazbin Hotel".to_owned()
}

/// Abstract value of a catalog: the ordered `(key, station)` pairs.
pub type CatalogV = Seq<(Seq<char>, RadioStationView)>;

/// First index at or after `i` whose key lowercases to `lq`.
pub open spec fn key_match_from(cat: CatalogV, lq: Seq<char>, i: int) -> Option<int>
    decreases cat.len() - i,
{
    if i < 0 || i >= cat.len() {
        None
    } else if lower_of(cat[i].0) == lq {
        Some(i)
    } else {
        key_match_from(cat, lq, i + 1)
    }
}

/// Some alias of the station lowercases to `lq`.
pub open spec fn station_has_alias(st: RadioStationView, lq: Seq<char>) -> bool {
    exists|j: int| 0 <= j < st.aliases.len() && lower_of(#[trigger] st.aliases[j]) == lq
}

/// First index at or after `i` with an alias that lowercases to `lq`.
pub open spec fn alias_match_from(cat: CatalogV, lq: Seq<char>, i: int) -> Option<int>
    decreases cat.len() - i,
{
    if i < 0 || i >= cat.len() {
        None
    } else if station_has_alias(cat[i].1, lq) {
        Some(i)
    } else {
        alias_match_from(cat, lq, i + 1)
    }
}

/// Similarity `1 - d/m` strictly exceeds `0.7`, compared exactly:
/// `1 - d/m > 7/10` iff `10*d < 3*m` (never true for `m == 0`).
pub open spec fn sim_exceeds_threshold(d: nat, m: nat) -> bool {
    10 * d < 3 * m
}

/// Similarity `1 - d/m` strictly exceeds `1 - bd/bm`, compared exactly by
/// cross-multiplication (never true for `m == 0`).
pub open spec fn sim_improves(d: nat, m: nat, bd: nat, bm: nat) -> bool {
    d * bm < bd * m
}

/// The best fuzzy candidate seen so far: its catalog index, edit distance
/// and length divisor.
pub struct FuzzyBest {
    pub idx: int,
    pub d: nat,
    pub m: nat,
}

/// Edit distance of the lowered query to the lowered candidate.
pub open spec fn cand_d(lq: Seq<char>, c: Seq<char>) -> nat {
    edit_dist(lq, lower_of(c))
}

/// The divisor of the similarity: the larger of the two lengths.
pub open spec fn cand_m(lq: Seq<char>, c: Seq<char>) -> nat {
    max_nat(lq.len(), lower_of(c).len())
}

/// One step of the fuzzy scan: a candidate replaces the best seen so far
/// only when its similarity strictly exceeds the threshold (no best yet)
/// or the best similarity so far, so earlier candidates win ties.
pub open spec fn fuzzy_step(best: Option<FuzzyBest>, i: int, d: nat, m: nat) -> Option<
    FuzzyBest,
> {
    match best {
        None => if sim_exceeds_threshold(d, m) {
            Some(FuzzyBest { idx: i, d, m })
        } else {
            None
        },
        Some(b) => if sim_improves(d, m, b.d, b.m) {
            Some(FuzzyBest { idx: i, d, m })
        } else {
            best
        },
    }
}

/// Fold `fuzzy_step` over the aliases of station `i`, from alias `j` on.
pub open spec fn fuzzy_alias_scan(
    st: RadioStationView,
    lq: Seq<char>,
    i: int,
    j: int,
    best: Option<FuzzyBest>,
) -> Option<FuzzyBest>
    decreases st.aliases.len() - j,
{
    if j < 0 || j >= st.aliases.len() {
        best
    } else {
        fuzzy_alias_scan(
            st,
            lq,
            i,
            j + 1,
            fuzzy_step(best, i, cand_d(lq, st.aliases[j]), cand_m(lq, st.aliases[j])),
        )
    }
}

/// Fold the fuzzy scan over the catalog from index `i` on: for each station,
/// its key first, then its aliases in order.
pub open spec fn fuzzy_scan(cat: CatalogV, lq: Seq<char>, i: int, best: Option<FuzzyBest>) -> Option<
    FuzzyBest,
>
    decreases cat.len() - i,
{
    if i < 0 || i >= cat.len() {
        best
    } else {
        let with_key = fuzzy_step(best, i, cand_d(lq, cat[i].0), cand_m(lq, cat[i].0));
        let with_aliases = fuzzy_alias_scan(cat[i].1, lq, i, 0, with_key);
        fuzzy_scan(cat, lq, i + 1, with_aliases)
    }
}

/// Which station the lowered query `lq` resolves to: the first exact key
/// match, else the first alias match, else the best fuzzy candidate whose
/// similarity strictly exceeds `0.7`.
pub open spec fn resolve_spec(cat: CatalogV, lq: Seq<char>) -> Option<int> {
    match key_match_from(cat, lq, 0) {
        Some(i) => Some(i),
        None => match alias_match_from(cat, lq, 0) {
            Some(i) => Some(i),
            None => match fuzzy_scan(cat, lq, 0, None) {
                Some(b) => Some(b.idx),
                None => None,
            },
        },
    }
}

/// Abstract value of an exec fuzzy-scan accumulator.
spec fn best_view(b: Option<(usize, usize, usize)>) -> Option<FuzzyBest> {
    match b {
        None => None,
        Some((i, d, m)) => Some(FuzzyBest { idx: i as int, d: d as nat, m: m as nat }),
    }
}

/// Folds one candidate string into the exec fuzzy accumulator.
fn fuzzy_consider(
    best: Option<(usize, usize, usize)>,
    i: usize,
    lq: &String,
    cand: &str,
) -> (r: Option<(usize, usize, usize)>)
    ensures
        best_view(r) == fuzzy_step(best_view(best), i as int, cand_d(lq@, cand@), cand_m(lq@, cand@)),
{
    let cl = lowercase(cand);
    let d = crate::distance::edit_distance(lq.as_str(), cl.as_str());
    let lq_len = lq.as_str().unicode_len();
    let cl_len = cl.as_str().unicode_len();
    let m = if lq_len >= cl_len {
        lq_len
    } else {
        cl_len
    };
    assert(d == cand_d(lq@, cand@) && m == cand_m(lq@, cand@));
    match best {
        None => {
            if 10 * (d as u128) < 3 * (m as u128) {
                Some((i, d, m))
            } else {
                None
            }
        },
        Some((bi, bd, bm)) => {
            proof {
                crate::distance::lemma_mul_fits_u128(d as u128, bm as u128);
                crate::distance::lemma_mul_fits_u128(bd as u128, m as u128);
            }
            if (d as u128) * (bm as u128) < (bd as u128) * (m as u128) {
                Some((i, d, m))
            } else {
                Some((bi, bd, bm))
            }
        },
    }
}

impl Config {
    /// The catalog as ordered `(key, station)` abstract values.
    pub open spec fn catalog(&self) -> CatalogV {
        Seq::new(self.radios@.len(), |i: int| (self.radios@[i].0@, self.radios@[i].1@))
    }

    /// Whether some alias of `st` lowercases to the lowered query `lq`.
    fn station_alias_matches(st: &RadioStation, lq: &String) -> (r: bool)
        ensures
            r == station_has_alias(st@, lq@),
    {
        let n = st.aliases.len();
        let mut j: usize = 0;
        while j < n
            invariant
                n == st.aliases.len(),
                0 <= j <= n,
                forall|k: int| 0 <= k < j ==> lower_of(#[trigger] st@.aliases[k]) != lq@,
            decreases n - j,
        {
            let al = lowercase(st.aliases[j].as_str());
            if al == *lq {
                assert(st@.aliases[j as int] == st.aliases@[j as int]@);
                return true;
            }
            j += 1;
        }
        false
    }

    /// The index `find_station` returns, against the resolution spec.
    #[verifier::rlimit(30)]
    fn find_station_index(&self, query: &str) -> (r: Option<usize>)
        ensures
            match resolve_spec(self.catalog(), lower_of(query@)) {
                Some(i) => r matches Some(k) && k as int == i,
                None => r is None,
            },
            r matches Some(k) ==> k < self.radios.len(),
    {
        let ghost cat = self.catalog();
        let ghost lqv = lower_of(query@);
        let lq = lowercase(query);
        let n = self.radios.len();

        // Exact key match, case-insensitive.
        let mut i: usize = 0;
        while i < n
            invariant
                n == self.radios.len(),
                0 <= i <= n,
                cat == self.catalog(),
                lqv == lower_of(query@),
                lqv == lq@,
                key_match_from(cat, lqv, 0) == key_match_from(cat, lqv, i as int),
            decreases n - i,
        {
            let name_l = lowercase(self.radios[i].0.as_str());
            if name_l == lq {
                assert(key_match_from(cat, lqv, i as int) == Some(i as int));
                return Some(i);
            }
            i += 1;
        }
        assert(key_match_from(cat, lqv, 0) is None);

        // Alias match, case-insensitive.
        let mut i: usize = 0;
        while i < n
            invariant
                n == self.radios.len(),
                0 <= i <= n,
                cat == self.catalog(),
                lqv == lower_of(query@),
                lqv == lq@,
                key_match_from(cat, lqv, 0) is None,
                alias_match_from(cat, lqv, 0) == alias_match_from(cat, lqv, i as int),
            decreases n - i,
        {
            if Self::station_alias_matches(&self.radios[i].1, &lq) {
                assert(alias_match_from(cat, lqv, i as int) == Some(i as int));
                return Some(i);
            }
            i += 1;
        }
        assert(alias_match_from(cat, lqv, 0) is None);

        // Fuzzy scan over keys and aliases.
        let mut best: Option<(usize, usize, usize)> = None;
        let mut i: usize = 0;
        while i < n
            invariant
                n == self.radios.len(),
                0 <= i <= n,
                cat == self.catalog(),
                lqv == lower_of(query@),
                lqv == lq@,
                key_match_from(cat, lqv, 0) is None,
                alias_match_from(cat, lqv, 0) is None,
                fuzzy_scan(cat, lqv, 0, None) == fuzzy_scan(cat, lqv, i as int, best_view(best)),
                best matches Some(t) ==> t.0 < n,
            decreases n - i,
        {
            let ghost b0 = best_view(best);
            best = fuzzy_consider(best, i, &lq, self.radios[i].0.as_str());
            let ghost with_key = best_view(best);
            assert(with_key == fuzzy_step(b0, i as int, cand_d(lqv, cat[i as int].0), cand_m(lqv, cat[i as int].0)));
            let na = self.radios[i].1.aliases.len();
            let mut j: usize = 0;
            while j < na
                invariant
                    0 <= i < n,
                    n == self.radios.len(),
                    na == self.radios@[i as int].1.aliases.len(),
                    0 <= j <= na,
                    cat == self.catalog(),
                    lqv == lq@,
                    na == cat[i as int].1.aliases.len(),
                    best matches Some(t) ==> t.0 < n,
                    fuzzy_alias_scan(cat[i as int].1, lqv, i as int, 0, with_key) == fuzzy_alias_scan(
                        cat[i as int].1,
                        lqv,
                        i as int,
                        j as int,
                        best_view(best),
                    ),
                decreases na - j,
            {
                assert(cat[i as int].1.aliases[j as int] == self.radios@[i as int].1.aliases@[j as int]@);
                best = fuzzy_consider(best, i, &lq, self.radios[i].1.aliases[j].as_str());
                j += 1;
            }
            assert(fuzzy_scan(cat, lqv, i as int, b0) == fuzzy_scan(cat, lqv, i + 1, best_view(best)));
            i += 1;
        }
        match best {
            Some((bi, _, _)) => Some(bi),
            None => None,
        }
    }

    /// Resolves free text to a station: the first exact key match
    /// (case-insensitive), else the first alias match, else the best fuzzy
    /// candidate whose similarity strictly exceeds `0.7`.
    pub fn find_station(&self, query: &str) -> (r: Option<(String, RadioStation)>)
        ensures
            (r is Some <==> resolve_spec(self.catalog(), lower_of(query@)) is Some),
            r matches Some(p) ==> resolve_spec(self.catalog(), lower_of(query@)) matches Some(i)
                && p.0@ == self.catalog()[i].0 && p.1@ == self.catalog()[i].1,
    {
        match self.find_station_index(query) {
            Some(k) => {
                let name = self.radios[k].0.clone();
                let st = self.radios[k].1.clone();
                Some((name, st))
            },
            None => None,
        }
    }

    /// `find_station`, with a miss reported as `StationNotFound` carrying the query.
    pub fn resolve_station(&self, query: &str) -> (r: Result<(String, RadioStation), AlastorError>)
        ensures
            (r is Ok <==> resolve_spec(self.catalog(), lower_of(query@)) is Some),
            r matches Ok(p) ==> resolve_spec(self.catalog(), lower_of(query@)) matches Some(i)
                && p.0@ == self.catalog()[i].0 && p.1@ == self.catalog()[i].1,
            r matches Err(e) ==> e matches AlastorError::StationNotFound { name } && name@ == query@,
    {
        match self.find_station(query) {
            Some(p) => Ok(p),
            None => Err(AlastorError::StationNotFound { name: query.to_owned() }),
        }
    }

    /// The station keys, in catalog order.
    pub fn get_station_names(&self) -> (r: Vec<String>)
        ensures
            r@.len() == self.catalog().len(),
            forall|i: int| 0 <= i < r@.len() ==> #[trigger] r@[i]@ == self.catalog()[i].0,
    {
        let mut out: Vec<String> = Vec::new();
        let n = self.radios.len();
        let mut i: usize = 0;
        while i < n
            invariant
                n == self.radios.len(),
                0 <= i <= n,
                out@.len() == i,
                forall|k: int| 0 <= k < i ==> #[trigger] out@[k]@ == self.catalog()[k].0,
            decreases n - i,
        {
            out.push(self.radios[i].0.clone());
            i += 1;
        }
        out
    }

    /// The station after the one currently playing, wrapping around the
    /// catalog: the key following the first key that equals `current` up to
    /// ASCII case, or following the start of the catalog when none matches.
    /// An empty catalog has no next station.
    pub fn next_station_name(&self, current: &str) -> (r: Option<String>)
        ensures
            (r is Some <==> self.catalog().len() > 0),
            r matches Some(n) ==> next_station_index(self.catalog(), current@) matches Some(i)
                && n@ == self.catalog()[i].0,
    {
        let ghost cat = self.catalog();
        let n = self.radios.len();
        if n == 0 {
            return None;
        }
        let mut idx: usize = 0;
        let mut i: usize = 0;
        let mut found = false;
        while i < n
            invariant
                n == self.radios.len(),
                n > 0,
                cat == self.catalog(),
                0 <= i <= n,
                !found ==> idx == 0 && ascii_match_from(cat, current@, 0) == ascii_match_from(
                    cat,
                    current@,
                    i as int,
                ),
                found ==> idx < n && ascii_match_from(cat, current@, 0) == Some(idx as int),
            decreases n - i,
        {
            if !found && str_ascii_eq(self.radios[i].0.as_str(), current) {
                found = true;
                idx = i;
                assert(ascii_match_from(cat, current@, i as int) == Some(i as int));
            }
            i += 1;
        }
        let next = if idx + 1 >= n {
            0
        } else {
            idx + 1
        };
        proof {
            if !found {
                assert(ascii_match_from(cat, current@, 0) is None);
            }
            if idx + 1 < n {
                vstd::arithmetic::div_mod::lemma_small_mod((idx + 1) as nat, n as nat);
            } else {
                vstd::arithmetic::div_mod::lemma_mod_self_0(n as int);
            }
            assert(next as int == (idx + 1) % (cat.len() as int));
        }
        Some(self.radios[next].0.clone())
    }
}

/// Two characters equal up to ASCII case.
pub open spec fn ascii_eq_char(x: char, y: char) -> bool {
    ||| x == y
    ||| ('A' <= x <= 'Z' && y as u32 == x as u32 + 32)
    ||| ('A' <= y <= 'Z' && x as u32 == y as u32 + 32)
}

/// Two character sequences equal up to ASCII case.
pub open spec fn ascii_eq(a: Seq<char>, b: Seq<char>) -> bool {
    a.len() == b.len() && (forall|i: int| 0 <= i < a.len() ==> ascii_eq_char(#[trigger] a[i], b[i]))
}

/// First index at or after `i` whose key equals `cur` up to ASCII case.
pub open spec fn ascii_match_from(cat: CatalogV, cur: Seq<char>, i: int) -> Option<int>
    decreases cat.len() - i,
{
    if i < 0 || i >= cat.len() {
        None
    } else if ascii_eq(cat[i].0, cur) {
        Some(i)
    } else {
        ascii_match_from(cat, cur, i + 1)
    }
}

/// The index of the next station in the wrap-around cycle: one past the
/// first ASCII-case-insensitive match of `cur`, or one past the start when
/// nothing matches.
pub open spec fn next_station_index(cat: CatalogV, cur: Seq<char>) -> Option<int> {
    if cat.len() == 0 {
        None
    } else {
        let idx = match ascii_match_from(cat, cur, 0) {
            Some(i) => i,
            None => 0,
        };
        Some((idx + 1) % (cat.len() as int))
    }
}

/// Whether `x` and `y` are equal up to ASCII case.
fn char_ascii_eq(x: char, y: char) -> (r: bool)
    ensures
        r == ascii_eq_char(x, y),
{
    if x == y {
        return true;
    }
    let xu = x as u32;
    let yu = y as u32;
    ('A' as u32 <= xu && xu <= 'Z' as u32 && yu == xu + 32) || ('A' as u32 <= yu && yu
        <= 'Z' as u32 && xu == yu + 32)
}

/// Whether `a` and `b` are equal up to ASCII case, character by character.
fn str_ascii_eq(a: &str, b: &str) -> (r: bool)
    ensures
        r == ascii_eq(a@, b@),
{
    let an = a.unicode_len();
    let bn = b.unicode_len();
    if an != bn {
        return false;
    }
    let mut i: usize = 0;
    while i < an
        invariant
            an == a@.len(),
            bn == b@.len(),
            an == bn,
            0 <= i <= an,
            forall|k: int| 0 <= k < i ==> ascii_eq_char(#[trigger] a@[k], b@[k]),
        decreases an - i,
    {
        if !char_ascii_eq(a.get_char(i), b.get_char(i)) {
            return false;
        }
        i += 1;
    }
    true
}

impl Config {
    /// The catalog indices `search_stations` ranks for a (non-empty) query,
    /// best first: see `is_search_ranking`.
    #[verifier::rlimit(30)]
    pub fn search_station_indices(&self, query: &str) -> (r: Vec<usize>)
        ensures
            is_search_ranking(self.catalog(), lower_of(query@), r@),
    {
        let ghost cat = self.catalog();
        let ghost lqv = lower_of(query@);
        let lq = lowercase(query);
        let n = self.radios.len();

        // Score every station against the query.
        let mut scores: Vec<Option<MatchScore>> = Vec::new();
        let mut i: usize = 0;
        while i < n
            invariant
                n == self.radios.len(),
                cat == self.catalog(),
                lqv == lq@,
                0 <= i <= n,
                scores@.len() == i,
                forall|k: int| 0 <= k < i ==> #[trigger] scores@[k] == score_of(cat[k], lqv),
                forall|k: int|
                    0 <= k < i ==> (#[trigger] scores@[k] matches Some(s) ==> score_wf(s)),
            decreases n - i,
        {
            scores.push(score_entry(&self.radios[i].0, &self.radios[i].1, &lq));
            i += 1;
        }

        let mut used: Vec<bool> = Vec::new();
        let mut i: usize = 0;
        while i < n
            invariant
                0 <= i <= n,
                used@.len() == i,
                forall|k: int| 0 <= k < i ==> !(#[trigger] used@[k]),
            decreases n - i,
        {
            used.push(false);
            i += 1;
        }

        // Take the best-ranked station left, up to 25 times.
        let mut out: Vec<usize> = Vec::new();
        while out.len() < 25
            invariant
                n == cat.len(),
                scores@.len() == n,
                used@.len() == n,
                out@.len() <= 25,
                forall|k: int| 0 <= k < scores@.len() ==> #[trigger] scores@[k] == score_of(cat[k], lqv),
                forall|k: int|
                    0 <= k < scores@.len() ==> (#[trigger] scores@[k] matches Some(s) ==> score_wf(
                        s,
                    )),
                forall|k: int|
                    0 <= k < out@.len() ==> (#[trigger] out@[k] as int) < n && used@[out@[k] as int]
                        && is_match(cat, lqv, out@[k] as int),
                forall|k1: int, k2: int|
                    0 <= k1 < k2 < out@.len() ==> ranked_before(
                        cat,
                        lqv,
                        out@[k1] as int,
                        out@[k2] as int,
                    ),
                forall|t: int|
                    sel_candidate(scores@, used@, t) ==> (forall|k: int|
                        0 <= k < out@.len() ==> ranked_before(cat, lqv, #[trigger] out@[k] as int, t)),
                forall|t: int| 0 <= t < n && used@[t] ==> out@.contains(t as usize),
            ensures
                out@.len() <= 25,
                out@.len() < 25 ==> (forall|t: int| !sel_candidate(scores@, used@, t)),
                used@.len() == n,
                forall|k: int|
                    0 <= k < out@.len() ==> (#[trigger] out@[k] as int) < n && used@[out@[k] as int]
                        && is_match(cat, lqv, out@[k] as int),
                forall|k1: int, k2: int|
                    0 <= k1 < k2 < out@.len() ==> ranked_before(
                        cat,
                        lqv,
                        out@[k1] as int,
                        out@[k2] as int,
                    ),
                forall|t: int|
                    sel_candidate(scores@, used@, t) ==> (forall|k: int|
                        0 <= k < out@.len() ==> ranked_before(cat, lqv, #[trigger] out@[k] as int, t)),
                forall|t: int| 0 <= t < n && used@[t] ==> out@.contains(t as usize),
            decreases 25 - out.len(),
        {
            let picked = best_unused(&scores, &used);
            match picked {
                None => {
                    break ;
                },
                Some(c) => {
                    let ghost out0 = out@;
                    let ghost used0 = used@;
                    out.push(c);
                    used[c] = true;
                    proof {
                        assert(out@ == out0.push(c));
                        assert(used@ == used0.update(c as int, true));
                        // Everything previously kept stays in `out`.
                        assert forall|t: int| 0 <= t < n && used@[t] implies out@.contains(
                            t as usize,
                        ) by {
                            if t == c as int {
                                assert(out@[out0.len() as int] == c);
                            } else {
                                assert(used0[t]);
                                let k = choose|k: int| 0 <= k < out0.len() && out0[k] == t as usize;
                                assert(out@[k] == t as usize);
                            }
                        }
                        // The new element ranks after everything already kept,
                        // and everything still unpicked ranks after it.
                        assert forall|t: int| sel_candidate(scores@, used@, t) implies (forall|
                            k: int,
                        |
                            0 <= k < out@.len() ==> ranked_before(
                                cat,
                                lqv,
                                #[trigger] out@[k] as int,
                                t,
                            )) by {
                            assert(sel_candidate(scores@, used0, t));
                            assert(t != c as int);
                            assert(ranked_before(cat, lqv, c as int, t));
                            assert forall|k: int| 0 <= k < out@.len() implies ranked_before(
                                cat,
                                lqv,
                                #[trigger] out@[k] as int,
                                t,
                            ) by {
                                if k < out0.len() {
                                    assert(out@[k] == out0[k]);
                                    assert(ranked_before(cat, lqv, out0[k] as int, t));
                                } else {
                                    assert(out@[k] == c);
                                }
                            }
                        }
                    }
                },
            }
        }

        // A break with fewer than 25 entries means nothing scored is left out.
        proof {
            assert forall|t: int|
                is_match(cat, lqv, t) && !out@.contains(t as usize) implies (forall|k: int|
                0 <= k < out@.len() ==> ranked_before(cat, lqv, #[trigger] out@[k] as int, t)) by {
                assert(!used@[t]);
                assert(sel_candidate(scores@, used@, t));
            }
            if out@.len() < 25 {
                assert forall|t: int| is_match(cat, lqv, t) implies out@.contains(t as usize) by {
                    if !used@[t] {
                        assert(sel_candidate(scores@, used@, t));
                    }
                }
            }
        }
        out
    }

    /// Ranks stations against a query with the layered scoring scheme,
    /// returning at most 25 `(key, station)` pairs, best first; an empty
    /// query returns up to 25 stations in catalog order, unscored.
    #[verifier::rlimit(30)]
    pub fn search_stations(&self, query: &str) -> (r: Vec<(String, RadioStation)>)
        ensures
            query@.len() == 0 ==> r@.len() == min_cap(self.catalog().len()) && (forall|k: int|
                0 <= k < r@.len() ==> (#[trigger] r@[k].0@) == self.catalog()[k].0 && r@[k].1@
                    == self.catalog()[k].1),
            query@.len() != 0 ==> exists|idxs: Seq<usize>|
                #[trigger] is_search_ranking(self.catalog(), lower_of(query@), idxs)
                    && r@.len() == idxs.len() && (forall|k: int|
                    0 <= k < r@.len() ==> idxs[k] < self.catalog().len() && (#[trigger] r@[k].0@)
                        == self.catalog()[idxs[k] as int].0 && r@[k].1@ == self.catalog()[idxs[k] as int].1),
    {
        let ghost cat = self.catalog();
        let mut r: Vec<(String, RadioStation)> = Vec::new();
        if query.unicode_len() == 0 {
            let n = self.radios.len();
            let cap = if n < 25 {
                n
            } else {
                25
            };
            let mut i: usize = 0;
            while i < cap
                invariant
                    cap <= n,
                    n == self.radios.len(),
                    cat == self.catalog(),
                    0 <= i <= cap,
                    r@.len() == i,
                    forall|k: int|
                        0 <= k < i ==> (#[trigger] r@[k].0@) == cat[k].0 && r@[k].1@ == cat[k].1,
                decreases cap - i,
            {
                r.push((self.radios[i].0.clone(), self.radios[i].1.clone()));
                i += 1;
            }
            r
        } else {
            let idxs = self.search_station_indices(query);
            let m = idxs.len();
            let mut k: usize = 0;
            while k < m
                invariant
                    m == idxs@.len(),
                    cat == self.catalog(),
                    is_search_ranking(cat, lower_of(query@), idxs@),
                    0 <= k <= m,
                    r@.len() == k,
                    forall|t: int| 0 <= t < m ==> (#[trigger] idxs@[t] as int) < cat.len(),
                    forall|t: int|
                        0 <= t < k ==> (#[trigger] r@[t].0@) == cat[idxs@[t] as int].0 && r@[t].1@
                            == cat[idxs@[t] as int].1,
                decreases m - k,
            {
                let c = idxs[k];
                r.push((self.radios[c].0.clone(), self.radios[c].1.clone()));
                k += 1;
            }
            proof {
                assert(is_search_ranking(self.catalog(), lower_of(query@), idxs@));
                assert(r@.len() == idxs@.len());
                assert forall|t: int| 0 <= t < r@.len() implies idxs@[t] < self.catalog().len() && (
                #[trigger] r@[t].0@) == self.catalog()[idxs@[t] as int].0 && r@[t].1@
                    == self.catalog()[idxs@[t] as int].1 by {
                    assert((idxs@[t] as int) < cat.len());
                    assert((r@[t].0@) == cat[idxs@[t] as int].0);
                }
                assert(exists|w: Seq<usize>|
                    #[trigger] is_search_ranking(self.catalog(), lower_of(query@), w) && r@.len()
                        == w.len() && (forall|k: int|
                        0 <= k < r@.len() ==> w[k] < self.catalog().len() && (#[trigger] r@[k].0@)
                            == self.catalog()[w[k] as int].0 && r@[k].1@
                            == self.catalog()[w[k] as int].1));
            }
            r
        }
    }
}

/// The listing cap: at most 25 entries come back.
pub open spec fn min_cap(n: nat) -> nat {
    if n < 25 {
        n
    } else {
        25
    }
}

/// `key_match_from` finds `i` when nothing in `[k, i)` matches and `i` does.
proof fn lemma_key_match_skip(cat: CatalogV, lq: Seq<char>, k: int, i: int)
    requires
        0 <= k <= i < cat.len(),
        forall|j: int| k <= j < i ==> lower_of(#[trigger] cat[j].0) != lq,
        lower_of(cat[i].0) == lq,
    ensures
        key_match_from(cat, lq, k) == Some(i),
    decreases i - k,
{
    if k < i {
        lemma_key_match_skip(cat, lq, k + 1, i);
    }
}

/// `key_match_from` finds nothing when no key from `k` on matches.
proof fn lemma_key_match_none(cat: CatalogV, lq: Seq<char>, k: int)
    requires
        forall|j: int| k <= j < cat.len() ==> lower_of(#[trigger] cat[j].0) != lq,
    ensures
        key_match_from(cat, lq, k) is None,
    decreases cat.len() - k,
{
    if 0 <= k < cat.len() {
        lemma_key_match_none(cat, lq, k + 1);
    }
}

/// `alias_match_from` finds `i` when nothing in `[k, i)` matches and `i` does.
proof fn lemma_alias_match_skip(cat: CatalogV, lq: Seq<char>, k: int, i: int)
    requires
        0 <= k <= i < cat.len(),
        forall|j: int| k <= j < i ==> !station_has_alias(#[trigger] cat[j].1, lq),
        station_has_alias(cat[i].1, lq),
    ensures
        alias_match_from(cat, lq, k) == Some(i),
    decreases i - k,
{
    if k < i {
        lemma_alias_match_skip(cat, lq, k + 1, i);
    }
}

/// A fuzzy scan over the aliases of one station stays empty when every alias
/// sits at or below the similarity threshold.
proof fn lemma_fuzzy_alias_scan_none(st: RadioStationView, lq: Seq<char>, i: int, j: int)
    requires
        forall|k: int|
            0 <= k < st.aliases.len() ==> !sim_exceeds_threshold(
                cand_d(lq, #[trigger] st.aliases[k]),
                cand_m(lq, st.aliases[k]),
            ),
    ensures
        fuzzy_alias_scan(st, lq, i, j, None) is None,
    decreases st.aliases.len() - j,
{
    if 0 <= j < st.aliases.len() {
        lemma_fuzzy_alias_scan_none(st, lq, i, j + 1);
    }
}

/// The whole fuzzy scan stays empty when every key and alias from `k` on
/// sits at or below the similarity threshold.
proof fn lemma_fuzzy_scan_none(cat: CatalogV, lq: Seq<char>, k: int)
    requires
        forall|j: int|
            0 <= j < cat.len() ==> !sim_exceeds_threshold(
                cand_d(lq, #[trigger] cat[j].0),
                cand_m(lq, cat[j].0),
            ),
        forall|j: int, a: int|
            0 <= j < cat.len() && 0 <= a < cat[j].1.aliases.len() ==> !sim_exceeds_threshold(
                cand_d(lq, #[trigger] cat[j].1.aliases[a]),
                cand_m(lq, cat[j].1.aliases[a]),
            ),
    ensures
        fuzzy_scan(cat, lq, k, None) is None,
    decreases cat.len() - k,
{
    if 0 <= k < cat.len() {
        lemma_fuzzy_alias_scan_none(cat[k].1, lq, k, 0);
        lemma_fuzzy_scan_none(cat, lq, k + 1);
    }
}

/// Exact key match has absolute priority over fuzzy matching: resolving a
/// station's own key returns that station and never another, whenever the
/// catalog's keys are pairwise distinct case-insensitively.
pub proof fn lemma_resolve_exact_key(cat: CatalogV, i: int)
    requires
        0 <= i < cat.len(),
        forall|j: int|
            0 <= j < cat.len() && j != i ==> lower_of(#[trigger] cat[j].0) != lower_of(cat[i].0),
    ensures
        resolve_spec(cat, lower_of(cat[i].0)) == Some(i),
{
    lemma_key_match_skip(cat, lower_of(cat[i].0), 0, i);
}

/// A query that case-insensitively equals an alias of a station resolves to
/// that station — however fuzzily close the query may be to any other key —
/// whenever no key equals the query and no earlier station has such an alias.
pub proof fn lemma_resolve_alias(cat: CatalogV, q: Seq<char>, i: int)
    requires
        0 <= i < cat.len(),
        forall|j: int| 0 <= j < cat.len() ==> lower_of(#[trigger] cat[j].0) != lower_of(q),
        station_has_alias(cat[i].1, lower_of(q)),
        forall|j: int| 0 <= j < i ==> !station_has_alias(#[trigger] cat[j].1, lower_of(q)),
    ensures
        resolve_spec(cat, lower_of(q)) == Some(i),
{
    lemma_key_match_none(cat, lower_of(q), 0);
    lemma_alias_match_skip(cat, lower_of(q), 0, i);
}

/// Fuzzy matching never fires at similarity `<= 0.7`: when no key or alias
/// matches the query exactly and every candidate's similarity sits at or
/// below the threshold, resolution returns nothing.
pub proof fn lemma_no_fuzzy_below_threshold(cat: CatalogV, q: Seq<char>)
    requires
        forall|j: int| 0 <= j < cat.len() ==> lower_of(#[trigger] cat[j].0) != lower_of(q),
        forall|j: int| 0 <= j < cat.len() ==> !station_has_alias(#[trigger] cat[j].1, lower_of(q)),
        forall|j: int|
            0 <= j < cat.len() ==> !sim_exceeds_threshold(
                cand_d(lower_of(q), #[trigger] cat[j].0),
                cand_m(lower_of(q), cat[j].0),
            ),
        forall|j: int, a: int|
            0 <= j < cat.len() && 0 <= a < cat[j].1.aliases.len() ==> !sim_exceeds_threshold(
                cand_d(lower_of(q), #[trigger] cat[j].1.aliases[a]),
                cand_m(lower_of(q), cat[j].1.aliases[a]),
            ),
    ensures
        resolve_spec(cat, lower_of(q)) is None,
{
    lemma_key_match_none(cat, lower_of(q), 0);
    let lq = lower_of(q);
    assert forall|j: int| 0 <= j < cat.len() implies !station_has_alias(
        #[trigger] cat[j].1,
        lq,
    ) by {}
    lemma_alias_match_none(cat, lq, 0);
    lemma_fuzzy_scan_none(cat, lq, 0);
}

/// `alias_match_from` finds nothing when no station from `k` on has a
/// matching alias.
proof fn lemma_alias_match_none(cat: CatalogV, lq: Seq<char>, k: int)
    requires
        forall|j: int| k <= j < cat.len() ==> !station_has_alias(#[trigger] cat[j].1, lq),
    ensures
        alias_match_from(cat, lq, k) is None,
    decreases cat.len() - k,
{
    if 0 <= k < cat.len() {
        lemma_alias_match_none(cat, lq, k + 1);
    }
}

/// A station's search score. A layered match is a constant in hundredths
/// (exact key 100, exact alias 95, key prefix 90, alias prefix 85, key
/// substring 80, alias substring 75); a fuzzy match on the key scores
/// `0.7 * (1 - d/m)`, always below every layered score. The numeric value
/// is `score_num / score_den`.
#[derive(Clone, Copy)]
pub enum MatchScore {
    Layer(u32),
    Fuzzy { d: usize, m: usize },
}

/// Numerator of the score value.
pub open spec fn score_num(s: MatchScore) -> int {
    match s {
        MatchScore::Layer(k) => k as int,
        MatchScore::Fuzzy { d, m } => 7 * ((m as int) - (d as int)),
    }
}

/// Denominator of the score value.
pub open spec fn score_den(s: MatchScore) -> int {
    match s {
        MatchScore::Layer(_) => 100,
        MatchScore::Fuzzy { d: _, m } => 10 * (m as int),
    }
}

/// Scores the implementation produces: layered constants, and fuzzy pairs
/// strictly above similarity `0.6` (so `d < m` and `m > 0`).
pub open spec fn score_wf(s: MatchScore) -> bool {
    match s {
        MatchScore::Layer(k) => 75 <= k <= 100,
        MatchScore::Fuzzy { d, m } => 5 * (d as int) < 2 * (m as int),
    }
}

/// The score value of `a` strictly exceeds that of `b`.
pub open spec fn score_gt(a: MatchScore, b: MatchScore) -> bool {
    score_num(a) * score_den(b) > score_num(b) * score_den(a)
}

/// The score values of `a` and `b` are equal.
pub open spec fn score_eq(a: MatchScore, b: MatchScore) -> bool {
    score_num(a) * score_den(b) == score_num(b) * score_den(a)
}

/// Some alias of the station starts with the lowered query.
pub open spec fn station_alias_prefix(st: RadioStationView, lq: Seq<char>) -> bool {
    exists|j: int| 0 <= j < st.aliases.len() && is_prefix(lq, lower_of(#[trigger] st.aliases[j]))
}

/// Some alias of the station contains the lowered query.
pub open spec fn station_alias_contains(st: RadioStationView, lq: Seq<char>) -> bool {
    exists|j: int|
        0 <= j < st.aliases.len() && contains_seq(lq, lower_of(#[trigger] st.aliases[j]))
}

/// The station's score against the lowered query `lq`: the highest layer it
/// matches, else a fuzzy score on the key when similarity strictly exceeds
/// `0.6` (`1 - d/m > 3/5` iff `5*d < 2*m`), else no score.
pub open spec fn score_of(e: (Seq<char>, RadioStationView), lq: Seq<char>) -> Option<MatchScore> {
    let kl = lower_of(e.0);
    if kl == lq {
        Some(MatchScore::Layer(100))
    } else if station_has_alias(e.1, lq) {
        Some(MatchScore::Layer(95))
    } else if is_prefix(lq, kl) {
        Some(MatchScore::Layer(90))
    } else if station_alias_prefix(e.1, lq) {
        Some(MatchScore::Layer(85))
    } else if contains_seq(lq, kl) {
        Some(MatchScore::Layer(80))
    } else if station_alias_contains(e.1, lq) {
        Some(MatchScore::Layer(75))
    } else {
        let d = edit_dist(lq, kl);
        let m = max_nat(lq.len(), kl.len());
        if 5 * d < 2 * m {
            Some(MatchScore::Fuzzy { d: d as usize, m: m as usize })
        } else {
            None
        }
    }
}

/// Station `i` scores against the query.
pub open spec fn is_match(cat: CatalogV, lq: Seq<char>, i: int) -> bool {
    0 <= i < cat.len() && score_of(cat[i], lq) is Some
}

/// Station `i` comes before station `j` in the ranking: a strictly higher
/// score, or an equal score and the earlier catalog position.
pub open spec fn ranked_before(cat: CatalogV, lq: Seq<char>, i: int, j: int) -> bool {
    match (score_of(cat[i], lq), score_of(cat[j], lq)) {
        (Some(a), Some(b)) => score_gt(a, b) || (score_eq(a, b) && i < j),
        _ => false,
    }
}

/// `idxs` is the search ranking for the query: scoring stations only, in
/// strictly descending rank (ties by catalog order), at most 25 of them, and
/// nothing left out that ranks before anything kept.
pub open spec fn is_search_ranking(cat: CatalogV, lq: Seq<char>, idxs: Seq<usize>) -> bool {
    &&& forall|k: int| 0 <= k < idxs.len() ==> is_match(cat, lq, #[trigger] idxs[k] as int)
    &&& forall|k1: int, k2: int|
        0 <= k1 < k2 < idxs.len() ==> ranked_before(cat, lq, idxs[k1] as int, idxs[k2] as int)
    &&& idxs.len() <= 25
    &&& (idxs.len() < 25 ==> (forall|i: int|
        is_match(cat, lq, i) ==> idxs.contains(#[trigger] (i as usize))))
    &&& (forall|i: int|
        is_match(cat, lq, i) && !idxs.contains(#[trigger] (i as usize)) ==> (forall|k: int|
            0 <= k < idxs.len() ==> ranked_before(cat, lq, #[trigger] idxs[k] as int, i)))
}

/// Score denominators are positive for the scores the implementation builds.
proof fn lemma_score_den_pos(s: MatchScore)
    requires
        score_wf(s),
    ensures
        score_den(s) > 0,
{
}

/// Every layered match outranks every fuzzy hit: a fuzzy score is at most
/// `0.7`, strictly below the lowest layer `0.75`. A prefix match, say,
/// therefore always sorts above any fuzzy match.
pub proof fn lemma_layered_outranks_fuzzy(x: u32, d: usize, m: usize)
    requires
        75 <= x <= 100,
        5 * (d as int) < 2 * (m as int),
    ensures
        score_gt(MatchScore::Layer(x), MatchScore::Fuzzy { d, m }),
{
    assert((x as int) * (10 * (m as int)) > (7 * ((m as int) - (d as int)))
        * 100) by (nonlinear_arith)
        requires
            75 <= x,
            0 <= (d as int),
            5 * (d as int) < 2 * (m as int),
    ;
}

/// Strictly-greater is transitive over positive denominators.
proof fn lemma_score_gt_trans(a: MatchScore, b: MatchScore, c: MatchScore)
    requires
        score_wf(a),
        score_wf(b),
        score_wf(c),
        score_gt(a, b),
        score_gt(b, c),
    ensures
        score_gt(a, c),
{
    lemma_score_den_pos(a);
    lemma_score_den_pos(b);
    lemma_score_den_pos(c);
    assert(score_num(a) * score_den(c) > score_num(c) * score_den(a)) by (nonlinear_arith)
        requires
            score_num(a) * score_den(b) > score_num(b) * score_den(a),
            score_num(b) * score_den(c) > score_num(c) * score_den(b),
            score_den(a) > 0,
            score_den(b) > 0,
            score_den(c) > 0,
    ;
}

/// Strictly-greater absorbs equal scores on the right.
proof fn lemma_score_gt_eq_trans(a: MatchScore, b: MatchScore, c: MatchScore)
    requires
        score_wf(a),
        score_wf(b),
        score_wf(c),
        score_gt(a, b),
        score_eq(b, c),
    ensures
        score_gt(a, c),
{
    lemma_score_den_pos(a);
    lemma_score_den_pos(b);
    lemma_score_den_pos(c);
    assert(score_num(a) * score_den(c) > score_num(c) * score_den(a)) by (nonlinear_arith)
        requires
            score_num(a) * score_den(b) > score_num(b) * score_den(a),
            score_num(b) * score_den(c) == score_num(c) * score_den(b),
            score_den(a) > 0,
            score_den(b) > 0,
            score_den(c) > 0,
    ;
}

/// Whether the score of `a` strictly exceeds that of `b`.
fn score_gt_exec(a: MatchScore, b: MatchScore) -> (r: bool)
    requires
        score_wf(a),
        score_wf(b),
    ensures
        r == score_gt(a, b),
{
    match (a, b) {
        (MatchScore::Layer(x), MatchScore::Layer(y)) => x > y,
        (MatchScore::Layer(x), MatchScore::Fuzzy { d, m }) => {
            proof {
                lemma_layered_outranks_fuzzy(x, d, m);
            }
            true
        },
        (MatchScore::Fuzzy { d, m }, MatchScore::Layer(y)) => {
            proof {
                lemma_layered_outranks_fuzzy(y, d, m);
            }
            false
        },
        (MatchScore::Fuzzy { d: d1, m: m1 }, MatchScore::Fuzzy { d: d2, m: m2 }) => {
            proof {
                crate::distance::lemma_mul_fits_u128((m1 - d1) as u128, m2 as u128);
                crate::distance::lemma_mul_fits_u128((m2 - d2) as u128, m1 as u128);
                assert(((7 * ((m1 as int) - (d1 as int))) * (10 * (m2 as int)) > (7 * ((m2 as int)
                    - (d2 as int))) * (10 * (m1 as int))) == (((m1 as int) - (d1 as int)) * (
                m2 as int) > ((m2 as int) - (d2 as int)) * (m1 as int))) by (nonlinear_arith);
            }
            ((m1 - d1) as u128) * (m2 as u128) > ((m2 - d2) as u128) * (m1 as u128)
        },
    }
}

/// How the aliases of a station relate to the lowered query: whether any
/// alias equals it, starts with it, or contains it.
fn alias_flags(st: &RadioStation, lq: &String) -> (r: (bool, bool, bool))
    ensures
        r.0 == station_has_alias(st@, lq@),
        r.1 == station_alias_prefix(st@, lq@),
        r.2 == station_alias_contains(st@, lq@),
{
    let n = st.aliases.len();
    let mut a_eq = false;
    let mut a_pre = false;
    let mut a_con = false;
    let mut j: usize = 0;
    while j < n
        invariant
            n == st.aliases.len(),
            0 <= j <= n,
            a_eq ==> station_has_alias(st@, lq@),
            !a_eq ==> forall|k: int| 0 <= k < j ==> lower_of(#[trigger] st@.aliases[k]) != lq@,
            a_pre ==> station_alias_prefix(st@, lq@),
            !a_pre ==> forall|k: int|
                0 <= k < j ==> !is_prefix(lq@, lower_of(#[trigger] st@.aliases[k])),
            a_con ==> station_alias_contains(st@, lq@),
            !a_con ==> forall|k: int|
                0 <= k < j ==> !contains_seq(lq@, lower_of(#[trigger] st@.aliases[k])),
        decreases n - j,
    {
        let al = lowercase(st.aliases[j].as_str());
        assert(st@.aliases[j as int] == st.aliases@[j as int]@);
        if al == *lq {
            a_eq = true;
        }
        if str_starts_with(al.as_str(), lq.as_str()) {
            a_pre = true;
        }
        if str_contains(al.as_str(), lq.as_str()) {
            a_con = true;
        }
        j += 1;
    }
    (a_eq, a_pre, a_con)
}

/// The search score of one station against the lowered query.
fn score_entry(name: &String, st: &RadioStation, lq: &String) -> (r: Option<MatchScore>)
    ensures
        r == score_of((name@, st@), lq@),
        r matches Some(s) ==> score_wf(s),
{
    let kl = lowercase(name.as_str());
    if kl == *lq {
        return Some(MatchScore::Layer(100));
    }
    let (a_eq, a_pre, a_con) = alias_flags(st, lq);
    if a_eq {
        return Some(MatchScore::Layer(95));
    }
    if str_starts_with(kl.as_str(), lq.as_str()) {
        return Some(MatchScore::Layer(90));
    }
    if a_pre {
        return Some(MatchScore::Layer(85));
    }
    if str_contains(kl.as_str(), lq.as_str()) {
        return Some(MatchScore::Layer(80));
    }
    if a_con {
        return Some(MatchScore::Layer(75));
    }
    let d = crate::distance::edit_distance(lq.as_str(), kl.as_str());
    let lqn = lq.as_str().unicode_len();
    let kln = kl.as_str().unicode_len();
    let m = if lqn >= kln {
        lqn
    } else {
        kln
    };
    if 5 * (d as u128) < 2 * (m as u128) {
        Some(MatchScore::Fuzzy { d, m })
    } else {
        None
    }
}

/// An index is a selection candidate: it scored and was not yet taken.
spec fn sel_candidate(scores: Seq<Option<MatchScore>>, used: Seq<bool>, j: int) -> bool {
    0 <= j < scores.len() && scores[j] is Some && !used[j]
}

/// The best selection candidate left: the lowest index of highest score.
fn best_unused(scores: &Vec<Option<MatchScore>>, used: &Vec<bool>) -> (r: Option<usize>)
    requires
        scores@.len() == used@.len(),
        forall|j: int|
            0 <= j < scores@.len() ==> (#[trigger] scores@[j] matches Some(s) ==> score_wf(s)),
    ensures
        r matches Some(c) ==> sel_candidate(scores@, used@, c as int) && (forall|j: int|
            sel_candidate(scores@, used@, j) && j != c ==> (scores@[c as int] matches Some(a)
                && scores@[j] matches Some(b) && (score_gt(a, b) || (score_eq(a, b) && c < j)))),
        r is None ==> forall|j: int| !sel_candidate(scores@, used@, j),
{
    let n = scores.len();
    let mut cur: Option<usize> = None;
    let mut j: usize = 0;
    while j < n
        invariant
            n == scores@.len(),
            scores@.len() == used@.len(),
            0 <= j <= n,
            forall|k: int|
                0 <= k < scores@.len() ==> (#[trigger] scores@[k] matches Some(s) ==> score_wf(s)),
            cur matches Some(c) ==> sel_candidate(scores@, used@, c as int) && c < j && (forall|t: int|
                sel_candidate(scores@, used@, t) && t < j && t != c ==> (scores@[c as int] matches
                    Some(a) && scores@[t] matches Some(b) && (score_gt(a, b) || (score_eq(a, b)
                    && c < t)))),
            cur is None ==> forall|t: int| 0 <= t < j ==> !sel_candidate(scores@, used@, t),
        decreases n - j,
    {
        if !used[j] {
            if let Some(sj) = scores[j] {
                match cur {
                    None => {
                        cur = Some(j);
                    },
                    Some(c) => {
                        let sc = scores[c].unwrap();
                        if score_gt_exec(sj, sc) {
                            proof {
                                let scv = scores@[c as int]->Some_0;
                                let sjv = scores@[j as int]->Some_0;
                                assert forall|t: int|
                                    sel_candidate(scores@, used@, t) && t < j && t
                                        != c implies (scores@[j as int] matches Some(a)
                                    && scores@[t] matches Some(b) && (score_gt(a, b) || (score_eq(
                                    a,
                                    b,
                                ) && j < t))) by {
                                    let stv = scores@[t]->Some_0;
                                    if score_gt(scv, stv) {
                                        lemma_score_gt_trans(sjv, scv, stv);
                                    } else {
                                        lemma_score_gt_eq_trans(sjv, scv, stv);
                                    }
                                }
                            }
                            cur = Some(j);
                        }
                    },
                }
            }
        }
        j += 1;
    }
    cur
}

/// Whether the scores of `a` and `b` are equal in value.
fn score_eq_exec(a: MatchScore, b: MatchScore) -> (r: bool)
    requires
        score_wf(a),
        score_wf(b),
    ensures
        r == score_eq(a, b),
{
    match (a, b) {
        (MatchScore::Layer(x), MatchScore::Layer(y)) => x == y,
        (MatchScore::Layer(x), MatchScore::Fuzzy { d, m }) => {
            proof {
                lemma_layered_outranks_fuzzy(x, d, m);
            }
            false
        },
        (MatchScore::Fuzzy { d, m }, MatchScore::Layer(y)) => {
            proof {
                lemma_layered_outranks_fuzzy(y, d, m);
            }
            false
        },
        (MatchScore::Fuzzy { d: d1, m: m1 }, MatchScore::Fuzzy { d: d2, m: m2 }) => {
            proof {
                crate::distance::lemma_mul_fits_u128((m1 - d1) as u128, m2 as u128);
                crate::distance::lemma_mul_fits_u128((m2 - d2) as u128, m1 as u128);
                assert(((7 * ((m1 as int) - (d1 as int))) * (10 * (m2 as int)) == (7 * ((m2 as int)
                    - (d2 as int))) * (10 * (m1 as int))) == (((m1 as int) - (d1 as int)) * (
                m2 as int) == ((m2 as int) - (d2 as int)) * (m1 as int))) by (nonlinear_arith);
            }
            ((m1 - d1) as u128) * (m2 as u128) == ((m2 - d2) as u128) * (m1 as u128)
        },
    }
}

} // verus!
