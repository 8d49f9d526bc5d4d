//! Event ranking endpoints, matching GarupaSpeedTracker:
//!
//! - `GET /eventtop/data?server=0&event=N[&mid=N]` → `{ points, users }`
//! - `GET /tracker/data?server=0&event=N&tier=N[&mid=N]` → `{ result, cutoffs }`
//! - `GET /events` → event list keyed by id
//!
//! When no local snapshot exists, `/eventtop/data` and `/tracker/data` redirect
//! to `https://bestdori.com{path_and_query}` of the request, exactly like GarupaSpeedTracker.

use vstd::prelude::*;
use vstd::string::*;
use crate::api::{bucket_of, time_bucket, RAW_INTERVAL_MS};
use crate::api::monthly::{top_answer, top_body_spec, border_body, border_body_spec, as_param, optional_int, optional_int_spec, outcome_is, param_view, required_int, required_int_spec, value_or, copy_or, Checked};
use crate::config::opt_view;
use crate::error::{AppError, AppResult};
use crate::json::{JsonValue, Json, json_entries_view, lemma_json_entries_view};
use crate::sort::{indexed_sort, last_of_each_slot, last_of_slot, orders_triples, position_kept, key_lt};
use crate::api::{served_points, resample_points};
use crate::storage::{event_border_tiers, PlayerDoc, TopPoint, is_event_border_tier, is_music_border_tier, music_border_tiers, CutoffPoint};
use crate::text::str_eq;

verus! {

/// The origin that requests without local data are sent to.
pub open spec fn bestdori_base() -> Seq<char> {
    "https://bestdori.com"@
}

/// The `Location` of the fallback redirect: Bestdori's origin followed by
/// the request's path and query.
pub fn bestdori_location(path_and_query: &str) -> (r: String)
    ensures
        r@ == bestdori_base() + path_and_query@,
{
    String::from_str("https://bestdori.com").concat(path_and_query)
}

// ---------------------------------------------------------------------------
// Server
// ---------------------------------------------------------------------------

/// The event `server` parameter: `0` or `jp`, both meaning JP.
pub open spec fn event_server_spec(raw: Option<Seq<char>>) -> Checked<i64> {
    match raw {
        None => Err(("server"@, "server is required"@)),
        Some(s) => if s == "jp"@ || s == "0"@ {
            Ok(0)
        } else {
            Err(("server"@, "unsupported server \""@ + s + "\": only jp/0 is served"@))
        },
    }
}

/// Accepts both the GarupaSpeedTracker numeric server index `0` and the
/// Bestdori string server name `jp` so existing Bestdori-style consumers
/// e.g. Garupa-T10's T10 tracker can point at Box unchanged.
pub fn parse_server(raw: Option<&str>) -> (r: AppResult<i64>)
    ensures
        outcome_is(r, event_server_spec(param_view(raw))),
{
    match raw {
        Some(s) => {
            if str_eq(s, "jp") || str_eq(s, "0") {
                Ok(0)
            } else {
                let message = String::from_str("unsupported server \"").concat(s).concat(
                    "\": only jp/0 is served",
                );
                Err(AppError::validation("server", message.as_str()))
            }
        },
        None => Err(AppError::validation("server", "server is required")),
    }
}

// ---------------------------------------------------------------------------
// GET /eventtop/data
// ---------------------------------------------------------------------------

/// Query of `GET /eventtop/data`.
pub struct EventTopQuery {
    pub server: Option<String>,
    pub event: Option<String>,
    pub mid: Option<String>,
    pub interval: Option<String>,
    pub since: Option<String>,
}

/// The validated parameters of an event top query.
#[derive(Debug, Clone, Copy, PartialEq, Eq, Structural)]
pub struct EventTopParams {
    pub server: i64,
    pub event: i64,
    pub mid: i64,
    pub interval_ms: i64,
    pub since: i64,
}

/// What `EventTopQuery::params` yields, checked in the endpoint's order:
/// server, event (required, at least 1), mid (0 by default), interval
/// (60000 by default, at least 1), since (0 by default).
pub open spec fn event_top_spec(q: EventTopQuery) -> Checked<EventTopParams> {
    match event_server_spec(opt_view(q.server)) {
        Err(e) => Err(e),
        Ok(server) => match required_int_spec(opt_view(q.event), "event"@, 1) {
            Err(e) => Err(e),
            Ok(event) => match optional_int_spec(opt_view(q.mid), "mid"@, 0, 0) {
                Err(e) => Err(e),
                Ok(mid) => match optional_int_spec(opt_view(q.interval), "interval"@, 1, 60_000) {
                    Err(e) => Err(e),
                    Ok(interval_ms) => match optional_int_spec(opt_view(q.since), "since"@, 0, 0) {
                        Err(e) => Err(e),
                        Ok(since) => Ok(EventTopParams { server, event, mid, interval_ms, since }),
                    },
                },
            },
        },
    }
}

impl EventTopQuery {
    /// Validates the query.
    pub fn params(&self) -> (r: AppResult<EventTopParams>)
        ensures
            outcome_is(r, event_top_spec(*self)),
    {
        let server = match parse_server(as_param(&self.server)) {
            Ok(v) => v,
            Err(e) => {
                return Err(e);
            },
        };
        let event = match required_int(as_param(&self.event), "event", 1) {
            Ok(v) => v,
            Err(e) => {
                return Err(e);
            },
        };
        let mid = match optional_int(as_param(&self.mid), "mid", 0, 0) {
            Ok(v) => v,
            Err(e) => {
                return Err(e);
            },
        };
        let interval_ms = match optional_int(as_param(&self.interval), "interval", 1, 60_000) {
            Ok(v) => v,
            Err(e) => {
                return Err(e);
            },
        };
        let since = match optional_int(as_param(&self.since), "since", 0, 0) {
            Ok(v) => v,
            Err(e) => {
                return Err(e);
            },
        };
        Ok(EventTopParams { server, event, mid, interval_ms, since })
    }
}

// ---------------------------------------------------------------------------
// GET /tracker/data
// ---------------------------------------------------------------------------

/// Query of `GET /tracker/data`.
pub struct TrackerQuery {
    pub server: Option<String>,
    pub event: Option<String>,
    pub tier: Option<String>,
    pub mid: Option<String>,
    pub interval: Option<String>,
}

/// The validated parameters of a tracker query.
#[derive(Debug, Clone, Copy, PartialEq, Eq, Structural)]
pub struct TrackerParams {
    pub server: i64,
    pub event: i64,
    pub mid: i64,
    pub tier: i64,
    pub interval_ms: i64,
}

/// The message of a tier outside the list for `mid`.
pub open spec fn tracker_tier_message(mid: i64) -> Seq<char> {
    if mid > 0 {
        "tier must be one of: 20,30,40,50,100,200,300,500,1000,2000,5000,10000,20000,50000,100000"@
    } else {
        "tier must be one of: 20,30,40,50,100,200,300,500,1000,1500,2000,3000,4000,5000,10000,20000,30000,40000,50000,100000"@
    }
}

/// The tiers served for `mid`: the per-song list for a song, else the
/// event-wide list.
pub open spec fn tracker_tiers(mid: i64) -> Seq<i64> {
    if mid > 0 {
        music_border_tiers()
    } else {
        event_border_tiers()
    }
}

/// What `TrackerQuery::params` yields, checked in the endpoint's order:
/// server, event, mid, tier (required, in the list for `mid`), interval.
pub open spec fn tracker_spec(q: TrackerQuery) -> Checked<TrackerParams> {
    match event_server_spec(opt_view(q.server)) {
        Err(e) => Err(e),
        Ok(server) => match required_int_spec(opt_view(q.event), "event"@, 1) {
            Err(e) => Err(e),
            Ok(event) => match optional_int_spec(opt_view(q.mid), "mid"@, 0, 0) {
                Err(e) => Err(e),
                Ok(mid) => match required_int_spec(opt_view(q.tier), "tier"@, 1) {
                    Err(e) => Err(e),
                    Ok(tier) => if !tracker_tiers(mid).contains(tier) {
                        Err(("tier"@, tracker_tier_message(mid)))
                    } else {
                        match optional_int_spec(opt_view(q.interval), "interval"@, 1, 60_000) {
                            Err(e) => Err(e),
                            Ok(interval_ms) => Ok(TrackerParams { server, event, mid, tier, interval_ms }),
                        }
                    },
                },
            },
        },
    }
}

impl TrackerQuery {
    /// Validates the query.
    pub fn params(&self) -> (r: AppResult<TrackerParams>)
        ensures
            outcome_is(r, tracker_spec(*self)),
    {
        let server = match parse_server(as_param(&self.server)) {
            Ok(v) => v,
            Err(e) => {
                return Err(e);
            },
        };
        let event = match required_int(as_param(&self.event), "event", 1) {
            Ok(v) => v,
            Err(e) => {
                return Err(e);
            },
        };
        let mid = match optional_int(as_param(&self.mid), "mid", 0, 0) {
            Ok(v) => v,
            Err(e) => {
                return Err(e);
            },
        };
        let tier = match required_int(as_param(&self.tier), "tier", 1) {
            Ok(v) => v,
            Err(e) => {
                return Err(e);
            },
        };
        let valid = if mid > 0 {
            is_music_border_tier(tier)
        } else {
            is_event_border_tier(tier)
        };
        if !valid {
            if mid > 0 {
                return Err(
                    AppError::validation(
                        "tier",
                        "tier must be one of: 20,30,40,50,100,200,300,500,1000,2000,5000,10000,20000,50000,100000",
                    ),
                );
            } else {
                return Err(
                    AppError::validation(
                        "tier",
                        "tier must be one of: 20,30,40,50,100,200,300,500,1000,1500,2000,3000,4000,5000,10000,20000,30000,40000,50000,100000",
                    ),
                );
            }
        }
        let interval_ms = match optional_int(as_param(&self.interval), "interval", 1, 60_000) {
            Ok(v) => v,
            Err(e) => {
                return Err(e);
            },
        };
        Ok(TrackerParams { server, event, mid, tier, interval_ms })
    }
}

// ---------------------------------------------------------------------------
// GET /events
// ---------------------------------------------------------------------------

/// The normalized projection of an event master document.
pub open spec fn event_view_spec(v: Json) -> Json {
    Json::Object(
        seq![
            ("eventId"@, value_or(v, "eventId"@, Json::Null)),
            ("eventType"@, value_or(v, "eventType"@, Json::Null)),
            ("eventName"@, value_or(v, "eventName"@, Json::Null)),
            ("assetBundleName"@, value_or(v, "assetBundleName"@, Json::Null)),
            ("startAt"@, value_or(v, "startAt"@, Json::Null)),
            ("endAt"@, value_or(v, "endAt"@, Json::Null)),
        ],
    )
}

/// The `/events` entry of an event document.
pub fn event_view(doc: &JsonValue) -> (r: JsonValue)
    ensures
        r@ == event_view_spec(doc@),
{
    let mut es: Vec<(String, JsonValue)> = Vec::new();
    es.push((String::from_str("eventId"), copy_or(doc, "eventId", JsonValue::Null)));
    es.push((String::from_str("eventType"), copy_or(doc, "eventType", JsonValue::Null)));
    es.push((String::from_str("eventName"), copy_or(doc, "eventName", JsonValue::Null)));
    es.push((String::from_str("assetBundleName"), copy_or(doc, "assetBundleName", JsonValue::Null)));
    es.push((String::from_str("startAt"), copy_or(doc, "startAt", JsonValue::Null)));
    es.push((String::from_str("endAt"), copy_or(doc, "endAt", JsonValue::Null)));
    proof {
        lemma_json_entries_view(es@);
        assert(json_entries_view(es@) =~= seq![
            ("eventId"@, value_or(doc@, "eventId"@, Json::Null)),
            ("eventType"@, value_or(doc@, "eventType"@, Json::Null)),
            ("eventName"@, value_or(doc@, "eventName"@, Json::Null)),
            ("assetBundleName"@, value_or(doc@, "assetBundleName"@, Json::Null)),
            ("startAt"@, value_or(doc@, "startAt"@, Json::Null)),
            ("endAt"@, value_or(doc@, "endAt"@, Json::Null)),
        ]);
    }
    JsonValue::Object(es)
}


// ---------------------------------------------------------------------------
// Resampling cutoff series
// ---------------------------------------------------------------------------

/// The bucket of a cutoff.
pub open spec fn cutoff_bucket(c: CutoffPoint, interval: i64) -> int {
    time_bucket(c.time as int, interval as int)
}

/// Position `i` holds the last cutoff of its bucket.
pub open spec fn last_cutoff_of_bucket(cutoffs: Seq<CutoffPoint>, i: int, interval: i64) -> bool {
    &&& 0 <= i < cutoffs.len()
    &&& forall|j: int|
        #![trigger cutoffs[j]]
        i < j < cutoffs.len() ==> cutoff_bucket(cutoffs[j], interval) != cutoff_bucket(cutoffs[i], interval)
}

/// `c` is the last cutoff of its bucket in `cutoffs`.
pub open spec fn is_last_cutoff(cutoffs: Seq<CutoffPoint>, c: CutoffPoint, interval: i64) -> bool {
    exists|i: int| #[trigger] last_cutoff_of_bucket(cutoffs, i, interval) && cutoffs[i] == c
}

/// `a` comes before `b` in a resampled series: by time, then bucket.
pub open spec fn cutoff_before(a: CutoffPoint, b: CutoffPoint, interval: i64) -> bool {
    ||| a.time < b.time
    ||| a.time == b.time && cutoff_bucket(a, interval) < cutoff_bucket(b, interval)
}

/// `out` resamples `cutoffs` to `interval`: it holds the last cutoff of each
/// bucket, each once, ordered by time, then bucket.
pub open spec fn resampled_cutoffs(cutoffs: Seq<CutoffPoint>, out: Seq<CutoffPoint>, interval: i64) -> bool {
    &&& forall|k: int| 0 <= k < out.len() ==> #[trigger] is_last_cutoff(cutoffs, out[k], interval)
    &&& forall|i: int| #[trigger] last_cutoff_of_bucket(cutoffs, i, interval) ==> out.contains(cutoffs[i])
    &&& forall|k: int, l: int|
        #![trigger out[k], out[l]]
        0 <= k < l < out.len() ==> cutoff_before(out[k], out[l], interval)
}

/// The slots of `cutoffs`: each cutoff's bucket.
pub open spec fn cutoff_slots_are(cutoffs: Seq<CutoffPoint>, slots: Seq<(i64, i64)>, interval: i64) -> bool {
    &&& slots.len() == cutoffs.len()
    &&& forall|k: int|
        0 <= k < slots.len() ==> (#[trigger] slots[k]).0 == 0 && slots[k].1 as int == cutoff_bucket(
            cutoffs[k],
            interval,
        )
}

/// What `resample_cutoffs` establishes about its selection and ordering.
pub open spec fn cutoff_selection(
    cutoffs: Seq<CutoffPoint>,
    slots: Seq<(i64, i64)>,
    chosen: Seq<usize>,
    triples: Seq<(i64, i64, i64)>,
    order: Seq<(i64, i64, i64, usize)>,
    out: Seq<CutoffPoint>,
    interval: i64,
) -> bool {
    &&& cutoff_slots_are(cutoffs, slots, interval)
    &&& cutoffs.len() <= usize::MAX
    &&& forall|k: int| 0 <= k < chosen.len() ==> last_of_slot(slots, #[trigger] chosen[k] as int)
    &&& forall|i: int| #[trigger] last_of_slot(slots, i) ==> chosen.contains(i as usize)
    &&& chosen.no_duplicates()
    &&& triples.len() == chosen.len()
    &&& forall|x: int|
        0 <= x < triples.len() ==> #[trigger] triples[x] == (
            cutoffs[chosen[x] as int].time,
            slots[chosen[x] as int].1,
            0i64,
        )
    &&& orders_triples(triples, order)
    &&& out.len() == order.len()
    &&& forall|x: int| 0 <= x < out.len() ==> #[trigger] out[x] == cutoffs[chosen[order[x].3 as int] as int]
}

proof fn lemma_cutoff_slots(cutoffs: Seq<CutoffPoint>, slots: Seq<(i64, i64)>, interval: i64)
    requires
        cutoff_slots_are(cutoffs, slots, interval),
    ensures
        forall|x: int| #[trigger] last_of_slot(slots, x) <==> last_cutoff_of_bucket(cutoffs, x, interval),
{
    assert forall|x: int| #[trigger] last_of_slot(slots, x) <==> last_cutoff_of_bucket(cutoffs, x, interval) by {
        if 0 <= x < slots.len() {
            if last_of_slot(slots, x) {
                assert forall|j: int| #![trigger cutoffs[j]] x < j < cutoffs.len() implies cutoff_bucket(cutoffs[j], interval) != cutoff_bucket(cutoffs[x], interval) by {
                    assert(slots[j] != slots[x]);
                }
            }
            if last_cutoff_of_bucket(cutoffs, x, interval) {
                assert forall|j: int| #![trigger slots[j]] x < j < slots.len() implies slots[j] != slots[x] by {
                    assert(cutoff_bucket(cutoffs[j], interval) != cutoff_bucket(cutoffs[x], interval));
                }
            }
        }
    }
}

proof fn lemma_cutoffs_resampled(
    cutoffs: Seq<CutoffPoint>,
    slots: Seq<(i64, i64)>,
    chosen: Seq<usize>,
    triples: Seq<(i64, i64, i64)>,
    order: Seq<(i64, i64, i64, usize)>,
    out: Seq<CutoffPoint>,
    interval: i64,
)
    requires
        cutoff_selection(cutoffs, slots, chosen, triples, order, out, interval),
    ensures
        resampled_cutoffs(cutoffs, out, interval),
{
    lemma_cutoff_slots(cutoffs, slots, interval);
    assert forall|x: int| 0 <= x < out.len() implies #[trigger] is_last_cutoff(cutoffs, out[x], interval) by {
        let i = chosen[order[x].3 as int] as int;
        assert(last_of_slot(slots, i));
        assert(last_cutoff_of_bucket(cutoffs, i, interval));
    }
    assert forall|i: int| #[trigger] last_cutoff_of_bucket(cutoffs, i, interval) implies out.contains(cutoffs[i]) by {
        assert(last_of_slot(slots, i));
        assert(chosen.contains(i as usize));
        let c = choose|c: int| 0 <= c < chosen.len() && chosen[c] == i as usize;
        assert(position_kept(order, c));
        let x = choose|x: int| 0 <= x < order.len() && (#[trigger] order[x]).3 == c;
        assert(out[x] == cutoffs[chosen[order[x].3 as int] as int]);
        assert(out[x] == cutoffs[i]);
    }
    assert forall|x: int, y: int|
        #![trigger out[x], out[y]]
        0 <= x < y < out.len() implies cutoff_before(out[x], out[y], interval) by {
        let a = order[x].3 as int;
        let b = order[y].3 as int;
        assert(key_lt(order[x], order[y]));
        assert(order[x] == (triples[a].0, triples[a].1, triples[a].2, order[x].3));
        assert(order[y] == (triples[b].0, triples[b].1, triples[b].2, order[y].3));
        let ia = chosen[a] as int;
        let ib = chosen[b] as int;
        assert(ia != ib);
        assert(last_of_slot(slots, ia));
        assert(last_of_slot(slots, ib));
        if ia < ib {
            assert(slots[ib] != slots[ia]);
        } else {
            assert(slots[ia] != slots[ib]);
        }
        assert(out[x] == cutoffs[ia]);
        assert(out[y] == cutoffs[ib]);
    }
}

/// Resamples cutoff series to `interval_ms` buckets, keeping the last cutoff
/// of each bucket, matching Bestdori's `interval` semantics. At an interval
/// of a minute or less the series is served as it is.
pub fn resample_cutoffs(cutoffs: &Vec<CutoffPoint>, interval_ms: i64) -> (r: Vec<CutoffPoint>)
    ensures
        interval_ms <= RAW_INTERVAL_MS ==> r@ == cutoffs@,
        interval_ms > RAW_INTERVAL_MS ==> resampled_cutoffs(cutoffs@, r@, interval_ms),
{
    let n = cutoffs.len();
    if interval_ms <= RAW_INTERVAL_MS {
        let mut copy: Vec<CutoffPoint> = Vec::new();
        let mut i: usize = 0;
        while i < n
            invariant
                0 <= i <= n,
                n == cutoffs@.len(),
                copy@ == cutoffs@.subrange(0, i as int),
            decreases n - i,
        {
            copy.push(cutoffs[i]);
            i = i + 1;
            assert(copy@ =~= cutoffs@.subrange(0, i as int));
        }
        assert(cutoffs@.subrange(0, n as int) =~= cutoffs@);
        return copy;
    }
    let mut slots: Vec<(i64, i64)> = Vec::new();
    let mut i: usize = 0;
    while i < n
        invariant
            0 <= i <= n,
            n == cutoffs@.len(),
            interval_ms > RAW_INTERVAL_MS,
            slots@.len() == i,
            forall|k: int|
                0 <= k < i ==> (#[trigger] slots@[k]).0 == 0 && slots@[k].1 as int == cutoff_bucket(
                    cutoffs@[k],
                    interval_ms,
                ),
        decreases n - i,
    {
        let b = bucket_of(cutoffs[i].time, interval_ms);
        slots.push((0, b));
        i = i + 1;
    }
    assert(cutoff_slots_are(cutoffs@, slots@, interval_ms));
    let chosen = last_of_each_slot(&slots);
    let mut triples: Vec<(i64, i64, i64)> = Vec::new();
    let mut m: usize = 0;
    while m < chosen.len()
        invariant
            0 <= m <= chosen@.len(),
            cutoff_slots_are(cutoffs@, slots@, interval_ms),
            forall|k: int| 0 <= k < chosen@.len() ==> last_of_slot(slots@, #[trigger] chosen@[k] as int),
            triples@.len() == m,
            forall|k: int|
                0 <= k < m ==> #[trigger] triples@[k] == (
                    cutoffs@[chosen@[k] as int].time,
                    slots@[chosen@[k] as int].1,
                    0i64,
                ),
        decreases chosen.len() - m,
    {
        let c = chosen[m];
        assert(last_of_slot(slots@, chosen@[m as int] as int));
        triples.push((cutoffs[c].time, slots[c].1, 0));
        m = m + 1;
    }
    let order = indexed_sort(&triples);
    let mut out: Vec<CutoffPoint> = Vec::new();
    let mut k: usize = 0;
    while k < order.len()
        invariant
            0 <= k <= order@.len(),
            cutoff_slots_are(cutoffs@, slots@, interval_ms),
            orders_triples(triples@, order@),
            triples@.len() == chosen@.len(),
            forall|x: int| 0 <= x < chosen@.len() ==> last_of_slot(slots@, #[trigger] chosen@[x] as int),
            out@.len() == k,
            forall|x: int|
                0 <= x < k ==> #[trigger] out@[x] == cutoffs@[chosen@[order@[x].3 as int] as int],
        decreases order.len() - k,
    {
        let c = chosen[order[k].3];
        assert(last_of_slot(slots@, chosen@[order@[k as int].3 as int] as int));
        out.push(cutoffs[c]);
        k = k + 1;
    }
    proof {
        assert(cutoff_selection(cutoffs@, slots@, chosen@, triples@, order@, out@, interval_ms));
        lemma_cutoffs_resampled(cutoffs@, slots@, chosen@, triples@, order@, out@, interval_ms);
    }
    out
}

// ---------------------------------------------------------------------------
// Answers
// ---------------------------------------------------------------------------

/// `out` is `cutoffs` as served at `interval`: unchanged at a minute or
/// less, else resampled.
pub open spec fn served_cutoffs(cutoffs: Seq<CutoffPoint>, out: Seq<CutoffPoint>, interval: i64) -> bool {
    if interval <= RAW_INTERVAL_MS {
        out == cutoffs
    } else {
        resampled_cutoffs(cutoffs, out, interval)
    }
}

/// What an event endpoint answers: a redirect to a location, or a body.
pub enum Answer {
    Redirect(String),
    Body(JsonValue),
}

/// The answer of `/eventtop/data`: without local points a redirect to
/// Bestdori with the request's path and query, else the points served at
/// `interval_ms` with the players.
pub fn eventtop_answer(
    points: &Vec<TopPoint>,
    players: &Vec<PlayerDoc>,
    interval_ms: i64,
    path_and_query: &str,
) -> (r: Answer)
    ensures
        match r {
            Answer::Redirect(l) => points@.len() == 0 && l@ == bestdori_base() + path_and_query@,
            Answer::Body(b) => points@.len() > 0 && exists|out: Seq<TopPoint>|
                #[trigger] served_points(points@, out, interval_ms) && b@ == top_body_spec(out, players@),
        },
{
    if points.len() == 0 {
        Answer::Redirect(bestdori_location(path_and_query))
    } else {
        Answer::Body(top_answer(points, players, interval_ms))
    }
}

/// The answer of `/tracker/data`: without local cutoffs a redirect to
/// Bestdori with the request's path and query, else the cutoffs served at
/// `interval_ms`.
pub fn tracker_answer(cutoffs: &Vec<CutoffPoint>, interval_ms: i64, path_and_query: &str) -> (r: Answer)
    ensures
        match r {
            Answer::Redirect(l) => cutoffs@.len() == 0 && l@ == bestdori_base() + path_and_query@,
            Answer::Body(b) => cutoffs@.len() > 0 && exists|out: Seq<CutoffPoint>|
                #[trigger] served_cutoffs(cutoffs@, out, interval_ms) && b@ == border_body_spec(out),
        },
{
    if cutoffs.len() == 0 {
        Answer::Redirect(bestdori_location(path_and_query))
    } else {
        let served = resample_cutoffs(cutoffs, interval_ms);
        let b = border_body(&served);
        assert(served_cutoffs(cutoffs@, served@, interval_ms));
        Answer::Body(b)
    }
}

// ---------------------------------------------------------------------------
// Resampling twice
// ---------------------------------------------------------------------------

/// `cutoffs` increase strictly in the resampled order.
pub open spec fn cutoffs_in_order(cutoffs: Seq<CutoffPoint>, interval: i64) -> bool {
    forall|k: int, l: int|
        #![trigger cutoffs[k], cutoffs[l]]
        0 <= k < l < cutoffs.len() ==> cutoff_before(cutoffs[k], cutoffs[l], interval)
}

/// Two series in strictly increasing order that hold the same cutoffs are
/// the same series.
proof fn lemma_ordered_cutoffs_unique(a: Seq<CutoffPoint>, b: Seq<CutoffPoint>, interval: i64)
    requires
        cutoffs_in_order(a, interval),
        cutoffs_in_order(b, interval),
        forall|k: int| 0 <= k < a.len() ==> b.contains(#[trigger] a[k]),
        forall|k: int| 0 <= k < b.len() ==> a.contains(#[trigger] b[k]),
    ensures
        a == b,
    decreases a.len(),
{
    if a.len() == 0 {
        if b.len() > 0 {
            assert(a.contains(b[0]));
        }
        assert(a =~= b);
    } else {
        assert(b.contains(a[0]));
        assert(b.len() > 0);
        assert(a.contains(b[0]));
        let j = choose|j: int| 0 <= j < a.len() && a[j] == b[0];
        let m = choose|m: int| 0 <= m < b.len() && b[m] == a[0];
        if j > 0 {
            assert(cutoff_before(a[0], a[j], interval));
            if m > 0 {
                assert(cutoff_before(b[0], b[m], interval));
            }
            assert(false);
        }
        assert(a[0] == b[0]);
        let ta = a.drop_first();
        let tb = b.drop_first();
        assert forall|k: int| 0 <= k < ta.len() implies tb.contains(#[trigger] ta[k]) by {
            assert(ta[k] == a[k + 1]);
            assert(cutoff_before(a[0], a[k + 1], interval));
            assert(b.contains(a[k + 1]));
            let x = choose|x: int| 0 <= x < b.len() && b[x] == a[k + 1];
            assert(x != 0);
            assert(tb[x - 1] == b[x]);
        }
        assert forall|k: int| 0 <= k < tb.len() implies ta.contains(#[trigger] tb[k]) by {
            assert(tb[k] == b[k + 1]);
            assert(cutoff_before(b[0], b[k + 1], interval));
            assert(a.contains(b[k + 1]));
            let x = choose|x: int| 0 <= x < a.len() && a[x] == b[k + 1];
            assert(x != 0);
            assert(ta[x - 1] == a[x]);
        }
        assert(cutoffs_in_order(ta, interval)) by {
            assert forall|k: int, l: int|
                #![trigger ta[k], ta[l]]
                0 <= k < l < ta.len() implies cutoff_before(ta[k], ta[l], interval) by {
                assert(ta[k] == a[k + 1]);
                assert(ta[l] == a[l + 1]);
            }
        }
        assert(cutoffs_in_order(tb, interval)) by {
            assert forall|k: int, l: int|
                #![trigger tb[k], tb[l]]
                0 <= k < l < tb.len() implies cutoff_before(tb[k], tb[l], interval) by {
                assert(tb[k] == b[k + 1]);
                assert(tb[l] == b[l + 1]);
            }
        }
        lemma_ordered_cutoffs_unique(ta, tb, interval);
        assert(a =~= seq![a[0]] + ta);
        assert(b =~= seq![b[0]] + tb);
    }
}

/// Every cutoff of a resampled series is the last of its bucket
/// in that series.
proof fn lemma_resampled_cutoffs_all_last(cutoffs: Seq<CutoffPoint>, once: Seq<CutoffPoint>, interval: i64)
    requires
        resampled_cutoffs(cutoffs, once, interval),
    ensures
        forall|k: int| 0 <= k < once.len() ==> #[trigger] last_cutoff_of_bucket(once, k, interval),
{
    assert forall|k: int| 0 <= k < once.len() implies #[trigger] last_cutoff_of_bucket(once, k, interval) by {
        assert forall|l: int| #![trigger once[l]] k < l < once.len() implies cutoff_bucket(once[l], interval)
            != cutoff_bucket(once[k], interval) by {
            assert(is_last_cutoff(cutoffs, once[k], interval));
            assert(is_last_cutoff(cutoffs, once[l], interval));
            let ik = choose|i: int| #[trigger] last_cutoff_of_bucket(cutoffs, i, interval) && cutoffs[i] == once[k];
            let il = choose|i: int| #[trigger] last_cutoff_of_bucket(cutoffs, i, interval) && cutoffs[i] == once[l];
            assert(cutoff_before(once[k], once[l], interval));
            if cutoff_bucket(once[l], interval) == cutoff_bucket(once[k], interval) {
                if ik < il {
                    assert(cutoff_bucket(cutoffs[il], interval) != cutoff_bucket(cutoffs[ik], interval));
                } else if il < ik {
                    assert(cutoff_bucket(cutoffs[ik], interval) != cutoff_bucket(cutoffs[il], interval));
                }
            }
        }
    }
}

/// Resampling is idempotent: a resampled cutoff series resamples to itself.
pub proof fn law_resample_cutoffs_idempotent(
    cutoffs: Seq<CutoffPoint>,
    once: Seq<CutoffPoint>,
    twice: Seq<CutoffPoint>,
    interval: i64,
)
    requires
        resampled_cutoffs(cutoffs, once, interval),
        resampled_cutoffs(once, twice, interval),
    ensures
        twice == once,
{
    lemma_resampled_cutoffs_all_last(cutoffs, once, interval);
    assert forall|k: int| 0 <= k < twice.len() implies once.contains(#[trigger] twice[k]) by {
        assert(is_last_cutoff(once, twice[k], interval));
        let i = choose|i: int| #[trigger] last_cutoff_of_bucket(once, i, interval) && once[i] == twice[k];
    }
    assert forall|k: int| 0 <= k < once.len() implies twice.contains(#[trigger] once[k]) by {
        assert(last_cutoff_of_bucket(once, k, interval));
    }
    assert(cutoffs_in_order(once, interval));
    assert(cutoffs_in_order(twice, interval));
    lemma_ordered_cutoffs_unique(twice, once, interval);
}

// ---------------------------------------------------------------------------
// Query defaults
// ---------------------------------------------------------------------------

/// An event top query is always for JP, needs an event, and without `mid`,
/// `interval` or `since` asks for the event-wide ranking (`mid` 0) at the
/// raw minute interval (60000 ms) from the start (`since` 0).
pub proof fn law_event_top_defaults(q: EventTopQuery)
    ensures
        q.event is None ==> event_top_spec(q) is Err,
        event_top_spec(q) matches Ok(p) ==> {
            &&& p.server == 0
            &&& (q.mid is None ==> p.mid == 0)
            &&& (q.interval is None ==> p.interval_ms == 60_000)
            &&& (q.since is None ==> p.since == 0)
        },
        q.server is None ==> event_top_spec(q) == Err::<EventTopParams, (Seq<char>, Seq<char>)>(
            ("server"@, "server is required"@),
        ),
{
}

/// A tracker query is always for JP, needs an event and a tier, and
/// without `mid` or `interval` asks for the event-wide border (`mid` 0) at
/// the raw minute interval; its tier is one of the list for its `mid`.
pub proof fn law_tracker_defaults(q: TrackerQuery)
    ensures
        q.event is None ==> tracker_spec(q) is Err,
        q.tier is None ==> tracker_spec(q) is Err,
        tracker_spec(q) matches Ok(p) ==> {
            &&& p.server == 0
            &&& (q.mid is None ==> p.mid == 0)
            &&& (q.interval is None ==> p.interval_ms == 60_000)
            &&& (p.mid > 0 ==> music_border_tiers().contains(p.tier))
            &&& (p.mid <= 0 ==> event_border_tiers().contains(p.tier))
        },
{
}

} // verus!
