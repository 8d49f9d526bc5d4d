//! Snapshot bookkeeping behind the MongoDB persistence: monthly and event
//! top snapshots in per-day buckets, per-tier border cutoff series, player
//! profiles per server and uid, and master info.
//!
//! The database round trips belong to the caller; this module decides what
//! is written and computes what is read back.

use vstd::prelude::*;
use vstd::string::*;
use crate::json::{JsonValue, json_list_view, clone_list};
use crate::upstream::{RankingUser, MonthlyRankingInfo, EventInfo};
use crate::sort::{SortKey, sort_keys, sorted_keys, key_le, key_lt, indexed_keys, lemma_sorted_indexed};

verus! {

// ---------------------------------------------------------------------------
// Border tiers
// ---------------------------------------------------------------------------

/// Valid monthly-ranking border tiers, ascending.
pub open spec fn monthly_border_tiers() -> Seq<i64> {
    seq![20, 30, 40, 50, 100, 200, 300, 500, 1000, 2000, 3000, 4000, 5000]
}

/// Valid event-wide border tiers, ascending.
pub open spec fn event_border_tiers() -> Seq<i64> {
    seq![
        20,
        30,
        40,
        50,
        100,
        200,
        300,
        500,
        1000,
        1500,
        2000,
        3000,
        4000,
        5000,
        10000,
        20000,
        30000,
        40000,
        50000,
        100000,
    ]
}

/// Valid per-song border tiers, ascending.
pub open spec fn music_border_tiers() -> Seq<i64> {
    seq![20, 30, 40, 50, 100, 200, 300, 500, 1000, 2000, 5000, 10000, 20000, 50000, 100000]
}

/// Number of servers of the API contract, 0 being JP. Only JP is served.
pub const SERVER_COUNT: i64 = 1;

/// Which border tier list applies.
#[derive(Debug, Clone, Copy, PartialEq, Eq, Structural)]
pub enum BorderKind {
    Monthly,
    Event,
    Music,
}

/// The tiers of each kind of border.
pub open spec fn border_tiers(kind: BorderKind) -> Seq<i64> {
    match kind {
        BorderKind::Monthly => monthly_border_tiers(),
        BorderKind::Event => event_border_tiers(),
        BorderKind::Music => music_border_tiers(),
    }
}

/// The valid tiers of `kind`, ascending.
pub fn tier_list(kind: BorderKind) -> (r: Vec<i64>)
    ensures
        r@ == border_tiers(kind),
{
    let r = match kind {
        BorderKind::Monthly => vec![20, 30, 40, 50, 100, 200, 300, 500, 1000, 2000, 3000, 4000, 5000],
        BorderKind::Event => vec![
            20,
            30,
            40,
            50,
            100,
            200,
            300,
            500,
            1000,
            1500,
            2000,
            3000,
            4000,
            5000,
            10000,
            20000,
            30000,
            40000,
            50000,
            100000,
        ],
        BorderKind::Music => vec![
            20,
            30,
            40,
            50,
            100,
            200,
            300,
            500,
            1000,
            2000,
            5000,
            10000,
            20000,
            50000,
            100000,
        ],
    };
    assert(r@ =~= border_tiers(kind));
    r
}

/// Whether `tier` is a valid border tier of `kind`.
pub fn is_border_tier(kind: BorderKind, tier: i64) -> (r: bool)
    ensures
        r == border_tiers(kind).contains(tier),
{
    let tiers = tier_list(kind);
    let mut i: usize = 0;
    while i < tiers.len()
        invariant
            0 <= i <= tiers@.len(),
            tiers@ == border_tiers(kind),
            forall|k: int| 0 <= k < i ==> tiers@[k] != tier,
        decreases tiers.len() - i,
    {
        if tiers[i] == tier {
            assert(tiers@[i as int] == tier);
            return true;
        }
        i = i + 1;
    }
    false
}

/// Whether `tier` is a valid monthly-ranking border tier.
pub fn is_monthly_border_tier(tier: i64) -> (r: bool)
    ensures
        r == monthly_border_tiers().contains(tier),
{
    is_border_tier(BorderKind::Monthly, tier)
}

/// Whether `tier` is a valid event-wide border tier.
pub fn is_event_border_tier(tier: i64) -> (r: bool)
    ensures
        r == event_border_tiers().contains(tier),
{
    is_border_tier(BorderKind::Event, tier)
}

/// Whether `tier` is a valid per-song border tier.
pub fn is_music_border_tier(tier: i64) -> (r: bool)
    ensures
        r == music_border_tiers().contains(tier),
{
    is_border_tier(BorderKind::Music, tier)
}

// ---------------------------------------------------------------------------
// Documents
// ---------------------------------------------------------------------------

/// A single timestamped point in a top snapshot.
#[derive(Debug, Clone, Copy, PartialEq, Eq, Structural)]
pub struct TopPoint {
    pub time: i64,
    pub uid: i64,
    pub value: i64,
}

/// A single timestamped border cutoff.
#[derive(Debug, Clone, Copy, PartialEq, Eq, Structural)]
pub struct CutoffPoint {
    pub time: i64,
    pub ep: i64,
}

/// Player profile stored per server and uid.
pub struct PlayerDoc {
    pub server: i64,
    pub uid: i64,
    pub name: String,
    pub introduction: String,
    pub rank: i64,
    pub sid: i64,
    pub strained: i64,
    pub degrees: Vec<i64>,
    pub updated_at: i64,
}

impl PlayerDoc {
    /// The profile of a ranking user on `server`, updated at `ts`.
    pub fn from_user(server: i64, u: &RankingUser, ts: i64) -> (r: PlayerDoc)
        ensures
            r.server == server,
            r.uid == u.uid,
            r.name@ == u.name@,
            r.introduction@ == u.introduction@,
            r.rank == u.rank,
            r.sid == u.sid,
            r.strained == u.strained,
            r.degrees@ == u.degrees@,
            r.updated_at == ts,
    {
        let degrees = u.degrees.clone();
        assert(degrees@ =~= u.degrees@);
        PlayerDoc {
            server,
            uid: u.uid,
            name: u.name.clone(),
            introduction: u.introduction.clone(),
            rank: u.rank,
            sid: u.sid,
            strained: u.strained,
            degrees,
            updated_at: ts,
        }
    }
}

/// A per-server array: five slots, the JP value in slot 0, nothing elsewhere.
pub open spec fn is_server_array<T>(a: Seq<Option<T>>, value: T) -> bool {
    &&& a.len() == 5
    &&& a[0] == Some(value)
    &&& forall|k: int| 1 <= k < 5 ==> #[trigger] a[k] is None
}

/// Wraps the JP value of a per-server field into the 5-slot shape.
pub fn server_array<T>(value: T) -> (r: Vec<Option<T>>)
    ensures
        is_server_array(r@, value),
{
    let mut arr: Vec<Option<T>> = Vec::new();
    arr.push(Some(value));
    let mut i: usize = 1;
    while i < 5
        invariant
            1 <= i <= 5,
            arr@.len() == i,
            arr@[0] == Some(value),
            forall|k: int| 1 <= k < i ==> #[trigger] arr@[k] is None,
        decreases 5 - i,
    {
        arr.push(None);
        i = i + 1;
    }
    arr
}

/// Monthly ranking info document: per-server fields as 5-slot arrays.
pub struct MonthlyInfoDoc {
    pub monthly_ranking_id: i64,
    pub monthly_ranking_name: Vec<Option<String>>,
    pub asset_bundle_name: String,
    pub bgm_file_name: String,
    pub start_at: Vec<Option<i64>>,
    pub end_at: Vec<Option<i64>>,
    pub enable_flag: Vec<Option<bool>>,
    pub public_start_at: Vec<Option<i64>>,
    pub public_end_at: Vec<Option<i64>>,
    pub distribution_start_at: Vec<Option<i64>>,
    pub distribution_end_at: Vec<Option<i64>>,
    pub aggregate_end_at: Vec<Option<i64>>,
    pub reception_end_at: Vec<Option<i64>>,
    pub rewards: Vec<JsonValue>,
    pub grades: Vec<JsonValue>,
}

impl MonthlyInfoDoc {
    /// The document that stores a monthly ranking master entry.
    pub fn from_info(info: &MonthlyRankingInfo) -> (r: MonthlyInfoDoc)
        ensures
            r.monthly_ranking_id == info.monthly_ranking_id,
            is_server_array(r.monthly_ranking_name@, info.monthly_ranking_name),
            r.asset_bundle_name@ == info.asset_bundle_name@,
            r.bgm_file_name@ == info.bgm_file_name@,
            is_server_array(r.start_at@, info.start_at),
            is_server_array(r.end_at@, info.end_at),
            is_server_array(r.enable_flag@, info.enable_flg),
            is_server_array(r.public_start_at@, info.public_start_at),
            is_server_array(r.public_end_at@, info.public_end_at),
            is_server_array(r.distribution_start_at@, info.distribution_start_at),
            is_server_array(r.distribution_end_at@, info.distribution_end_at),
            is_server_array(r.aggregate_end_at@, info.aggregate_end_at),
            is_server_array(r.reception_end_at@, info.reception_end_at),
            json_list_view(r.rewards@) == json_list_view(info.rewards@),
            json_list_view(r.grades@) == json_list_view(info.grades@),
    {
        MonthlyInfoDoc {
            monthly_ranking_id: info.monthly_ranking_id,
            monthly_ranking_name: server_array(info.monthly_ranking_name.clone()),
            asset_bundle_name: info.asset_bundle_name.clone(),
            bgm_file_name: info.bgm_file_name.clone(),
            start_at: server_array(info.start_at),
            end_at: server_array(info.end_at),
            enable_flag: server_array(info.enable_flg),
            public_start_at: server_array(info.public_start_at),
            public_end_at: server_array(info.public_end_at),
            distribution_start_at: server_array(info.distribution_start_at),
            distribution_end_at: server_array(info.distribution_end_at),
            aggregate_end_at: server_array(info.aggregate_end_at),
            reception_end_at: server_array(info.reception_end_at),
            rewards: clone_list(&info.rewards),
            grades: clone_list(&info.grades),
        }
    }
}

/// Event document.
pub struct EventDoc {
    pub event_id: i64,
    pub event_type: String,
    pub event_name: String,
    pub asset_bundle_name: String,
    pub start_at: i64,
    pub end_at: i64,
    pub enable_flg: bool,
    pub public_start_at: i64,
    pub public_end_at: i64,
    pub distribution_start_at: i64,
    pub distribution_end_at: i64,
    pub bgm_asset_bundle_name: String,
    pub bgm_file_name: String,
    pub aggregate_end_at: i64,
    pub event_exchanges_end_at: i64,
    pub reception_end_at: i64,
    pub previous_event_id: i64,
}

impl EventDoc {
    /// The document that stores an event master entry: the same fields.
    pub fn from_info(e: &EventInfo) -> (r: EventDoc)
        ensures
            r.event_id == e.event_id,
            r.event_type@ == e.event_type@,
            r.event_name@ == e.event_name@,
            r.asset_bundle_name@ == e.asset_bundle_name@,
            r.start_at == e.start_at,
            r.end_at == e.end_at,
            r.enable_flg == e.enable_flg,
            r.public_start_at == e.public_start_at,
            r.public_end_at == e.public_end_at,
            r.distribution_start_at == e.distribution_start_at,
            r.distribution_end_at == e.distribution_end_at,
            r.bgm_asset_bundle_name@ == e.bgm_asset_bundle_name@,
            r.bgm_file_name@ == e.bgm_file_name@,
            r.aggregate_end_at == e.aggregate_end_at,
            r.event_exchanges_end_at == e.event_exchanges_end_at,
            r.reception_end_at == e.reception_end_at,
            r.previous_event_id == e.previous_event_id,
    {
        EventDoc {
            event_id: e.event_id,
            event_type: e.event_type.clone(),
            event_name: e.event_name.clone(),
            asset_bundle_name: e.asset_bundle_name.clone(),
            start_at: e.start_at,
            end_at: e.end_at,
            enable_flg: e.enable_flg,
            public_start_at: e.public_start_at,
            public_end_at: e.public_end_at,
            distribution_start_at: e.distribution_start_at,
            distribution_end_at: e.distribution_end_at,
            bgm_asset_bundle_name: e.bgm_asset_bundle_name.clone(),
            bgm_file_name: e.bgm_file_name.clone(),
            aggregate_end_at: e.aggregate_end_at,
            event_exchanges_end_at: e.event_exchanges_end_at,
            reception_end_at: e.reception_end_at,
            previous_event_id: e.previous_event_id,
        }
    }
}

// ---------------------------------------------------------------------------
// Active rankings
// ---------------------------------------------------------------------------

/// A ranking is active at `now` when it has started, and has not ended or
/// ended at most `window_secs` seconds ago. An end of 0 means no end.
pub open spec fn is_active(start: int, end: int, now: int, window_secs: int) -> bool {
    start > 0 && start <= now && (end == 0 || end + window_secs * 1000 >= now)
}

/// The JP slot of a per-server field, 0 when it is empty.
pub open spec fn jp_or_zero(a: Seq<Option<i64>>) -> i64 {
    if a.len() > 0 {
        match a[0] {
            Some(v) => v,
            None => 0,
        }
    } else {
        0
    }
}

/// The id and end of each monthly ranking active at `now`, in order.
pub open spec fn active_monthlies_spec(docs: Seq<MonthlyInfoDoc>, now: i64, window_secs: i64) -> Seq<
    (i64, i64),
>
    decreases docs.len(),
{
    if docs.len() == 0 {
        Seq::empty()
    } else {
        let rest = active_monthlies_spec(docs.subrange(0, docs.len() - 1), now, window_secs);
        let d = docs.last();
        let start = jp_or_zero(d.start_at@);
        let end = jp_or_zero(d.end_at@);
        if is_active(start as int, end as int, now as int, window_secs as int) {
            rest.push((d.monthly_ranking_id, end))
        } else {
            rest
        }
    }
}

fn jp_slot(a: &Vec<Option<i64>>) -> (r: i64)
    ensures
        r == jp_or_zero(a@),
{
    if a.len() > 0 {
        match a[0] {
            Some(v) => v,
            None => 0,
        }
    } else {
        0
    }
}

fn active_at(start: i64, end: i64, now: i64, window_secs: i64) -> (r: bool)
    ensures
        r == is_active(start as int, end as int, now as int, window_secs as int),
{
    start > 0 && start <= now && (end == 0 || (end as i128) + (window_secs as i128) * 1000
        >= now as i128)
}

/// Active monthly rankings: started, and not ended or within `window_secs`
/// after the end. Gives each one's id and end.
pub fn active_monthlies(docs: &Vec<MonthlyInfoDoc>, now: i64, window_secs: i64) -> (r: Vec<
    (i64, i64),
>)
    ensures
        r@ == active_monthlies_spec(docs@, now, window_secs),
{
    let mut out: Vec<(i64, i64)> = Vec::new();
    let mut i: usize = 0;
    assert(docs@.subrange(0, 0) =~= Seq::<MonthlyInfoDoc>::empty());
    while i < docs.len()
        invariant
            0 <= i <= docs@.len(),
            out@ == active_monthlies_spec(docs@.subrange(0, i as int), now, window_secs),
        decreases docs.len() - i,
    {
        let ghost sub = docs@.subrange(0, i + 1);
        assert(sub.subrange(0, sub.len() - 1) =~= docs@.subrange(0, i as int));
        let d = &docs[i];
        let start = jp_slot(&d.start_at);
        let end = jp_slot(&d.end_at);
        if active_at(start, end, now, window_secs) {
            out.push((d.monthly_ranking_id, end));
        }
        i = i + 1;
    }
    assert(docs@.subrange(0, docs@.len() as int) =~= docs@);
    out
}

/// The largest id of a list of rankings.
pub open spec fn max_id(actives: Seq<(i64, i64)>) -> Option<i64>
    decreases actives.len(),
{
    if actives.len() == 0 {
        None
    } else {
        let id = actives.last().0;
        match max_id(actives.subrange(0, actives.len() - 1)) {
            Some(m) => if m >= id {
                Some(m)
            } else {
                Some(id)
            },
            None => Some(id),
        }
    }
}

/// The id of the current monthly ranking: the largest id among the active ones.
pub fn active_monthly_id(actives: &Vec<(i64, i64)>) -> (r: Option<i64>)
    ensures
        r == max_id(actives@),
        r matches Some(m) ==> exists|k: int| 0 <= k < actives@.len() && actives@[k].0 == m,
        r matches Some(m) ==> forall|k: int| 0 <= k < actives@.len() ==> actives@[k].0 <= m,
        r is None <==> actives@.len() == 0,
{
    let mut best: Option<i64> = None;
    let mut i: usize = 0;
    assert(actives@.subrange(0, 0) =~= Seq::<(i64, i64)>::empty());
    while i < actives.len()
        invariant
            0 <= i <= actives@.len(),
            best == max_id(actives@.subrange(0, i as int)),
            best is None <==> i == 0,
            best matches Some(m) ==> exists|k: int| 0 <= k < i && actives@[k].0 == m,
            best matches Some(m) ==> forall|k: int| 0 <= k < i ==> actives@[k].0 <= m,
        decreases actives.len() - i,
    {
        let ghost sub = actives@.subrange(0, i + 1);
        assert(sub.subrange(0, sub.len() - 1) =~= actives@.subrange(0, i as int));
        let id = actives[i].0;
        best = match best {
            Some(m) => if m >= id {
                Some(m)
            } else {
                Some(id)
            },
            None => Some(id),
        };
        i = i + 1;
    }
    assert(actives@.subrange(0, actives@.len() as int) =~= actives@);
    best
}

/// The id and end of each event active at `now`, in order.
pub open spec fn active_events_spec(docs: Seq<EventDoc>, now: i64, window_secs: i64) -> Seq<
    (i64, i64),
>
    decreases docs.len(),
{
    if docs.len() == 0 {
        Seq::empty()
    } else {
        let rest = active_events_spec(docs.subrange(0, docs.len() - 1), now, window_secs);
        let d = docs.last();
        if is_active(d.start_at as int, d.end_at as int, now as int, window_secs as int) {
            rest.push((d.event_id, d.end_at))
        } else {
            rest
        }
    }
}

/// Active events: started, and not ended or within `window_secs` after
/// the end. Gives each one's id and end.
pub fn active_events(docs: &Vec<EventDoc>, now: i64, window_secs: i64) -> (r: Vec<(i64, i64)>)
    ensures
        r@ == active_events_spec(docs@, now, window_secs),
{
    let mut out: Vec<(i64, i64)> = Vec::new();
    let mut i: usize = 0;
    assert(docs@.subrange(0, 0) =~= Seq::<EventDoc>::empty());
    while i < docs.len()
        invariant
            0 <= i <= docs@.len(),
            out@ == active_events_spec(docs@.subrange(0, i as int), now, window_secs),
        decreases docs.len() - i,
    {
        let ghost sub = docs@.subrange(0, i + 1);
        assert(sub.subrange(0, sub.len() - 1) =~= docs@.subrange(0, i as int));
        let d = &docs[i];
        if active_at(d.start_at, d.end_at, now, window_secs) {
            out.push((d.event_id, d.end_at));
        }
        i = i + 1;
    }
    assert(docs@.subrange(0, docs@.len() as int) =~= docs@);
    out
}

// ---------------------------------------------------------------------------
// Buckets and top snapshots
// ---------------------------------------------------------------------------

/// Milliseconds in a day.
pub const DAY_MS: i64 = 86_400_000;

/// The UTC day of a timestamp in milliseconds: `ts.div_euclid(86_400_000)`.
/// Buckets are internal sharding keys; API output does not show them.
pub fn utc_bucket(ts: i64) -> (r: i64)
    ensures
        r == ts as int / 86_400_000,
{
    if ts >= 0 {
        ts / DAY_MS
    } else {
        let m: i64 = -(ts + 1);
        let q = m / DAY_MS;
        assert(-q - 1 == ts as int / 86_400_000) by (nonlinear_arith)
            requires
                m == -(ts + 1),
                m >= 0,
                q == m / 86_400_000,
        ;
        -q - 1
    }
}

/// The first day bucket that a top query from `since` reads: none for a
/// `since` of 0 or less, which reads every bucket.
pub fn first_bucket(since: i64) -> (r: Option<i64>)
    ensures
        r == (if since > 0 {
            Some((since as int / 86_400_000) as i64)
        } else {
            None::<i64>
        }),
{
    if since > 0 {
        Some(since / DAY_MS)
    } else {
        None
    }
}

/// The points of a top snapshot at `ts`: one per user, in order.
pub open spec fn top_points_spec(users: Seq<RankingUser>, ts: i64) -> Seq<TopPoint> {
    Seq::new(users.len(), |i: int| TopPoint { time: ts, uid: users[i].uid, value: users[i].point })
}

/// The points of a top snapshot at `ts`.
pub fn top_points(users: &Vec<RankingUser>, ts: i64) -> (r: Vec<TopPoint>)
    ensures
        r@ == top_points_spec(users@, ts),
{
    let mut out: Vec<TopPoint> = Vec::new();
    let mut i: usize = 0;
    while i < users.len()
        invariant
            0 <= i <= users@.len(),
            out@ == top_points_spec(users@, ts).subrange(0, i as int),
        decreases users.len() - i,
    {
        out.push(TopPoint { time: ts, uid: users[i].uid, value: users[i].point });
        i = i + 1;
        assert(out@ =~= top_points_spec(users@, ts).subrange(0, i as int));
    }
    assert(top_points_spec(users@, ts).subrange(0, users@.len() as int) =~= top_points_spec(
        users@,
        ts,
    ));
    out
}

/// The player profiles that a top snapshot at `ts` upserts on `server`.
pub fn player_docs(server: i64, users: &Vec<RankingUser>, ts: i64) -> (r: Vec<PlayerDoc>)
    ensures
        r@.len() == users@.len(),
        forall|i: int|
            #![trigger r@[i]]
            0 <= i < r@.len() ==> {
                &&& r@[i].server == server
                &&& r@[i].uid == users@[i].uid
                &&& r@[i].name@ == users@[i].name@
                &&& r@[i].introduction@ == users@[i].introduction@
                &&& r@[i].rank == users@[i].rank
                &&& r@[i].sid == users@[i].sid
                &&& r@[i].strained == users@[i].strained
                &&& r@[i].degrees@ == users@[i].degrees@
                &&& r@[i].updated_at == ts
            },
{
    let mut out: Vec<PlayerDoc> = Vec::new();
    let mut i: usize = 0;
    while i < users.len()
        invariant
            0 <= i <= users@.len(),
            out@.len() == i,
            forall|k: int|
                #![trigger out@[k]]
                0 <= k < i ==> {
                    &&& out@[k].server == server
                    &&& out@[k].uid == users@[k].uid
                    &&& out@[k].name@ == users@[k].name@
                    &&& out@[k].introduction@ == users@[k].introduction@
                    &&& out@[k].rank == users@[k].rank
                    &&& out@[k].sid == users@[k].sid
                    &&& out@[k].strained == users@[k].strained
                    &&& out@[k].degrees@ == users@[k].degrees@
                    &&& out@[k].updated_at == ts
                },
        decreases users.len() - i,
    {
        out.push(PlayerDoc::from_user(server, &users[i], ts));
        i = i + 1;
    }
    out
}

// ---------------------------------------------------------------------------
// Snapshot series writes
// ---------------------------------------------------------------------------

/// How a batch is written to the series document of its bucket or tier.
#[derive(Debug, Clone, Copy, PartialEq, Eq, Structural)]
pub enum SeriesWrite {
    /// No document yet: insert one holding the batch.
    Insert,
    /// The batch is newer than the document: append it.
    Append,
    /// The batch has the document's own time: the document's items of that
    /// time are replaced by the batch, the other items and `updatedAt`
    /// stay. A repeated write of the same batch so changes nothing.
    Refresh,
    /// The batch is older than the document: it replaces the document's
    /// items, and its time becomes the document's `updatedAt`.
    Replace,
}

/// The write for a batch at `ts`, given the `updatedAt` of the document
/// already stored (`Some(None)` for a document without one, read as 0).
pub open spec fn series_write_spec(existing: Option<Option<i64>>, ts: i64) -> SeriesWrite {
    match existing {
        None => SeriesWrite::Insert,
        Some(u) => {
            let last = match u {
                Some(v) => v,
                None => 0,
            };
            if last < ts {
                SeriesWrite::Append
            } else if last == ts {
                SeriesWrite::Refresh
            } else {
                SeriesWrite::Replace
            }
        },
    }
}

/// Decides how a batch at `ts` is written: appended when newer than the
/// stored document, refreshing the items of its time when it has the
/// document's time, replacing the items when older, inserted when there is
/// no document.
pub fn series_write(existing: Option<Option<i64>>, ts: i64) -> (r: SeriesWrite)
    ensures
        r == series_write_spec(existing, ts),
{
    match existing {
        None => SeriesWrite::Insert,
        Some(u) => {
            let last = match u {
                Some(v) => v,
                None => 0,
            };
            if last < ts {
                SeriesWrite::Append
            } else if last == ts {
                SeriesWrite::Refresh
            } else {
                SeriesWrite::Replace
            }
        },
    }
}

/// A stored series document: its items and its `updatedAt`.
pub struct StoredSeries<T> {
    pub items: Seq<T>,
    pub updated_at: i64,
}

/// No item of a series is newer than its `updatedAt`, as the writes keep it.
pub open spec fn series_wf<T>(doc: StoredSeries<T>, time_of: spec_fn(T) -> i64) -> bool {
    forall|i: int| 0 <= i < doc.items.len() ==> time_of(#[trigger] doc.items[i]) <= doc.updated_at
}

/// `items` without those of time `ts`, in order.
pub open spec fn drop_time<T>(items: Seq<T>, ts: i64, time_of: spec_fn(T) -> i64) -> Seq<T>
    decreases items.len(),
{
    if items.len() == 0 {
        items
    } else {
        let rest = drop_time(items.drop_last(), ts, time_of);
        if time_of(items.last()) == ts {
            rest
        } else {
            rest.push(items.last())
        }
    }
}

/// The document after writing `batch` at `ts` as `series_write` decides;
/// `time_of` gives an item's time.
pub open spec fn apply_series_write<T>(
    existing: Option<StoredSeries<T>>,
    ts: i64,
    batch: Seq<T>,
    time_of: spec_fn(T) -> i64,
) -> StoredSeries<T> {
    match existing {
        None => StoredSeries { items: batch, updated_at: ts },
        Some(doc) => match series_write_spec(Some(Some(doc.updated_at)), ts) {
            SeriesWrite::Append => StoredSeries { items: doc.items + batch, updated_at: ts },
            SeriesWrite::Refresh => StoredSeries {
                items: drop_time(doc.items, ts, time_of) + batch,
                updated_at: doc.updated_at,
            },
            _ => StoredSeries { items: batch, updated_at: ts },
        },
    }
}

proof fn lemma_drop_time_add<T>(a: Seq<T>, b: Seq<T>, ts: i64, time_of: spec_fn(T) -> i64)
    ensures
        drop_time(a + b, ts, time_of) == drop_time(a, ts, time_of) + drop_time(b, ts, time_of),
    decreases b.len(),
{
    if b.len() == 0 {
        assert(a + b =~= a);
        assert(drop_time(a, ts, time_of) + drop_time(b, ts, time_of) =~= drop_time(a, ts, time_of));
    } else {
        lemma_drop_time_add(a, b.drop_last(), ts, time_of);
        assert((a + b).drop_last() =~= a + b.drop_last());
        assert((a + b).last() == b.last());
        let x = drop_time(a, ts, time_of);
        let y = drop_time(b.drop_last(), ts, time_of);
        assert((x + y).push(b.last()) =~= x + y.push(b.last()));
    }
}

proof fn lemma_drop_time_keeps<T>(items: Seq<T>, ts: i64, time_of: spec_fn(T) -> i64)
    requires
        forall|i: int| 0 <= i < items.len() ==> time_of(#[trigger] items[i]) != ts,
    ensures
        drop_time(items, ts, time_of) == items,
    decreases items.len(),
{
    if items.len() > 0 {
        let p = items.drop_last();
        assert forall|i: int| 0 <= i < p.len() implies time_of(#[trigger] p[i]) != ts by {
            assert(p[i] == items[i]);
        }
        lemma_drop_time_keeps(p, ts, time_of);
        assert(p.push(items.last()) =~= items);
    }
}

proof fn lemma_drop_time_drops<T>(items: Seq<T>, ts: i64, time_of: spec_fn(T) -> i64)
    requires
        forall|i: int| 0 <= i < items.len() ==> time_of(#[trigger] items[i]) == ts,
    ensures
        drop_time(items, ts, time_of) == Seq::<T>::empty(),
    decreases items.len(),
{
    if items.len() > 0 {
        let p = items.drop_last();
        assert forall|i: int| 0 <= i < p.len() implies time_of(#[trigger] p[i]) == ts by {
            assert(p[i] == items[i]);
        }
        lemma_drop_time_drops(p, ts, time_of);
    } else {
        assert(items =~= Seq::<T>::empty());
    }
}

proof fn lemma_drop_time_other<T>(items: Seq<T>, ts: i64, time_of: spec_fn(T) -> i64)
    ensures
        forall|i: int|
            0 <= i < drop_time(items, ts, time_of).len() ==> time_of(
                #[trigger] drop_time(items, ts, time_of)[i],
            ) != ts,
    decreases items.len(),
{
    if items.len() > 0 {
        lemma_drop_time_other(items.drop_last(), ts, time_of);
        let rest = drop_time(items.drop_last(), ts, time_of);
        if time_of(items.last()) != ts {
            assert forall|i: int| 0 <= i < rest.push(items.last()).len() implies time_of(
                #[trigger] rest.push(items.last())[i],
            ) != ts by {
                if i < rest.len() {
                    assert(rest.push(items.last())[i] == rest[i]);
                }
            }
        }
    }
}

/// A batch newer than its document is appended: the stored history is
/// kept, and the batch follows it.
pub proof fn law_series_append_keeps_history<T>(
    doc: StoredSeries<T>,
    ts: i64,
    batch: Seq<T>,
    time_of: spec_fn(T) -> i64,
)
    requires
        doc.updated_at < ts,
    ensures
        apply_series_write(Some(doc), ts, batch, time_of).items == doc.items + batch,
        apply_series_write(Some(doc), ts, batch, time_of).updated_at == ts,
{
}

/// A batch older than its document replaces the document's items, and
/// its time becomes the document's `updatedAt`.
pub proof fn law_series_older_batch_replaces<T>(
    doc: StoredSeries<T>,
    ts: i64,
    batch: Seq<T>,
    time_of: spec_fn(T) -> i64,
)
    requires
        doc.updated_at > ts,
    ensures
        apply_series_write(Some(doc), ts, batch, time_of).items == batch,
        apply_series_write(Some(doc), ts, batch, time_of).updated_at == ts,
{
}

/// Writes are idempotent: writing a snapshot's batch (all of its items of
/// time `ts`) twice stores what writing it once stores, whatever the
/// document held before.
pub proof fn law_series_write_idempotent<T>(
    existing: Option<StoredSeries<T>>,
    ts: i64,
    batch: Seq<T>,
    time_of: spec_fn(T) -> i64,
)
    requires
        existing matches Some(doc) ==> series_wf(doc, time_of),
        forall|i: int| 0 <= i < batch.len() ==> time_of(#[trigger] batch[i]) == ts,
    ensures
        apply_series_write(Some(apply_series_write(existing, ts, batch, time_of)), ts, batch, time_of)
            == apply_series_write(existing, ts, batch, time_of),
{
    let once = apply_series_write(existing, ts, batch, time_of);
    let twice = apply_series_write(Some(once), ts, batch, time_of);
    lemma_drop_time_drops(batch, ts, time_of);
    match existing {
        None => {
            lemma_drop_time_add(Seq::<T>::empty(), batch, ts, time_of);
            assert(twice.items =~= drop_time(batch, ts, time_of) + batch);
            assert(twice.items =~= once.items);
        },
        Some(doc) => {
            if doc.updated_at < ts {
                lemma_drop_time_add(doc.items, batch, ts, time_of);
                assert forall|i: int| 0 <= i < doc.items.len() implies time_of(#[trigger] doc.items[i]) != ts by {
                    assert(time_of(doc.items[i]) <= doc.updated_at);
                }
                lemma_drop_time_keeps(doc.items, ts, time_of);
                assert(twice.items =~= doc.items + Seq::<T>::empty() + batch);
                assert(twice.items =~= once.items);
            } else if doc.updated_at == ts {
                let kept = drop_time(doc.items, ts, time_of);
                lemma_drop_time_add(kept, batch, ts, time_of);
                lemma_drop_time_other(doc.items, ts, time_of);
                lemma_drop_time_keeps(kept, ts, time_of);
                assert(twice.items =~= kept + Seq::<T>::empty() + batch);
                assert(twice.items =~= once.items);
            } else {
                lemma_drop_time_add(Seq::<T>::empty(), batch, ts, time_of);
                assert(twice.items =~= drop_time(batch, ts, time_of) + batch);
                assert(twice.items =~= once.items);
            }
        },
    }
}

/// The writes keep a series well formed: no item newer than `updatedAt`.
pub proof fn law_series_write_keeps_wf<T>(
    existing: Option<StoredSeries<T>>,
    ts: i64,
    batch: Seq<T>,
    time_of: spec_fn(T) -> i64,
)
    requires
        existing matches Some(doc) ==> series_wf(doc, time_of),
        forall|i: int| 0 <= i < batch.len() ==> time_of(#[trigger] batch[i]) == ts,
    ensures
        series_wf(apply_series_write(existing, ts, batch, time_of), time_of),
{
    let once = apply_series_write(existing, ts, batch, time_of);
    match existing {
        None => {},
        Some(doc) => {
            if doc.updated_at < ts {
                assert forall|i: int| 0 <= i < once.items.len() implies time_of(#[trigger] once.items[i]) <= once.updated_at by {
                    if i < doc.items.len() {
                        assert(once.items[i] == doc.items[i]);
                    } else {
                        assert(once.items[i] == batch[i - doc.items.len()]);
                    }
                }
            } else if doc.updated_at == ts {
                let kept = drop_time(doc.items, ts, time_of);
                lemma_drop_time_subset(doc.items, ts, time_of);
                assert forall|i: int| 0 <= i < once.items.len() implies time_of(#[trigger] once.items[i]) <= once.updated_at by {
                    if i < kept.len() {
                        assert(once.items[i] == kept[i]);
                        assert(time_of(kept[i]) <= doc.updated_at);
                    } else {
                        assert(once.items[i] == batch[i - kept.len()]);
                    }
                }
            }
        },
    }
}

proof fn lemma_drop_time_subset<T>(items: Seq<T>, ts: i64, time_of: spec_fn(T) -> i64)
    ensures
        forall|i: int|
            0 <= i < drop_time(items, ts, time_of).len() ==> items.contains(
                #[trigger] drop_time(items, ts, time_of)[i],
            ),
    decreases items.len(),
{
    if items.len() > 0 {
        let p = items.drop_last();
        lemma_drop_time_subset(p, ts, time_of);
        let rest = drop_time(p, ts, time_of);
        let d = drop_time(items, ts, time_of);
        assert forall|i: int| 0 <= i < d.len() implies items.contains(#[trigger] d[i]) by {
            if i < rest.len() {
                assert(d[i] == rest[i]);
                assert(p.contains(rest[i]));
                let j = choose|j: int| 0 <= j < p.len() && p[j] == rest[i];
                assert(items[j] == p[j]);
            } else {
                assert(d[i] == items.last());
                assert(items[items.len() - 1] == items.last());
            }
        }
    }
}

// ---------------------------------------------------------------------------
// Border cutoffs
// ---------------------------------------------------------------------------

/// The cutoffs at `ts` of the border users whose tier is `tier`, in order.
pub open spec fn tier_cutoffs(users: Seq<RankingUser>, tier: i64, ts: i64) -> Seq<CutoffPoint>
    decreases users.len(),
{
    if users.len() == 0 {
        Seq::empty()
    } else {
        let rest = tier_cutoffs(users.subrange(0, users.len() - 1), tier, ts);
        if users.last().tier == tier {
            rest.push(CutoffPoint { time: ts, ep: users.last().point })
        } else {
            rest
        }
    }
}

/// The cutoff series that a border snapshot writes: for each tier of
/// `tiers` that some user holds, in the order of `tiers`, the cutoffs of
/// that tier.
pub open spec fn border_groups_spec(users: Seq<RankingUser>, ts: i64, tiers: Seq<i64>) -> Seq<
    (i64, Seq<CutoffPoint>),
>
    decreases tiers.len(),
{
    if tiers.len() == 0 {
        Seq::empty()
    } else {
        let rest = border_groups_spec(users, ts, tiers.subrange(0, tiers.len() - 1));
        let t = tiers.last();
        let g = tier_cutoffs(users, t, ts);
        if g.len() > 0 {
            rest.push((t, g))
        } else {
            rest
        }
    }
}

/// The number of cutoffs in a list of series.
pub open spec fn total_cutoffs(groups: Seq<(i64, Seq<CutoffPoint>)>) -> nat
    decreases groups.len(),
{
    if groups.len() == 0 {
        0
    } else {
        total_cutoffs(groups.subrange(0, groups.len() - 1)) + groups.last().1.len()
    }
}

/// The views of cutoff series.
pub open spec fn groups_view(groups: Seq<(i64, Vec<CutoffPoint>)>) -> Seq<(i64, Seq<CutoffPoint>)> {
    groups.map_values(|g: (i64, Vec<CutoffPoint>)| (g.0, g.1@))
}

/// The cutoff series of a border snapshot, by tier, and how many cutoffs
/// they hold.
pub struct BorderBatch {
    pub groups: Vec<(i64, Vec<CutoffPoint>)>,
    pub written: usize,
}

/// The number of users whose tier is one of `tiers`.
pub open spec fn count_in_tiers(users: Seq<RankingUser>, tiers: Seq<i64>) -> nat
    decreases users.len(),
{
    if users.len() == 0 {
        0
    } else {
        count_in_tiers(users.subrange(0, users.len() - 1), tiers) + if tiers.contains(
            users.last().tier,
        ) {
            1nat
        } else {
            0nat
        }
    }
}

proof fn lemma_count_in_tiers_push(users: Seq<RankingUser>, tiers: Seq<i64>, t: i64, ts: i64)
    requires
        !tiers.contains(t),
    ensures
        count_in_tiers(users, tiers.push(t)) == count_in_tiers(users, tiers) + tier_cutoffs(
            users,
            t,
            ts,
        ).len(),
    decreases users.len(),
{
    if users.len() > 0 {
        lemma_count_in_tiers_push(users.subrange(0, users.len() - 1), tiers, t, ts);
        let u = users.last();
        if u.tier == t {
            assert(tiers.push(t)[tiers.len() as int] == t);
        }
        if tiers.push(t).contains(u.tier) && u.tier != t {
            let k = choose|k: int| 0 <= k < tiers.len() + 1 && tiers.push(t)[k] == u.tier;
            assert(tiers[k] == u.tier);
        }
        if tiers.contains(u.tier) {
            let k = choose|k: int| 0 <= k < tiers.len() && tiers[k] == u.tier;
            assert(tiers.push(t)[k] == u.tier);
        }
    }
}

proof fn lemma_count_in_tiers_bound(users: Seq<RankingUser>, tiers: Seq<i64>)
    ensures
        count_in_tiers(users, tiers) <= users.len(),
    decreases users.len(),
{
    if users.len() > 0 {
        lemma_count_in_tiers_bound(users.subrange(0, users.len() - 1), tiers);
    }
}

/// Every cutoff a border snapshot writes belongs to exactly one user with
/// a listed tier: the series hold as many cutoffs as there are such users.
pub proof fn law_border_cutoffs_counted(users: Seq<RankingUser>, ts: i64, tiers: Seq<i64>)
    requires
        tiers.no_duplicates(),
    ensures
        total_cutoffs(border_groups_spec(users, ts, tiers)) == count_in_tiers(users, tiers),
    decreases tiers.len(),
{
    if tiers.len() == 0 {
        lemma_count_in_tiers_zero(users, tiers);
    } else {
        let front = tiers.subrange(0, tiers.len() - 1);
        let t = tiers.last();
        assert(front.no_duplicates());
        law_border_cutoffs_counted(users, ts, front);
        assert(!front.contains(t)) by {
            if front.contains(t) {
                let k = choose|k: int| 0 <= k < front.len() && front[k] == t;
                assert(tiers[k] == tiers[tiers.len() - 1]);
            }
        }
        assert(front.push(t) =~= tiers);
        lemma_count_in_tiers_push(users, front, t, ts);
        let rest = border_groups_spec(users, ts, front);
        let g = tier_cutoffs(users, t, ts);
        if g.len() > 0 {
            assert(rest.push((t, g)).subrange(0, rest.len() as int) =~= rest);
        }
    }
}

proof fn lemma_count_in_tiers_zero(users: Seq<RankingUser>, tiers: Seq<i64>)
    requires
        tiers.len() == 0,
    ensures
        count_in_tiers(users, tiers) == 0,
    decreases users.len(),
{
    if users.len() > 0 {
        lemma_count_in_tiers_zero(users.subrange(0, users.len() - 1), tiers);
    }
}

/// The series of a border snapshot follow the listed tiers: where the tiers
/// ascend, so do the series, one per tier.
pub proof fn law_border_groups_ascending(users: Seq<RankingUser>, ts: i64, tiers: Seq<i64>)
    requires
        forall|i: int, j: int| 0 <= i < j < tiers.len() ==> tiers[i] < tiers[j],
    ensures
        forall|i: int, j: int|
            0 <= i < j < border_groups_spec(users, ts, tiers).len() ==> border_groups_spec(
                users,
                ts,
                tiers,
            )[i].0 < border_groups_spec(users, ts, tiers)[j].0,
        forall|i: int|
            0 <= i < border_groups_spec(users, ts, tiers).len() ==> tiers.contains(
                #[trigger] border_groups_spec(users, ts, tiers)[i].0,
            ),
        forall|i: int|
            0 <= i < border_groups_spec(users, ts, tiers).len() ==> #[trigger] border_groups_spec(
                users,
                ts,
                tiers,
            )[i].1.len() > 0,
    decreases tiers.len(),
{
    if tiers.len() > 0 {
        let front = tiers.subrange(0, tiers.len() - 1);
        let t = tiers.last();
        law_border_groups_ascending(users, ts, front);
        let rest = border_groups_spec(users, ts, front);
        assert forall|i: int| 0 <= i < rest.len() implies #[trigger] rest[i].0 < t && tiers.contains(rest[i].0) by {
            assert(front.contains(rest[i].0));
            let k = choose|k: int| 0 <= k < front.len() && front[k] == rest[i].0;
            assert(tiers[k] == rest[i].0);
        }
        assert(tiers[tiers.len() - 1] == t);
    }
}

/// The cutoffs at `ts` of the users with tier `tier`.
fn cutoffs_of_tier(users: &Vec<RankingUser>, tier: i64, ts: i64) -> (r: Vec<CutoffPoint>)
    ensures
        r@ == tier_cutoffs(users@, tier, ts),
{
    let mut out: Vec<CutoffPoint> = Vec::new();
    let mut i: usize = 0;
    assert(users@.subrange(0, 0) =~= Seq::<RankingUser>::empty());
    while i < users.len()
        invariant
            0 <= i <= users@.len(),
            out@ == tier_cutoffs(users@.subrange(0, i as int), tier, ts),
        decreases users.len() - i,
    {
        let ghost sub = users@.subrange(0, i + 1);
        assert(sub.subrange(0, sub.len() - 1) =~= users@.subrange(0, i as int));
        if users[i].tier == tier {
            out.push(CutoffPoint { time: ts, ep: users[i].point });
        }
        i = i + 1;
    }
    assert(users@.subrange(0, users@.len() as int) =~= users@);
    out
}

/// Groups the border users of a snapshot at `ts` into one cutoff series per
/// valid tier of `kind`, ascending by tier; users of other tiers are left out.
pub fn border_batch(users: &Vec<RankingUser>, ts: i64, kind: BorderKind) -> (r: BorderBatch)
    ensures
        groups_view(r.groups@) == border_groups_spec(users@, ts, border_tiers(kind)),
        r.written == total_cutoffs(border_groups_spec(users@, ts, border_tiers(kind))),
{
    let tiers = tier_list(kind);
    let user_count = users.len();
    let ghost all = border_tiers(kind);
    let mut groups: Vec<(i64, Vec<CutoffPoint>)> = Vec::new();
    let mut written: usize = 0;
    let mut i: usize = 0;
    assert(groups_view(groups@) =~= border_groups_spec(users@, ts, all.subrange(0, 0)));
    assert(all.no_duplicates());
    while i < tiers.len()
        invariant
            0 <= i <= tiers@.len(),
            tiers@ == all,
            all == border_tiers(kind),
            all.no_duplicates(),
            user_count == users@.len(),
            groups_view(groups@) == border_groups_spec(users@, ts, all.subrange(0, i as int)),
            written == total_cutoffs(border_groups_spec(users@, ts, all.subrange(0, i as int))),
        decreases tiers.len() - i,
    {
        let ghost front = all.subrange(0, i as int);
        let ghost sub = all.subrange(0, i + 1);
        assert(sub.subrange(0, sub.len() - 1) =~= front);
        let t = tiers[i];
        let cutoffs = cutoffs_of_tier(users, t, ts);
        proof {
            assert(sub.no_duplicates());
            law_border_cutoffs_counted(users@, ts, sub);
            lemma_count_in_tiers_bound(users@, sub);
            if cutoffs@.len() > 0 {
                let rest = border_groups_spec(users@, ts, front);
                assert(rest.push((t, cutoffs@)).subrange(0, rest.len() as int) =~= rest);
            }
        }
        if cutoffs.len() > 0 {
            let n = cutoffs.len();
            proof {
                let rest = border_groups_spec(users@, ts, front);
                assert(border_groups_spec(users@, ts, sub) == rest.push((t, cutoffs@)));
                assert(total_cutoffs(rest.push((t, cutoffs@))) == total_cutoffs(rest) + n);
                assert(written + n <= users@.len());
            }
            let ghost before = groups@;
            groups.push((t, cutoffs));
            assert(groups_view(groups@) =~= groups_view(before).push((t, tier_cutoffs(users@, t, ts))));
            written = written + n;
        }
        i = i + 1;
    }
    assert(all.subrange(0, tiers@.len() as int) =~= all);
    BorderBatch { groups, written }
}

// ---------------------------------------------------------------------------
// Reading top snapshots back
// ---------------------------------------------------------------------------

/// `perm` maps each position of `out` to a position of `input` holding the
/// same item, and the pairs of time and input position increase along
/// `out`: `out` is `input` sorted by time, equal times in input order.
pub open spec fn is_point_time_order(input: Seq<TopPoint>, out: Seq<TopPoint>, perm: Seq<int>) -> bool {
    &&& out.len() == input.len()
    &&& perm.len() == input.len()
    &&& forall|k: int| 0 <= k < out.len() ==> 0 <= #[trigger] perm[k] < input.len() && out[k] == input[perm[k]]
    &&& forall|k: int, l: int|
        #![trigger out[k], out[l]]
        0 <= k < l < out.len() ==> (out[k].time < out[l].time || (out[k].time == out[l].time
            && perm[k] < perm[l]))
}

/// `out` is the stable sort of `input` by time.
pub open spec fn points_sorted_by_time(input: Seq<TopPoint>, out: Seq<TopPoint>) -> bool {
    exists|perm: Seq<int>| is_point_time_order(input, out, perm)
}

/// As `is_point_time_order`, for cutoffs.
pub open spec fn is_cutoff_time_order(input: Seq<CutoffPoint>, out: Seq<CutoffPoint>, perm: Seq<int>) -> bool {
    &&& out.len() == input.len()
    &&& perm.len() == input.len()
    &&& forall|k: int| 0 <= k < out.len() ==> 0 <= #[trigger] perm[k] < input.len() && out[k] == input[perm[k]]
    &&& forall|k: int, l: int|
        #![trigger out[k], out[l]]
        0 <= k < l < out.len() ==> (out[k].time < out[l].time || (out[k].time == out[l].time
            && perm[k] < perm[l]))
}

/// `out` is the stable sort of `input` by time.
pub open spec fn cutoffs_sorted_by_time(input: Seq<CutoffPoint>, out: Seq<CutoffPoint>) -> bool {
    exists|perm: Seq<int>| is_cutoff_time_order(input, out, perm)
}

/// Sorts top points by time, keeping the order of equal times.
pub fn sort_points_by_time(points: &Vec<TopPoint>) -> (r: Vec<TopPoint>)
    ensures
        points_sorted_by_time(points@, r@),
{
    let mut keys: Vec<SortKey> = Vec::new();
    let mut i: usize = 0;
    while i < points.len()
        invariant
            0 <= i <= points@.len(),
            keys@.len() == i,
            forall|k: int| 0 <= k < i ==> #[trigger] keys@[k] == (points@[k].time, 0i64, 0i64, k as usize),
        decreases points.len() - i,
    {
        keys.push((points[i].time, 0, 0, i));
        i = i + 1;
    }
    let ghost input = keys@;
    let sorted = sort_keys(keys);
    proof {
        lemma_sorted_indexed(input, sorted@);
    }
    let mut out: Vec<TopPoint> = Vec::new();
    let mut k: usize = 0;
    while k < sorted.len()
        invariant
            0 <= k <= sorted@.len(),
            sorted@.len() == points@.len(),
            out@.len() == k,
            forall|m: int| 0 <= m < sorted@.len() ==> 0 <= (#[trigger] sorted@[m]).3 < points@.len() && sorted@[m] == input[sorted@[m].3 as int],
            forall|m: int| 0 <= m < input.len() ==> #[trigger] input[m] == (points@[m].time, 0i64, 0i64, m as usize),
            forall|m: int| 0 <= m < k ==> #[trigger] out@[m] == points@[sorted@[m].3 as int],
        decreases sorted.len() - k,
    {
        out.push(points[sorted[k].3]);
        k = k + 1;
    }
    let ghost perm = Seq::new(sorted@.len(), |m: int| sorted@[m].3 as int);
    proof {
        assert forall|a: int| 0 <= a < out@.len() implies (0 <= #[trigger] perm[a] < points@.len() && out@[a] == points@[perm[a]]) by {
            assert(out@[a] == points@[sorted@[a].3 as int]);
        }
        assert forall|k: int, l: int|
            #![trigger out@[k], out@[l]]
            0 <= k < l < out@.len() ==> (out@[k].time < out@[l].time || (out@[k].time
                == out@[l].time && perm[k] < perm[l])) by {
            if 0 <= k < l < out@.len() {
                assert(key_lt(sorted@[k], sorted@[l]));
                assert(out@[k] == points@[sorted@[k].3 as int]);
                assert(out@[l] == points@[sorted@[l].3 as int]);
                assert(input[sorted@[k].3 as int] == sorted@[k]);
                assert(input[sorted@[l].3 as int] == sorted@[l]);
                assert(input[sorted@[k].3 as int] == (points@[sorted@[k].3 as int].time, 0i64, 0i64, sorted@[k].3));
                assert(input[sorted@[l].3 as int] == (points@[sorted@[l].3 as int].time, 0i64, 0i64, sorted@[l].3));
            }
        }
        assert(is_point_time_order(points@, out@, perm));
    }
    out
}

/// Sorts cutoffs by time, keeping the order of equal times.
pub fn sort_cutoffs_by_time(cutoffs: &Vec<CutoffPoint>) -> (r: Vec<CutoffPoint>)
    ensures
        cutoffs_sorted_by_time(cutoffs@, r@),
{
    let mut keys: Vec<SortKey> = Vec::new();
    let mut i: usize = 0;
    while i < cutoffs.len()
        invariant
            0 <= i <= cutoffs@.len(),
            keys@.len() == i,
            forall|k: int| 0 <= k < i ==> #[trigger] keys@[k] == (cutoffs@[k].time, 0i64, 0i64, k as usize),
        decreases cutoffs.len() - i,
    {
        keys.push((cutoffs[i].time, 0, 0, i));
        i = i + 1;
    }
    let ghost input = keys@;
    let sorted = sort_keys(keys);
    proof {
        lemma_sorted_indexed(input, sorted@);
    }
    let mut out: Vec<CutoffPoint> = Vec::new();
    let mut k: usize = 0;
    while k < sorted.len()
        invariant
            0 <= k <= sorted@.len(),
            sorted@.len() == cutoffs@.len(),
            out@.len() == k,
            forall|m: int| 0 <= m < sorted@.len() ==> 0 <= (#[trigger] sorted@[m]).3 < cutoffs@.len() && sorted@[m] == input[sorted@[m].3 as int],
            forall|m: int| 0 <= m < input.len() ==> #[trigger] input[m] == (cutoffs@[m].time, 0i64, 0i64, m as usize),
            forall|m: int| 0 <= m < k ==> #[trigger] out@[m] == cutoffs@[sorted@[m].3 as int],
        decreases sorted.len() - k,
    {
        out.push(cutoffs[sorted[k].3]);
        k = k + 1;
    }
    let ghost perm = Seq::new(sorted@.len(), |m: int| sorted@[m].3 as int);
    proof {
        assert forall|a: int| 0 <= a < out@.len() implies (0 <= #[trigger] perm[a] < cutoffs@.len() && out@[a] == cutoffs@[perm[a]]) by {
            assert(out@[a] == cutoffs@[sorted@[a].3 as int]);
        }
        assert forall|k: int, l: int|
            #![trigger out@[k], out@[l]]
            0 <= k < l < out@.len() ==> (out@[k].time < out@[l].time || (out@[k].time
                == out@[l].time && perm[k] < perm[l])) by {
            if 0 <= k < l < out@.len() {
                assert(key_lt(sorted@[k], sorted@[l]));
                assert(out@[k] == cutoffs@[sorted@[k].3 as int]);
                assert(out@[l] == cutoffs@[sorted@[l].3 as int]);
                assert(input[sorted@[k].3 as int] == sorted@[k]);
                assert(input[sorted@[l].3 as int] == sorted@[l]);
                assert(input[sorted@[k].3 as int] == (cutoffs@[sorted@[k].3 as int].time, 0i64, 0i64, sorted@[k].3));
                assert(input[sorted@[l].3 as int] == (cutoffs@[sorted@[l].3 as int].time, 0i64, 0i64, sorted@[l].3));
            }
        }
        assert(is_cutoff_time_order(cutoffs@, out@, perm));
    }
    out
}

/// The points of a list of snapshot documents, document by document.
pub open spec fn flatten_points(batches: Seq<Vec<TopPoint>>) -> Seq<TopPoint>
    decreases batches.len(),
{
    if batches.len() == 0 {
        Seq::empty()
    } else {
        flatten_points(batches.subrange(0, batches.len() - 1)) + batches.last()@
    }
}

/// The points not older than `since`; a `since` of 0 or less keeps all.
pub open spec fn since_kept(points: Seq<TopPoint>, since: i64) -> Seq<TopPoint>
    decreases points.len(),
{
    if points.len() == 0 {
        Seq::empty()
    } else {
        let rest = since_kept(points.subrange(0, points.len() - 1), since);
        if since > 0 && points.last().time < since {
            rest
        } else {
            rest.push(points.last())
        }
    }
}

/// The uids of `points`, each once, in the order of first appearance.
pub open spec fn first_seen_uids(points: Seq<TopPoint>) -> Seq<i64>
    decreases points.len(),
{
    if points.len() == 0 {
        Seq::empty()
    } else {
        let rest = first_seen_uids(points.subrange(0, points.len() - 1));
        if rest.contains(points.last().uid) {
            rest
        } else {
            rest.push(points.last().uid)
        }
    }
}

/// A top history: points sorted by time, and the uids they involve.
pub struct TopHistory {
    pub points: Vec<TopPoint>,
    pub uids: Vec<i64>,
}

fn contains_uid(uids: &Vec<i64>, uid: i64) -> (r: bool)
    ensures
        r == uids@.contains(uid),
{
    let mut i: usize = 0;
    while i < uids.len()
        invariant
            0 <= i <= uids@.len(),
            forall|k: int| 0 <= k < i ==> uids@[k] != uid,
        decreases uids.len() - i,
    {
        if uids[i] == uid {
            assert(uids@[i as int] == uid);
            return true;
        }
        i = i + 1;
    }
    false
}

/// Reads a top history from its snapshot documents: the points not older
/// than `since` (all when `since` is 0 or less) sorted by time, equal times
/// in document order, and the uids they involve in order of first appearance.
pub fn collect_top_points(batches: &Vec<Vec<TopPoint>>, since: i64) -> (r: TopHistory)
    ensures
        points_sorted_by_time(since_kept(flatten_points(batches@), since), r.points@),
        r.uids@ == first_seen_uids(since_kept(flatten_points(batches@), since)),
{
    let mut all: Vec<TopPoint> = Vec::new();
    let mut b: usize = 0;
    assert(batches@.subrange(0, 0) =~= Seq::<Vec<TopPoint>>::empty());
    while b < batches.len()
        invariant
            0 <= b <= batches@.len(),
            all@ == flatten_points(batches@.subrange(0, b as int)),
        decreases batches.len() - b,
    {
        let ghost before = all@;
        let batch = &batches[b];
        let mut j: usize = 0;
        assert(before + batch@.subrange(0, 0) =~= before);
        while j < batch.len()
            invariant
                0 <= j <= batch@.len(),
                all@ == before + batch@.subrange(0, j as int),
            decreases batch.len() - j,
        {
            all.push(batch[j]);
            j = j + 1;
            assert(all@ =~= before + batch@.subrange(0, j as int));
        }
        let ghost sub = batches@.subrange(0, b + 1);
        assert(sub.subrange(0, sub.len() - 1) =~= batches@.subrange(0, b as int));
        assert(batch@.subrange(0, batch@.len() as int) =~= batch@);
        b = b + 1;
    }
    assert(batches@.subrange(0, batches@.len() as int) =~= batches@);
    let mut kept: Vec<TopPoint> = Vec::new();
    let mut uids: Vec<i64> = Vec::new();
    let mut i: usize = 0;
    assert(all@.subrange(0, 0) =~= Seq::<TopPoint>::empty());
    while i < all.len()
        invariant
            0 <= i <= all@.len(),
            kept@ == since_kept(all@.subrange(0, i as int), since),
            uids@ == first_seen_uids(since_kept(all@.subrange(0, i as int), since)),
        decreases all.len() - i,
    {
        let ghost sub = all@.subrange(0, i + 1);
        assert(sub.subrange(0, sub.len() - 1) =~= all@.subrange(0, i as int));
        let p = all[i];
        if !(since > 0 && p.time < since) {
            let ghost prev = kept@;
            kept.push(p);
            assert(kept@.subrange(0, kept@.len() - 1) =~= prev);
            if !contains_uid(&uids, p.uid) {
                uids.push(p.uid);
            }
        }
        i = i + 1;
    }
    assert(all@.subrange(0, all@.len() as int) =~= all@);
    TopHistory { points: sort_points_by_time(&kept), uids }
}

// ---------------------------------------------------------------------------
// The `since` filter
// ---------------------------------------------------------------------------

/// Reading from the first bucket of `since` loses nothing: a point at or
/// after `since` lies in that bucket or a later one.
pub proof fn law_since_buckets_cover(since: i64, ts: i64)
    requires
        since > 0,
        ts >= since,
    ensures
        ts as int / 86_400_000 >= since as int / 86_400_000,
{
    vstd::arithmetic::div_mod::lemma_div_is_ordered(since as int, ts as int, 86_400_000);
}

/// The `since` filter keeps exactly the points at or after `since` (all
/// points when `since` is 0 or less), in their order.
pub proof fn law_since_keeps_recent_points(points: Seq<TopPoint>, since: i64)
    ensures
        forall|k: int|
            0 <= k < since_kept(points, since).len() ==> (since <= 0 || #[trigger] since_kept(
                points,
                since,
            )[k].time >= since),
        forall|i: int|
            0 <= i < points.len() && (since <= 0 || points[i].time >= since) ==> since_kept(
                points,
                since,
            ).contains(#[trigger] points[i]),
        since <= 0 ==> since_kept(points, since) == points,
    decreases points.len(),
{
    if points.len() > 0 {
        let prefix = points.subrange(0, points.len() - 1);
        law_since_keeps_recent_points(prefix, since);
        let rest = since_kept(prefix, since);
        let kept = since_kept(points, since);
        assert forall|i: int|
            0 <= i < points.len() && (since <= 0 || points[i].time >= since) implies kept.contains(
                #[trigger] points[i],
            ) by {
            if i < points.len() - 1 {
                assert(prefix[i] == points[i]);
                assert(rest.contains(prefix[i]));
                let j = choose|j: int| 0 <= j < rest.len() && rest[j] == prefix[i];
                if !(since > 0 && points.last().time < since) {
                    assert(kept == rest.push(points.last()));
                    assert(kept[j] == rest[j]);
                }
            } else {
                assert(kept == rest.push(points.last()));
                assert(kept[rest.len() as int] == points[i]);
            }
        }
        if since <= 0 {
            assert(points =~= prefix.push(points.last()));
        }
    } else {
        assert(since_kept(points, since) =~= points);
    }
}

// ---------------------------------------------------------------------------
// The documented lists
// ---------------------------------------------------------------------------

/// The border tiers of the monthly ranking are exactly the documented ones:
/// 20, 30, 40, 50, 100, 200, 300, 500, 1000, 2000, 3000, 4000, 5000.
pub proof fn law_monthly_tiers_documented(t: i64)
    ensures
        monthly_border_tiers().contains(t) <==> (t == 20 || t == 30 || t == 40 || t == 50 || t == 100 || t == 200 || t == 300 || t == 500 || t == 1000 || t == 2000 || t == 3000 || t == 4000 || t == 5000),
{
    let s = monthly_border_tiers();
    assert(s[0] == 20);
    assert(s[1] == 30);
    assert(s[2] == 40);
    assert(s[3] == 50);
    assert(s[4] == 100);
    assert(s[5] == 200);
    assert(s[6] == 300);
    assert(s[7] == 500);
    assert(s[8] == 1000);
    assert(s[9] == 2000);
    assert(s[10] == 3000);
    assert(s[11] == 4000);
    assert(s[12] == 5000);
    if monthly_border_tiers().contains(t) {
        let i = choose|i: int| 0 <= i < s.len() && s[i] == t;
        assert(i == 0 || i == 1 || i == 2 || i == 3 || i == 4 || i == 5 || i == 6 || i == 7 || i == 8 || i == 9 || i == 10 || i == 11 || i == 12);
    }
    if t == 20 || t == 30 || t == 40 || t == 50 || t == 100 || t == 200 || t == 300 || t == 500 || t == 1000 || t == 2000 || t == 3000 || t == 4000 || t == 5000 {
        if t == 20 {
            assert(s[0] == t);
        }
        if t == 30 {
            assert(s[1] == t);
        }
        if t == 40 {
            assert(s[2] == t);
        }
        if t == 50 {
            assert(s[3] == t);
        }
        if t == 100 {
            assert(s[4] == t);
        }
        if t == 200 {
            assert(s[5] == t);
        }
        if t == 300 {
            assert(s[6] == t);
        }
        if t == 500 {
            assert(s[7] == t);
        }
        if t == 1000 {
            assert(s[8] == t);
        }
        if t == 2000 {
            assert(s[9] == t);
        }
        if t == 3000 {
            assert(s[10] == t);
        }
        if t == 4000 {
            assert(s[11] == t);
        }
        if t == 5000 {
            assert(s[12] == t);
        }
    }
}

/// The border tiers of the event-wide ranking are exactly the documented ones:
/// 20, 30, 40, 50, 100, 200, 300, 500, 1000, 1500, 2000, 3000, 4000, 5000, 10000, 20000, 30000, 40000, 50000, 100000.
pub proof fn law_event_tiers_documented(t: i64)
    ensures
        event_border_tiers().contains(t) <==> (t == 20 || t == 30 || t == 40 || t == 50 || t == 100 || t == 200 || t == 300 || t == 500 || t == 1000 || t == 1500 || t == 2000 || t == 3000 || t == 4000 || t == 5000 || t == 10000 || t == 20000 || t == 30000 || t == 40000 || t == 50000 || t == 100000),
{
    let s = event_border_tiers();
    assert(s[0] == 20);
    assert(s[1] == 30);
    assert(s[2] == 40);
    assert(s[3] == 50);
    assert(s[4] == 100);
    assert(s[5] == 200);
    assert(s[6] == 300);
    assert(s[7] == 500);
    assert(s[8] == 1000);
    assert(s[9] == 1500);
    assert(s[10] == 2000);
    assert(s[11] == 3000);
    assert(s[12] == 4000);
    assert(s[13] == 5000);
    assert(s[14] == 10000);
    assert(s[15] == 20000);
    assert(s[16] == 30000);
    assert(s[17] == 40000);
    assert(s[18] == 50000);
    assert(s[19] == 100000);
    if event_border_tiers().contains(t) {
        let i = choose|i: int| 0 <= i < s.len() && s[i] == t;
        assert(i == 0 || i == 1 || i == 2 || i == 3 || i == 4 || i == 5 || i == 6 || i == 7 || i == 8 || i == 9 || i == 10 || i == 11 || i == 12 || i == 13 || i == 14 || i == 15 || i == 16 || i == 17 || i == 18 || i == 19);
    }
    if t == 20 || t == 30 || t == 40 || t == 50 || t == 100 || t == 200 || t == 300 || t == 500 || t == 1000 || t == 1500 || t == 2000 || t == 3000 || t == 4000 || t == 5000 || t == 10000 || t == 20000 || t == 30000 || t == 40000 || t == 50000 || t == 100000 {
        if t == 20 {
            assert(s[0] == t);
        }
        if t == 30 {
            assert(s[1] == t);
        }
        if t == 40 {
            assert(s[2] == t);
        }
        if t == 50 {
            assert(s[3] == t);
        }
        if t == 100 {
            assert(s[4] == t);
        }
        if t == 200 {
            assert(s[5] == t);
        }
        if t == 300 {
            assert(s[6] == t);
        }
        if t == 500 {
            assert(s[7] == t);
        }
        if t == 1000 {
            assert(s[8] == t);
        }
        if t == 1500 {
            assert(s[9] == t);
        }
        if t == 2000 {
            assert(s[10] == t);
        }
        if t == 3000 {
            assert(s[11] == t);
        }
        if t == 4000 {
            assert(s[12] == t);
        }
        if t == 5000 {
            assert(s[13] == t);
        }
        if t == 10000 {
            assert(s[14] == t);
        }
        if t == 20000 {
            assert(s[15] == t);
        }
        if t == 30000 {
            assert(s[16] == t);
        }
        if t == 40000 {
            assert(s[17] == t);
        }
        if t == 50000 {
            assert(s[18] == t);
        }
        if t == 100000 {
            assert(s[19] == t);
        }
    }
}

/// The border tiers of the per-song ranking are exactly the documented ones:
/// 20, 30, 40, 50, 100, 200, 300, 500, 1000, 2000, 5000, 10000, 20000, 50000, 100000.
pub proof fn law_music_tiers_documented(t: i64)
    ensures
        music_border_tiers().contains(t) <==> (t == 20 || t == 30 || t == 40 || t == 50 || t == 100 || t == 200 || t == 300 || t == 500 || t == 1000 || t == 2000 || t == 5000 || t == 10000 || t == 20000 || t == 50000 || t == 100000),
{
    let s = music_border_tiers();
    assert(s[0] == 20);
    assert(s[1] == 30);
    assert(s[2] == 40);
    assert(s[3] == 50);
    assert(s[4] == 100);
    assert(s[5] == 200);
    assert(s[6] == 300);
    assert(s[7] == 500);
    assert(s[8] == 1000);
    assert(s[9] == 2000);
    assert(s[10] == 5000);
    assert(s[11] == 10000);
    assert(s[12] == 20000);
    assert(s[13] == 50000);
    assert(s[14] == 100000);
    if music_border_tiers().contains(t) {
        let i = choose|i: int| 0 <= i < s.len() && s[i] == t;
        assert(i == 0 || i == 1 || i == 2 || i == 3 || i == 4 || i == 5 || i == 6 || i == 7 || i == 8 || i == 9 || i == 10 || i == 11 || i == 12 || i == 13 || i == 14);
    }
    if t == 20 || t == 30 || t == 40 || t == 50 || t == 100 || t == 200 || t == 300 || t == 500 || t == 1000 || t == 2000 || t == 5000 || t == 10000 || t == 20000 || t == 50000 || t == 100000 {
        if t == 20 {
            assert(s[0] == t);
        }
        if t == 30 {
            assert(s[1] == t);
        }
        if t == 40 {
            assert(s[2] == t);
        }
        if t == 50 {
            assert(s[3] == t);
        }
        if t == 100 {
            assert(s[4] == t);
        }
        if t == 200 {
            assert(s[5] == t);
        }
        if t == 300 {
            assert(s[6] == t);
        }
        if t == 500 {
            assert(s[7] == t);
        }
        if t == 1000 {
            assert(s[8] == t);
        }
        if t == 2000 {
            assert(s[9] == t);
        }
        if t == 5000 {
            assert(s[10] == t);
        }
        if t == 10000 {
            assert(s[11] == t);
        }
        if t == 20000 {
            assert(s[12] == t);
        }
        if t == 50000 {
            assert(s[13] == t);
        }
        if t == 100000 {
            assert(s[14] == t);
        }
    }
}

// ---------------------------------------------------------------------------
// The post-end window
// ---------------------------------------------------------------------------

/// A monthly ranking whose JP slots hold `start` and `end` is active at
/// `now` exactly when it has started and has not ended, or ended at most
/// `window_secs` seconds (`1000 * window_secs` ms) before `now`; an end of 0
/// means it is running.
pub proof fn law_monthly_active_window(
    d: MonthlyInfoDoc,
    start: i64,
    end: i64,
    now: i64,
    window_secs: i64,
)
    requires
        d.start_at@.len() > 0,
        d.start_at@[0] == Some(start),
        d.end_at@.len() > 0,
        d.end_at@[0] == Some(end),
    ensures
        active_monthlies_spec(seq![d], now, window_secs) == (if start > 0 && start <= now && (end
            == 0 || end + 1000 * window_secs >= now) {
            seq![(d.monthly_ranking_id, end)]
        } else {
            Seq::<(i64, i64)>::empty()
        }),
{
    assert(seq![d].subrange(0, 0) =~= Seq::<MonthlyInfoDoc>::empty());
    assert(seq![d].last() == d);
    assert(jp_or_zero(d.start_at@) == start);
    assert(jp_or_zero(d.end_at@) == end);
    assert(active_monthlies_spec(Seq::<MonthlyInfoDoc>::empty(), now, window_secs) =~= Seq::<(i64, i64)>::empty());
    assert(is_active(start as int, end as int, now as int, window_secs as int) == (start > 0 && start
        <= now && (end == 0 || end + 1000 * window_secs >= now)));
    if start > 0 && start <= now && (end == 0 || end + 1000 * window_secs >= now) {
        assert(Seq::<(i64, i64)>::empty().push((d.monthly_ranking_id, end)) =~= seq![
            (d.monthly_ranking_id, end),
        ]);
    }
}

/// The active rankings of two lists of documents are those of the first,
/// then those of the second: each document is judged on its own.
pub proof fn law_active_monthlies_concat(
    a: Seq<MonthlyInfoDoc>,
    b: Seq<MonthlyInfoDoc>,
    now: i64,
    window_secs: i64,
)
    ensures
        active_monthlies_spec(a + b, now, window_secs) == active_monthlies_spec(a, now, window_secs)
            + active_monthlies_spec(b, now, window_secs),
    decreases b.len(),
{
    if b.len() == 0 {
        assert(a + b =~= a);
        assert(active_monthlies_spec(a, now, window_secs) + Seq::<(i64, i64)>::empty()
            =~= active_monthlies_spec(a, now, window_secs));
    } else {
        let c = b.subrange(0, b.len() - 1);
        law_active_monthlies_concat(a, c, now, window_secs);
        assert((a + b).subrange(0, (a + b).len() - 1) =~= a + c);
        assert((a + b).last() == b.last());
        let x = active_monthlies_spec(a, now, window_secs);
        let y = active_monthlies_spec(c, now, window_secs);
        assert((x + y).push((b.last().monthly_ranking_id, jp_or_zero(b.last().end_at@))) =~= x + y.push(
            (b.last().monthly_ranking_id, jp_or_zero(b.last().end_at@)),
        ));
    }
}

/// An event is active at `now` exactly when it has started and has not
/// ended, or ended at most `window_secs` seconds (`1000 * window_secs` ms)
/// before `now`; an end of 0 means it is running.
pub proof fn law_event_active_window(d: EventDoc, now: i64, window_secs: i64)
    ensures
        active_events_spec(seq![d], now, window_secs) == (if d.start_at > 0 && d.start_at <= now && (
        d.end_at == 0 || d.end_at + 1000 * window_secs >= now) {
            seq![(d.event_id, d.end_at)]
        } else {
            Seq::<(i64, i64)>::empty()
        }),
{
    assert(seq![d].subrange(0, 0) =~= Seq::<EventDoc>::empty());
    assert(seq![d].last() == d);
    assert(active_events_spec(Seq::<EventDoc>::empty(), now, window_secs) =~= Seq::<(i64, i64)>::empty());
    assert(is_active(d.start_at as int, d.end_at as int, now as int, window_secs as int) == (d.start_at
        > 0 && d.start_at <= now && (d.end_at == 0 || d.end_at + 1000 * window_secs >= now)));
    if d.start_at > 0 && d.start_at <= now && (d.end_at == 0 || d.end_at + 1000 * window_secs
        >= now) {
        assert(Seq::<(i64, i64)>::empty().push((d.event_id, d.end_at)) =~= seq![
            (d.event_id, d.end_at),
        ]);
    }
}

/// The active events of two lists of documents are those of the first,
/// then those of the second.
pub proof fn law_active_events_concat(a: Seq<EventDoc>, b: Seq<EventDoc>, now: i64, window_secs: i64)
    ensures
        active_events_spec(a + b, now, window_secs) == active_events_spec(a, now, window_secs)
            + active_events_spec(b, now, window_secs),
    decreases b.len(),
{
    if b.len() == 0 {
        assert(a + b =~= a);
        assert(active_events_spec(a, now, window_secs) + Seq::<(i64, i64)>::empty()
            =~= active_events_spec(a, now, window_secs));
    } else {
        let c = b.subrange(0, b.len() - 1);
        law_active_events_concat(a, c, now, window_secs);
        assert((a + b).subrange(0, (a + b).len() - 1) =~= a + c);
        assert((a + b).last() == b.last());
        let x = active_events_spec(a, now, window_secs);
        let y = active_events_spec(c, now, window_secs);
        assert((x + y).push((b.last().event_id, b.last().end_at)) =~= x + y.push(
            (b.last().event_id, b.last().end_at),
        ));
    }
}

/// The current monthly ranking is the active one with the largest id: it
/// is among the active ones, and no active one has a larger id.
pub proof fn law_current_monthly_is_largest(actives: Seq<(i64, i64)>)
    ensures
        actives.len() == 0 <==> max_id(actives) is None,
        max_id(actives) matches Some(m) ==> (exists|k: int| 0 <= k < actives.len() && actives[k].0 == m)
            && forall|k: int| 0 <= k < actives.len() ==> actives[k].0 <= m,
    decreases actives.len(),
{
    if actives.len() > 0 {
        let p = actives.subrange(0, actives.len() - 1);
        law_current_monthly_is_largest(p);
        match max_id(p) {
            Some(m) => {
                if m >= actives.last().0 {
                    let k = choose|k: int| 0 <= k < p.len() && p[k].0 == m;
                    assert(actives[k] == p[k]);
                    assert forall|j: int| 0 <= j < actives.len() implies actives[j].0 <= m by {
                        if j < p.len() {
                            assert(actives[j] == p[j]);
                        }
                    }
                } else {
                    assert forall|j: int| 0 <= j < actives.len() implies actives[j].0 <= actives.last().0 by {
                        if j < p.len() {
                            assert(actives[j] == p[j]);
                        }
                    }
                }
            },
            None => {},
        }
    }
}

} // verus!
