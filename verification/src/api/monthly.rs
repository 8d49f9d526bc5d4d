//! Monthly ranking endpoints, matching GarupaSpeedTracker:
//!
//! - `GET /monthlyRanking/info` | `/info.json` → `{ [id]: MonthlyRankingInfo }`
//! - `GET /monthlyRanking/all` | `/all.json` → full detail
//! - `GET /monthlyRanking/top` | `/top.json` → `{ points, users }`
//! - `GET /monthlyRanking/border` | `/border.json` → `{ result, cutoffs }`
//!
//! This module validates the queries and builds the bodies; the handlers
//! that read the store are part of the application.

use vstd::prelude::*;
use vstd::string::*;
use crate::config::opt_view;
use crate::error::{AppError, AppResult, is_validation};
use crate::json::{lemma_entry_index_at, JsonValue, Json, json_view, json_list_view, json_entries_view, lemma_json_entries_view, lemma_json_list_view, lemma_json_list_view_push};
use crate::api::{resample_points, served_points};
use crate::storage::{is_monthly_border_tier, monthly_border_tiers, CutoffPoint, PlayerDoc, TopPoint, SERVER_COUNT};
use crate::text::{parse_i64, parse_i64_spec, decimal_i64, int_decimal, str_eq, lemma_parse_i64_in_range};

verus! {

// ---------------------------------------------------------------------------
// Validation outcomes
// ---------------------------------------------------------------------------

/// What a validation yields: a value, or the field and the message of a
/// validation error.
pub type Checked<T> = Result<T, (Seq<char>, Seq<char>)>;

/// `r` is the outcome `expected`: the same value, or a validation error on
/// the same field with the same message.
pub open spec fn outcome_is<T>(r: AppResult<T>, expected: Checked<T>) -> bool {
    match (r, expected) {
        (Ok(v), Ok(w)) => v == w,
        (Err(e), Err(fm)) => is_validation(e, fm.0, fm.1),
        _ => false,
    }
}

/// An integer query parameter `field` of at least `min`.
pub open spec fn parse_int_spec(raw: Seq<char>, field: Seq<char>, min: i64) -> Checked<i64> {
    match parse_i64_spec(raw) {
        None => Err((field, field + " must be an integer"@)),
        Some(v) => if v < min {
            Err((field, field + " must be >= "@ + int_decimal(min as int)))
        } else {
            Ok(v as i64)
        },
    }
}

/// An optional integer parameter, `default` when it is absent.
pub open spec fn optional_int_spec(raw: Option<Seq<char>>, field: Seq<char>, min: i64, default: i64) -> Checked<i64> {
    match raw {
        Some(s) => parse_int_spec(s, field, min),
        None => Ok(default),
    }
}

/// A required integer parameter.
pub open spec fn required_int_spec(raw: Option<Seq<char>>, field: Seq<char>, min: i64) -> Checked<i64> {
    match raw {
        Some(s) => parse_int_spec(s, field, min),
        None => Err((field, field + " is required"@)),
    }
}

/// The view of an optional borrowed string.
pub open spec fn param_view(raw: Option<&str>) -> Option<Seq<char>> {
    match raw {
        Some(s) => Some(s@),
        None => None,
    }
}

/// Parses an integer query parameter `field` of at least `min`, with the
/// validation errors `"{field} must be an integer"` and
/// `"{field} must be >= {min}"`.
pub fn parse_int(raw: &str, field: &str, min: i64) -> (r: AppResult<i64>)
    ensures
        outcome_is(r, parse_int_spec(raw@, field@, min)),
        r matches Ok(v) ==> v >= min,
{
    match parse_i64(raw) {
        None => {
            let message = String::from_str(field).concat(" must be an integer");
            Err(AppError::validation(field, message.as_str()))
        },
        Some(value) => {
            if value < min {
                let message = String::from_str(field).concat(" must be >= ").concat(
                    decimal_i64(min).as_str(),
                );
                Err(AppError::validation(field, message.as_str()))
            } else {
                Ok(value)
            }
        },
    }
}

/// An optional integer parameter, `default` when absent.
pub fn optional_int(raw: Option<&str>, field: &str, min: i64, default: i64) -> (r: AppResult<i64>)
    ensures
        outcome_is(r, optional_int_spec(param_view(raw), field@, min, default)),
{
    match raw {
        Some(s) => parse_int(s, field, min),
        None => Ok(default),
    }
}

/// A required integer parameter; `"{field} is required"` when absent.
pub fn required_int(raw: Option<&str>, field: &str, min: i64) -> (r: AppResult<i64>)
    ensures
        outcome_is(r, required_int_spec(param_view(raw), field@, min)),
{
    match raw {
        Some(s) => parse_int(s, field, min),
        None => {
            let message = String::from_str(field).concat(" is required");
            Err(AppError::validation(field, message.as_str()))
        },
    }
}

/// The borrowed text of an optional parameter.
pub fn as_param(o: &Option<String>) -> (r: Option<&str>)
    ensures
        param_view(r) == opt_view(*o),
{
    match o {
        Some(s) => Some(s.as_str()),
        None => None,
    }
}

/// The monthly `server` parameter: a server index below `SERVER_COUNT`,
/// written as its plain decimal (`0`, not `00` or `+0`).
pub open spec fn server_spec(raw: Option<Seq<char>>) -> Checked<i64> {
    match raw {
        None => Err(("server"@, "server is required"@)),
        Some(s) => match parse_int_spec(s, "server"@, 0) {
            Err(e) => Err(e),
            Ok(v) => if v < SERVER_COUNT && s == int_decimal(v as int) {
                Ok(v)
            } else {
                Err(("server"@, "server must be between 0 and "@ + int_decimal(SERVER_COUNT - 1)))
            },
        },
    }
}

/// Validates the `server` parameter of the monthly endpoints.
pub fn parse_server(raw: Option<&str>) -> (r: AppResult<i64>)
    ensures
        outcome_is(r, server_spec(param_view(raw))),
{
    let s = match raw {
        Some(s) => s,
        None => {
            return Err(AppError::validation("server", "server is required"));
        },
    };
    let server = match parse_int(s, "server", 0) {
        Ok(v) => v,
        Err(e) => {
            return Err(e);
        },
    };
    if !(0 <= server && server < SERVER_COUNT && str_eq(s, decimal_i64(server).as_str())) {
        let message = String::from_str("server must be between 0 and ").concat(
            decimal_i64(SERVER_COUNT - 1).as_str(),
        );
        return Err(AppError::validation("server", message.as_str()));
    }
    Ok(server)
}

// ---------------------------------------------------------------------------
// Queries
// ---------------------------------------------------------------------------

/// Query of `GET /monthlyRanking/top`.
#[allow(non_snake_case)]
pub struct TopQuery {
    pub server: Option<String>,
    pub monthlyId: Option<String>,
    pub interval: Option<String>,
    pub since: Option<String>,
}

/// What `TopQuery::target` yields: the server and the monthly ranking the
/// query names, if it names one (the active one is looked up otherwise).
pub open spec fn top_target_spec(q: TopQuery) -> Checked<(i64, Option<i64>)> {
    match server_spec(opt_view(q.server)) {
        Err(e) => Err(e),
        Ok(server) => match opt_view(q.monthlyId) {
            None => Ok((server, None)),
            Some(raw) => match parse_int_spec(raw, "monthlyId"@, 1) {
                Err(e) => Err(e),
                Ok(id) => Ok((server, Some(id))),
            },
        },
    }
}

/// What `TopQuery::window` yields: the resampling interval, 60000 by
/// default, and the lower time bound, 0 by default.
pub open spec fn top_window_spec(interval: Option<Seq<char>>, since: Option<Seq<char>>) -> Checked<(i64, i64)> {
    match optional_int_spec(interval, "interval"@, 1, 60_000) {
        Err(e) => Err(e),
        Ok(i) => match optional_int_spec(since, "since"@, 0, 0) {
            Err(e) => Err(e),
            Ok(s) => Ok((i, s)),
        },
    }
}

/// The interval and since parameters of a top query.
pub fn top_window(interval: Option<&str>, since: Option<&str>) -> (r: AppResult<(i64, i64)>)
    ensures
        outcome_is(r, top_window_spec(param_view(interval), param_view(since))),
{
    let interval_ms = match optional_int(interval, "interval", 1, 60_000) {
        Ok(v) => v,
        Err(e) => {
            return Err(e);
        },
    };
    let since_ms = match optional_int(since, "since", 0, 0) {
        Ok(v) => v,
        Err(e) => {
            return Err(e);
        },
    };
    Ok((interval_ms, since_ms))
}

impl TopQuery {
    /// The server and the monthly ranking that the query names, validated
    /// in the order the endpoint checks them.
    pub fn target(&self) -> (r: AppResult<(i64, Option<i64>)>)
        ensures
            outcome_is(r, top_target_spec(*self)),
    {
        let server = match parse_server(as_param(&self.server)) {
            Ok(v) => v,
            Err(e) => {
                return Err(e);
            },
        };
        match as_param(&self.monthlyId) {
            None => Ok((server, None)),
            Some(raw) => match parse_int(raw, "monthlyId", 1) {
                Ok(id) => Ok((server, Some(id))),
                Err(e) => Err(e),
            },
        }
    }

    /// The resampling interval and the lower time bound, checked after the
    /// ranking is known.
    pub fn window(&self) -> (r: AppResult<(i64, i64)>)
        ensures
            outcome_is(r, top_window_spec(opt_view(self.interval), opt_view(self.since))),
    {
        top_window(as_param(&self.interval), as_param(&self.since))
    }
}

/// Query of `GET /monthlyRanking/border`.
#[allow(non_snake_case)]
pub struct BorderQuery {
    pub server: Option<String>,
    pub monthlyId: Option<String>,
    pub tier: Option<String>,
}

/// The message of an invalid monthly tier.
pub open spec fn monthly_tier_message() -> Seq<char> {
    "tier must be one of: 20,30,40,50,100,200,300,500,1000,2000,3000,4000,5000"@
}

/// What `BorderQuery::target` yields: server, tier, and the monthly ranking
/// the query names, if any.
pub open spec fn border_target_spec(q: BorderQuery) -> Checked<(i64, i64, Option<i64>)> {
    match server_spec(opt_view(q.server)) {
        Err(e) => Err(e),
        Ok(server) => match required_int_spec(opt_view(q.tier), "tier"@, 1) {
            Err(e) => Err(e),
            Ok(tier) => if !monthly_border_tiers().contains(tier) {
                Err(("tier"@, monthly_tier_message()))
            } else {
                match opt_view(q.monthlyId) {
                    None => Ok((server, tier, None)),
                    Some(raw) => match parse_int_spec(raw, "monthlyId"@, 1) {
                        Err(e) => Err(e),
                        Ok(id) => Ok((server, tier, Some(id))),
                    },
                }
            },
        },
    }
}

impl BorderQuery {
    /// Server, tier and named monthly ranking, validated in the order the
    /// endpoint checks them.
    pub fn target(&self) -> (r: AppResult<(i64, i64, Option<i64>)>)
        ensures
            outcome_is(r, border_target_spec(*self)),
    {
        let server = match parse_server(as_param(&self.server)) {
            Ok(v) => v,
            Err(e) => {
                return Err(e);
            },
        };
        let tier = match required_int(as_param(&self.tier), "tier", 1) {
            Ok(v) => v,
            Err(e) => {
                return Err(e);
            },
        };
        if !is_monthly_border_tier(tier) {
            return Err(
                AppError::validation(
                    "tier",
                    "tier must be one of: 20,30,40,50,100,200,300,500,1000,2000,3000,4000,5000",
                ),
            );
        }
        match as_param(&self.monthlyId) {
            None => Ok((server, tier, None)),
            Some(raw) => match parse_int(raw, "monthlyId", 1) {
                Ok(id) => Ok((server, tier, Some(id))),
                Err(e) => Err(e),
            },
        }
    }
}


// ---------------------------------------------------------------------------
// Response bodies
// ---------------------------------------------------------------------------

/// A list of integers as a JSON array.
pub open spec fn ints_json(v: Seq<i64>) -> Json {
    Json::Array(v.map_values(|x: i64| Json::Int(x as int)))
}

/// A player as a `users` entry.
pub open spec fn user_json(p: PlayerDoc) -> Json {
    Json::Object(
        seq![
            ("uid"@, Json::Int(p.uid as int)),
            ("name"@, Json::Str(p.name@)),
            ("introduction"@, Json::Str(p.introduction@)),
            ("rank"@, Json::Int(p.rank as int)),
            ("sid"@, Json::Int(p.sid as int)),
            ("strained"@, Json::Int(p.strained as int)),
            ("degrees"@, ints_json(p.degrees@)),
        ],
    )
}

/// The `users` entries of players, in order.
pub open spec fn users_json(docs: Seq<PlayerDoc>) -> Seq<Json> {
    docs.map_values(|p: PlayerDoc| user_json(p))
}

/// A top point as a `points` entry.
pub open spec fn point_json(p: TopPoint) -> Json {
    Json::Object(
        seq![
            ("time"@, Json::Int(p.time as int)),
            ("uid"@, Json::Int(p.uid as int)),
            ("value"@, Json::Int(p.value as int)),
        ],
    )
}

/// A cutoff as a `cutoffs` entry.
pub open spec fn cutoff_json(c: CutoffPoint) -> Json {
    Json::Object(seq![("time"@, Json::Int(c.time as int)), ("ep"@, Json::Int(c.ep as int))])
}

/// The body of a top endpoint: `{ points, users }`.
pub open spec fn top_body_spec(points: Seq<TopPoint>, players: Seq<PlayerDoc>) -> Json {
    Json::Object(
        seq![
            ("points"@, Json::Array(points.map_values(|p: TopPoint| point_json(p)))),
            ("users"@, Json::Array(users_json(players))),
        ],
    )
}

/// The body of a border endpoint: `{ result: true, cutoffs }`.
pub open spec fn border_body_spec(cutoffs: Seq<CutoffPoint>) -> Json {
    Json::Object(
        seq![
            ("result"@, Json::Bool(true)),
            ("cutoffs"@, Json::Array(cutoffs.map_values(|c: CutoffPoint| cutoff_json(c)))),
        ],
    )
}

/// A JSON array of integers.
pub fn ints_array(v: &Vec<i64>) -> (r: JsonValue)
    ensures
        r@ == ints_json(v@),
{
    let mut items: Vec<JsonValue> = Vec::new();
    let mut i: usize = 0;
    while i < v.len()
        invariant
            0 <= i <= v@.len(),
            json_list_view(items@) == v@.subrange(0, i as int).map_values(|x: i64| Json::Int(x as int)),
        decreases v.len() - i,
    {
        let item = JsonValue::Int(v[i]);
        proof {
            lemma_json_list_view_push(items@, item);
        }
        items.push(item);
        i = i + 1;
        assert(json_list_view(items@) =~= v@.subrange(0, i as int).map_values(|x: i64| Json::Int(x as int)));
    }
    assert(v@.subrange(0, v@.len() as int) =~= v@);
    JsonValue::Array(items)
}

/// `u` is the `users` entry of `p`: each of its keys reads back the
/// player's field of the same name.
pub open spec fn shows_player(u: Json, p: PlayerDoc) -> bool {
    &&& u.get("uid"@) == Some(Json::Int(p.uid as int))
    &&& u.get("name"@) == Some(Json::Str(p.name@))
    &&& u.get("introduction"@) == Some(Json::Str(p.introduction@))
    &&& u.get("rank"@) == Some(Json::Int(p.rank as int))
    &&& u.get("sid"@) == Some(Json::Int(p.sid as int))
    &&& u.get("strained"@) == Some(Json::Int(p.strained as int))
    &&& u.get("degrees"@) == Some(Json::Array(p.degrees@.map_values(|x: i64| Json::Int(x as int))))
}

/// A `users` entry.
pub fn user_value(p: &PlayerDoc) -> (r: JsonValue)
    ensures
        r@ == user_json(*p),
        shows_player(r@, *p),
{
    let mut es: Vec<(String, JsonValue)> = Vec::new();
    es.push((String::from_str("uid"), JsonValue::Int(p.uid)));
    es.push((String::from_str("name"), JsonValue::Str(p.name.clone())));
    es.push((String::from_str("introduction"), JsonValue::Str(p.introduction.clone())));
    es.push((String::from_str("rank"), JsonValue::Int(p.rank)));
    es.push((String::from_str("sid"), JsonValue::Int(p.sid)));
    es.push((String::from_str("strained"), JsonValue::Int(p.strained)));
    es.push((String::from_str("degrees"), ints_array(&p.degrees)));
    proof {
        lemma_json_entries_view(es@);
        assert(json_entries_view(es@) =~= seq![
            ("uid"@, Json::Int(p.uid as int)),
            ("name"@, Json::Str(p.name@)),
            ("introduction"@, Json::Str(p.introduction@)),
            ("rank"@, Json::Int(p.rank as int)),
            ("sid"@, Json::Int(p.sid as int)),
            ("strained"@, Json::Int(p.strained as int)),
            ("degrees"@, ints_json(p.degrees@)),
        ]);
        lemma_user_read_back(*p);
    }
    JsonValue::Object(es)
}

/// Projects player documents to the public `users` entries.
pub fn to_users(docs: &Vec<PlayerDoc>) -> (r: Vec<JsonValue>)
    ensures
        json_list_view(r@) == users_json(docs@),
        json_list_view(r@).len() == docs@.len(),
        forall|i: int|
            0 <= i < docs@.len() ==> shows_player(#[trigger] json_list_view(r@)[i], docs@[i]),
{
    let mut out: Vec<JsonValue> = Vec::new();
    let mut i: usize = 0;
    while i < docs.len()
        invariant
            0 <= i <= docs@.len(),
            json_list_view(out@) == users_json(docs@.subrange(0, i as int)),
        decreases docs.len() - i,
    {
        let u = user_value(&docs[i]);
        proof {
            lemma_json_list_view_push(out@, u);
        }
        out.push(u);
        i = i + 1;
        assert(users_json(docs@.subrange(0, i as int)) =~= users_json(docs@.subrange(0, i - 1)).push(
            user_json(docs@[i - 1]),
        ));
    }
    assert(docs@.subrange(0, docs@.len() as int) =~= docs@);
    proof {
        law_users_read_back(docs@);
    }
    out
}

/// A `points` entry.
pub fn point_value(p: &TopPoint) -> (r: JsonValue)
    ensures
        r@ == point_json(*p),
{
    let mut es: Vec<(String, JsonValue)> = Vec::new();
    es.push((String::from_str("time"), JsonValue::Int(p.time)));
    es.push((String::from_str("uid"), JsonValue::Int(p.uid)));
    es.push((String::from_str("value"), JsonValue::Int(p.value)));
    proof {
        lemma_json_entries_view(es@);
        assert(json_entries_view(es@) =~= seq![
            ("time"@, Json::Int(p.time as int)),
            ("uid"@, Json::Int(p.uid as int)),
            ("value"@, Json::Int(p.value as int)),
        ]);
    }
    JsonValue::Object(es)
}

/// A `cutoffs` entry.
pub fn cutoff_value(c: &CutoffPoint) -> (r: JsonValue)
    ensures
        r@ == cutoff_json(*c),
{
    let mut es: Vec<(String, JsonValue)> = Vec::new();
    es.push((String::from_str("time"), JsonValue::Int(c.time)));
    es.push((String::from_str("ep"), JsonValue::Int(c.ep)));
    proof {
        lemma_json_entries_view(es@);
        assert(json_entries_view(es@) =~= seq![
            ("time"@, Json::Int(c.time as int)),
            ("ep"@, Json::Int(c.ep as int)),
        ]);
    }
    JsonValue::Object(es)
}

/// The body `{ points, users }` of the top endpoints; with no points and
/// no players it is the empty answer `{"points": [], "users": []}`.
pub fn top_body(points: &Vec<TopPoint>, players: &Vec<PlayerDoc>) -> (r: JsonValue)
    ensures
        r@ == top_body_spec(points@, players@),
{
    let mut items: Vec<JsonValue> = Vec::new();
    let mut i: usize = 0;
    while i < points.len()
        invariant
            0 <= i <= points@.len(),
            json_list_view(items@) == points@.subrange(0, i as int).map_values(|p: TopPoint| point_json(p)),
        decreases points.len() - i,
    {
        let item = point_value(&points[i]);
        proof {
            lemma_json_list_view_push(items@, item);
        }
        items.push(item);
        i = i + 1;
        assert(json_list_view(items@) =~= points@.subrange(0, i as int).map_values(|p: TopPoint| point_json(p)));
    }
    assert(points@.subrange(0, points@.len() as int) =~= points@);
    let users = to_users(players);
    let mut es: Vec<(String, JsonValue)> = Vec::new();
    es.push((String::from_str("points"), JsonValue::Array(items)));
    es.push((String::from_str("users"), JsonValue::Array(users)));
    proof {
        lemma_json_entries_view(es@);
        assert(json_entries_view(es@) =~= seq![
            ("points"@, Json::Array(points@.map_values(|p: TopPoint| point_json(p)))),
            ("users"@, Json::Array(users_json(players@))),
        ]);
    }
    JsonValue::Object(es)
}

/// The body `{ result: true, cutoffs }` of the border endpoints.
pub fn border_body(cutoffs: &Vec<CutoffPoint>) -> (r: JsonValue)
    ensures
        r@ == border_body_spec(cutoffs@),
{
    let mut items: Vec<JsonValue> = Vec::new();
    let mut i: usize = 0;
    while i < cutoffs.len()
        invariant
            0 <= i <= cutoffs@.len(),
            json_list_view(items@) == cutoffs@.subrange(0, i as int).map_values(|c: CutoffPoint| cutoff_json(c)),
        decreases cutoffs.len() - i,
    {
        let item = cutoff_value(&cutoffs[i]);
        proof {
            lemma_json_list_view_push(items@, item);
        }
        items.push(item);
        i = i + 1;
        assert(json_list_view(items@) =~= cutoffs@.subrange(0, i as int).map_values(|c: CutoffPoint| cutoff_json(c)));
    }
    assert(cutoffs@.subrange(0, cutoffs@.len() as int) =~= cutoffs@);
    let mut es: Vec<(String, JsonValue)> = Vec::new();
    es.push((String::from_str("result"), JsonValue::Bool(true)));
    es.push((String::from_str("cutoffs"), JsonValue::Array(items)));
    proof {
        lemma_json_entries_view(es@);
        assert(json_entries_view(es@) =~= seq![
            ("result"@, Json::Bool(true)),
            ("cutoffs"@, Json::Array(cutoffs@.map_values(|c: CutoffPoint| cutoff_json(c)))),
        ]);
    }
    JsonValue::Object(es)
}

/// The answer of a top endpoint that found `points` and `players`: the
/// points served at `interval_ms`, and the players.
pub fn top_answer(points: &Vec<TopPoint>, players: &Vec<PlayerDoc>, interval_ms: i64) -> (r: JsonValue)
    ensures
        exists|out: Seq<TopPoint>|
            #[trigger] served_points(points@, out, interval_ms) && r@ == top_body_spec(out, players@),
{
    let served = resample_points(points, interval_ms);
    let r = top_body(&served, players);
    assert(served_points(points@, served@, interval_ms));
    r
}

/// The value under `key`, or `default` where there is none.
pub open spec fn value_or(v: Json, key: Seq<char>, default: Json) -> Json {
    match v.get(key) {
        Some(x) => x,
        None => default,
    }
}

/// A copy of the value under `key` in `v`, or `default`.
pub fn copy_or(v: &JsonValue, key: &str, default: JsonValue) -> (r: JsonValue)
    ensures
        r@ == value_or(v@, key@, default@),
{
    match v.get(key) {
        Some(x) => x.deep_clone(),
        None => default,
    }
}

/// The public view of a monthly ranking: GarupaSpeedTracker's
/// `toMonthlyRankingInfo` projection.
pub open spec fn info_view_spec(v: Json) -> Json {
    Json::Object(
        seq![
            ("monthlyRankingName"@, value_or(v, "monthlyRankingName"@, Json::Array(seq![]))),
            ("assetBundleName"@, value_or(v, "assetBundleName"@, Json::Null)),
            ("bgmFileName"@, value_or(v, "bgmFileName"@, Json::Null)),
            ("startAt"@, value_or(v, "startAt"@, Json::Array(seq![]))),
            ("endAt"@, value_or(v, "endAt"@, Json::Array(seq![]))),
        ],
    )
}

/// Public view of a monthly ranking, lightweight projection like
/// GarupaSpeedTracker's `toMonthlyRankingInfo`.
pub fn to_info_view(value: &JsonValue) -> (r: JsonValue)
    ensures
        r@ == info_view_spec(value@),
{
    let mut es: Vec<(String, JsonValue)> = Vec::new();
    es.push((String::from_str("monthlyRankingName"), copy_or(value, "monthlyRankingName", JsonValue::Array(Vec::new()))));
    es.push((String::from_str("assetBundleName"), copy_or(value, "assetBundleName", JsonValue::Null)));
    es.push((String::from_str("bgmFileName"), copy_or(value, "bgmFileName", JsonValue::Null)));
    es.push((String::from_str("startAt"), copy_or(value, "startAt", JsonValue::Array(Vec::new()))));
    es.push((String::from_str("endAt"), copy_or(value, "endAt", JsonValue::Array(Vec::new()))));
    proof {
        lemma_json_entries_view(es@);
        assert(json_list_view(Seq::<JsonValue>::empty()) =~= Seq::<Json>::empty());
        assert(json_entries_view(es@) =~= seq![
            ("monthlyRankingName"@, value_or(value@, "monthlyRankingName"@, Json::Array(seq![]))),
            ("assetBundleName"@, value_or(value@, "assetBundleName"@, Json::Null)),
            ("bgmFileName"@, value_or(value@, "bgmFileName"@, Json::Null)),
            ("startAt"@, value_or(value@, "startAt"@, Json::Array(seq![]))),
            ("endAt"@, value_or(value@, "endAt"@, Json::Array(seq![]))),
        ]);
    }
    JsonValue::Object(es)
}

// ---------------------------------------------------------------------------
// Query defaults
// ---------------------------------------------------------------------------

/// A monthly top query without `interval` or `since` asks for the raw
/// minute interval (60000 ms) from the start (`since` 0); its server is 0.
pub proof fn law_top_query_defaults(q: TopQuery)
    ensures
        top_window_spec(opt_view(q.interval), opt_view(q.since)) matches Ok((i, s)) ==> {
            &&& (q.interval is None ==> i == 60_000)
            &&& (q.since is None ==> s == 0)
        },
        top_target_spec(q) matches Ok((server, id)) ==> server == 0 && (q.monthlyId is None
            ==> id is None),
        q.server is None ==> top_target_spec(q) is Err,
{
    if let Some(s) = q.server {
        lemma_parse_i64_in_range(s@);
    }
}

/// A monthly border query needs a tier from the monthly list; its server
/// is 0, and without `monthlyId` the active ranking is looked up.
pub proof fn law_border_query_defaults(q: BorderQuery)
    ensures
        q.tier is None ==> border_target_spec(q) is Err,
        border_target_spec(q) matches Ok((server, tier, id)) ==> server == 0
            && monthly_border_tiers().contains(tier) && (q.monthlyId is None ==> id is None),
{
    if let Some(s) = q.server {
        lemma_parse_i64_in_range(s@);
    }
}

// ---------------------------------------------------------------------------
// Reading the bodies back
// ---------------------------------------------------------------------------

/// Each key of a `users` entry reads back the player field of its name.
pub proof fn lemma_user_read_back(p: PlayerDoc)
    ensures
        user_json(p).get("uid"@) == Some(Json::Int(p.uid as int)),
        user_json(p).get("name"@) == Some(Json::Str(p.name@)),
        user_json(p).get("introduction"@) == Some(Json::Str(p.introduction@)),
        user_json(p).get("rank"@) == Some(Json::Int(p.rank as int)),
        user_json(p).get("sid"@) == Some(Json::Int(p.sid as int)),
        user_json(p).get("strained"@) == Some(Json::Int(p.strained as int)),
        user_json(p).get("degrees"@) == Some(ints_json(p.degrees@)),
{
    reveal_strlit("uid");
    reveal_strlit("name");
    reveal_strlit("introduction");
    reveal_strlit("rank");
    reveal_strlit("sid");
    reveal_strlit("strained");
    reveal_strlit("degrees");
    assert("uid"@.len() == 3 && "uid"@[0] == 'u');
    assert("name"@.len() == 4 && "name"@[0] == 'n');
    assert("introduction"@.len() == 12);
    assert("rank"@.len() == 4 && "rank"@[0] == 'r');
    assert("sid"@.len() == 3 && "sid"@[0] == 's');
    assert("strained"@.len() == 8);
    assert("degrees"@.len() == 7);
    let es = seq![("uid"@, Json::Int(p.uid as int)), ("name"@, Json::Str(p.name@)), ("introduction"@, Json::Str(p.introduction@)), ("rank"@, Json::Int(p.rank as int)), ("sid"@, Json::Int(p.sid as int)), ("strained"@, Json::Int(p.strained as int)), ("degrees"@, ints_json(p.degrees@))];
    assert(user_json(p) == Json::Object(es));
    lemma_entry_index_at(es, "uid"@, 0);
    assert(es[0].0 != "name"@);
    lemma_entry_index_at(es, "name"@, 1);
    assert(es[0].0 != "introduction"@);
    assert(es[1].0 != "introduction"@);
    lemma_entry_index_at(es, "introduction"@, 2);
    assert(es[0].0 != "rank"@);
    assert(es[1].0 != "rank"@);
    assert(es[2].0 != "rank"@);
    lemma_entry_index_at(es, "rank"@, 3);
    assert(es[0].0 != "sid"@);
    assert(es[1].0 != "sid"@);
    assert(es[2].0 != "sid"@);
    assert(es[3].0 != "sid"@);
    lemma_entry_index_at(es, "sid"@, 4);
    assert(es[0].0 != "strained"@);
    assert(es[1].0 != "strained"@);
    assert(es[2].0 != "strained"@);
    assert(es[3].0 != "strained"@);
    assert(es[4].0 != "strained"@);
    lemma_entry_index_at(es, "strained"@, 5);
    assert(es[0].0 != "degrees"@);
    assert(es[1].0 != "degrees"@);
    assert(es[2].0 != "degrees"@);
    assert(es[3].0 != "degrees"@);
    assert(es[4].0 != "degrees"@);
    assert(es[5].0 != "degrees"@);
    lemma_entry_index_at(es, "degrees"@, 6);
}

/// Each key of a `points` entry reads back the point field of its name.
pub proof fn lemma_point_read_back(p: TopPoint)
    ensures
        point_json(p).get("time"@) == Some(Json::Int(p.time as int)),
        point_json(p).get("uid"@) == Some(Json::Int(p.uid as int)),
        point_json(p).get("value"@) == Some(Json::Int(p.value as int)),
{
    reveal_strlit("time");
    reveal_strlit("uid");
    reveal_strlit("value");
    assert("time"@.len() == 4);
    assert("uid"@.len() == 3);
    assert("value"@.len() == 5);
    let es = seq![("time"@, Json::Int(p.time as int)), ("uid"@, Json::Int(p.uid as int)), ("value"@, Json::Int(p.value as int))];
    assert(point_json(p) == Json::Object(es));
    lemma_entry_index_at(es, "time"@, 0);
    assert(es[0].0 != "uid"@);
    lemma_entry_index_at(es, "uid"@, 1);
    assert(es[0].0 != "value"@);
    assert(es[1].0 != "value"@);
    lemma_entry_index_at(es, "value"@, 2);
}

/// Each key of a `cutoffs` entry reads back the cutoff field of its name.
pub proof fn lemma_cutoff_read_back(c: CutoffPoint)
    ensures
        cutoff_json(c).get("time"@) == Some(Json::Int(c.time as int)),
        cutoff_json(c).get("ep"@) == Some(Json::Int(c.ep as int)),
{
    reveal_strlit("time");
    reveal_strlit("ep");
    assert("time"@.len() == 4);
    assert("ep"@.len() == 2);
    let es = seq![("time"@, Json::Int(c.time as int)), ("ep"@, Json::Int(c.ep as int))];
    assert(cutoff_json(c) == Json::Object(es));
    lemma_entry_index_at(es, "time"@, 0);
    assert(es[0].0 != "ep"@);
    lemma_entry_index_at(es, "ep"@, 1);
}

/// The `users` of a top body hold one entry per player, in order, and
/// each of its keys (`uid`, `name`, `introduction`, `rank`, `sid`,
/// `strained`, `degrees`) reads back that player's field of the same name.
pub proof fn law_users_read_back(docs: Seq<PlayerDoc>)
    ensures
        users_json(docs).len() == docs.len(),
        forall|i: int| 0 <= i < docs.len() ==> shows_player(#[trigger] users_json(docs)[i], docs[i]),
{
    assert forall|i: int| 0 <= i < docs.len() implies shows_player(#[trigger] users_json(docs)[i], docs[i]) by {
        lemma_user_read_back(docs[i]);
    }
}

/// A top body has `points` with one entry per point, in order, each of
/// whose `time`, `uid` and `value` reads back the point's, and `users` with
/// the players' entries.
pub proof fn law_top_body_read_back(points: Seq<TopPoint>, players: Seq<PlayerDoc>)
    ensures
        top_body_spec(points, players).get("points"@) matches Some(Json::Array(ps)) && ps.len()
            == points.len() && forall|k: int|
            #![trigger ps[k]]
            0 <= k < points.len() ==> ps[k].get("time"@) == Some(Json::Int(points[k].time as int))
                && ps[k].get("uid"@) == Some(Json::Int(points[k].uid as int)) && ps[k].get("value"@)
                == Some(Json::Int(points[k].value as int)),
        top_body_spec(points, players).get("users"@) == Some(Json::Array(users_json(players))),
{
    reveal_strlit("points");
    reveal_strlit("users");
    assert("points"@.len() == 6);
    assert("users"@.len() == 5);
    let ps = points.map_values(|p: TopPoint| point_json(p));
    let es = seq![("points"@, Json::Array(ps)), ("users"@, Json::Array(users_json(players)))];
    assert(top_body_spec(points, players) == Json::Object(es));
    lemma_entry_index_at(es, "points"@, 0);
    assert(es[0].0 != "users"@);
    lemma_entry_index_at(es, "users"@, 1);
    assert forall|k: int|
        #![trigger ps[k]]
        0 <= k < points.len() implies ps[k].get("time"@) == Some(Json::Int(points[k].time as int))
            && ps[k].get("uid"@) == Some(Json::Int(points[k].uid as int)) && ps[k].get("value"@)
            == Some(Json::Int(points[k].value as int)) by {
        lemma_point_read_back(points[k]);
    }
}

/// A border body has `result` true and `cutoffs` with one entry per cutoff,
/// in order, each of whose `time` and `ep` reads back the cutoff's.
pub proof fn law_border_body_read_back(cutoffs: Seq<CutoffPoint>)
    ensures
        border_body_spec(cutoffs).get("result"@) == Some(Json::Bool(true)),
        border_body_spec(cutoffs).get("cutoffs"@) matches Some(Json::Array(cs)) && cs.len()
            == cutoffs.len() && forall|k: int|
            #![trigger cs[k]]
            0 <= k < cutoffs.len() ==> cs[k].get("time"@) == Some(Json::Int(cutoffs[k].time as int))
                && cs[k].get("ep"@) == Some(Json::Int(cutoffs[k].ep as int)),
{
    reveal_strlit("result");
    reveal_strlit("cutoffs");
    assert("result"@.len() == 6);
    assert("cutoffs"@.len() == 7);
    let cs = cutoffs.map_values(|c: CutoffPoint| cutoff_json(c));
    let es = seq![("result"@, Json::Bool(true)), ("cutoffs"@, Json::Array(cs))];
    assert(border_body_spec(cutoffs) == Json::Object(es));
    lemma_entry_index_at(es, "result"@, 0);
    assert(es[0].0 != "cutoffs"@);
    lemma_entry_index_at(es, "cutoffs"@, 1);
    assert forall|k: int|
        #![trigger cs[k]]
        0 <= k < cutoffs.len() implies cs[k].get("time"@) == Some(Json::Int(cutoffs[k].time as int))
            && cs[k].get("ep"@) == Some(Json::Int(cutoffs[k].ep as int)) by {
        lemma_cutoff_read_back(cutoffs[k]);
    }
}

} // verus!
