//! The data that the Penlight-Dream-API service answers with, and the
//! requests that the service is sent.
//!
//! Endpoints:
//! - `GET {base}/jp/monthly-ranking`: master list
//! - `GET {base}/jp/monthly-ranking/{id}`: full report with top and border users
//! - `GET {base}/jp/events`: event master list
//! - `GET {base}/jp/events/{id}/ranking?mid=`: event ranking report
//! - `GET {base}/jp/user/*` and `GET {base}/jp/cards`: profile data

use vstd::prelude::*;
use crate::config::opt_view;
use vstd::string::*;
use crate::json::JsonValue;
use crate::text::{decimal_i64, int_decimal, trim_start_char, trim_start_char_spec};

verus! {

/// A ranking user, field for field as Dream-API's `RankingUser`.
pub struct RankingUser {
    pub uid: i64,
    pub name: String,
    pub introduction: String,
    /// Player level `rankLevel`.
    pub rank: i64,
    /// Displayed card ID.
    pub sid: i64,
    /// 1 when the displayed card is the after-training illustration.
    pub strained: i64,
    /// Equipped profile degree IDs.
    pub degrees: Vec<i64>,
    /// Ranking position.
    pub tier: i64,
    /// Ranking points.
    pub point: i64,
}

/// Monthly ranking master entry: the JP value of each field.
pub struct MonthlyRankingInfo {
    pub monthly_ranking_id: i64,
    pub monthly_ranking_name: String,
    pub asset_bundle_name: String,
    pub bgm_file_name: String,
    pub start_at: i64,
    pub end_at: i64,
    pub enable_flg: bool,
    pub public_start_at: i64,
    pub public_end_at: i64,
    pub distribution_start_at: i64,
    pub distribution_end_at: i64,
    pub reception_end_at: i64,
    pub aggregate_end_at: i64,
    pub rewards: Vec<JsonValue>,
    pub grades: Vec<JsonValue>,
}

/// Full monthly ranking report: top users and border users.
pub struct MonthlyFull {
    pub monthly_ranking_point_top_users: Vec<RankingUser>,
    pub monthly_ranking_point_border_users: Vec<RankingUser>,
}

/// Event master entry: the JP value of each field.
pub struct EventInfo {
    pub event_id: i64,
    pub event_type: String,
    pub event_name: String,
    pub asset_bundle_name: String,
    pub start_at: i64,
    pub end_at: i64,
    pub enable_flg: bool,
    pub public_start_at: i64,
    pub public_end_at: i64,
    pub distribution_start_at: i64,
    pub distribution_end_at: i64,
    pub bgm_asset_bundle_name: String,
    pub bgm_file_name: String,
    pub aggregate_end_at: i64,
    pub event_exchanges_end_at: i64,
    pub reception_end_at: i64,
    pub previous_event_id: i64,
}

/// Per-song ranking inside an event ranking report.
pub struct MusicRanking {
    pub music_id: i64,
    pub score_top_users: Vec<RankingUser>,
    pub score_border_users: Vec<RankingUser>,
}

/// Event ranking report: event-wide top and border users and per-song rankings.
pub struct EventReport {
    pub event_type: String,
    pub event_point_top_users: Vec<RankingUser>,
    pub event_point_border_users: Vec<RankingUser>,
    pub music_rankings: Vec<MusicRanking>,
}

/// The URL of a Dream-API path: the base, a slash, and the path without its
/// leading slashes.
pub fn dream_url(base: &str, path: &str) -> (r: String)
    ensures
        r@ == base@ + "/"@ + trim_start_char_spec(path@, '/'),
{
    String::from_str(base).concat("/").concat(trim_start_char(path, '/'))
}

/// The path of a monthly ranking's full report.
pub fn monthly_full_path(monthly_id: i64) -> (r: String)
    ensures
        r@ == "jp/monthly-ranking/"@ + int_decimal(monthly_id as int),
{
    String::from_str("jp/monthly-ranking/").concat(decimal_i64(monthly_id).as_str())
}

/// The path of an event's ranking report, with `?mid=` for a per-song
/// ranking.
pub fn event_ranking_path(event_id: i64, mid: Option<i64>) -> (r: String)
    ensures
        r@ == "jp/events/"@ + int_decimal(event_id as int) + "/ranking"@ + match mid {
            Some(m) => "?mid="@ + int_decimal(m as int),
            None => Seq::empty(),
        },
{
    let path = String::from_str("jp/events/").concat(decimal_i64(event_id).as_str()).concat(
        "/ranking",
    );
    match mid {
        Some(m) => {
            let r = path.concat("?mid=").concat(decimal_i64(m).as_str());
            assert(r@ =~= "jp/events/"@ + int_decimal(event_id as int) + "/ranking"@ + "?mid="@
                + int_decimal(m as int));
            r
        },
        None => {
            assert(path@ =~= "jp/events/"@ + int_decimal(event_id as int) + "/ranking"@
                + Seq::<char>::empty());
            path
        },
    }
}

/// The longest body excerpt an upstream error message quotes, in characters.
pub const ERROR_SNIPPET_CHARS: usize = 500;

/// The first 500 characters of `body`, or all of it.
pub open spec fn snippet_spec(body: Seq<char>) -> Seq<char> {
    if body.len() <= 500 {
        body
    } else {
        body.subrange(0, 500)
    }
}

/// The error message of an unsuccessful Dream-API response:
/// `HTTP {status}: {url}: {snippet}`, quoting at most 500 characters of the
/// body.
pub fn http_error_message(status: &str, url: &str, body: &str) -> (r: String)
    ensures
        r@ == "HTTP "@ + status@ + ": "@ + url@ + ": "@ + snippet_spec(body@),
{
    let n = body.unicode_len();
    let end = if n <= ERROR_SNIPPET_CHARS {
        n
    } else {
        ERROR_SNIPPET_CHARS
    };
    let snippet = body.substring_char(0, end);
    assert(snippet@ =~= snippet_spec(body@));
    String::from_str("HTTP ").concat(status).concat(": ").concat(url).concat(": ").concat(snippet)
}

// ---------------------------------------------------------------------------
// Health probe
// ---------------------------------------------------------------------------

/// What `Url::parse(base)` followed by `origin().ascii_serialization()`
/// gives: the scheme, host and any non-default port of the URL (`null` for
/// an opaque origin), or nothing where `base` does not parse as a URL.
pub uninterp spec fn url_origin(base: Seq<char>) -> Option<Seq<char>>;

/// `reqwest::Url::parse` (the `url` crate's parser) and
/// `Origin::ascii_serialization`: the ASCII origin of `base`. The contract
/// names the origin and states nothing more of URL parsing.
#[verifier::external_body]
fn parse_origin(base: &str) -> (r: Option<String>)
    ensures
        opt_view(r) == url_origin(base@),
{
    match reqwest::Url::parse(base) {
        Ok(url) => Some(url.origin().ascii_serialization()),
        Err(_) => None,
    }
}

/// The health endpoint of a Dream-API origin: the service serves `/health`
/// outside its API prefix.
pub fn probe_url(origin: &str) -> (r: String)
    ensures
        r@ == origin@ + "/health"@,
{
    String::from_str(origin).concat("/health")
}

/// The URL that the collector probes before it starts: the origin of the
/// configured base followed by `/health`, or nothing where the base is not
/// a URL (the probe then fails).
pub fn health_url(base: &str) -> (r: Option<String>)
    ensures
        match r {
            Some(u) => url_origin(base@) matches Some(o) && u@ == o + "/health"@,
            None => url_origin(base@) is None,
        },
{
    match parse_origin(base) {
        Some(origin) => Some(probe_url(origin.as_str())),
        None => None,
    }
}

} // verus!
