use penlight_dream_box::api::auth::{authorized, unauthorized_body};
use penlight_dream_box::api::event::{
    bestdori_location, event_view, eventtop_answer, parse_server as event_server, resample_cutoffs, tracker_answer,
    Answer, EventTopQuery, TrackerQuery,
};
use penlight_dream_box::api::monthly::{
    border_body, parse_int, parse_server as monthly_server, to_info_view, to_users, top_body, BorderQuery, TopQuery,
};
use penlight_dream_box::api::resample_points;
use penlight_dream_box::error::AppError;
use penlight_dream_box::json::JsonValue;
use penlight_dream_box::storage::{CutoffPoint, PlayerDoc, TopPoint};

fn s(v: &str) -> Option<String> {
    Some(v.to_string())
}

fn validation(r: Result<impl std::fmt::Debug, AppError>) -> (String, String) {
    match r {
        Err(AppError::Validation { field, message }) => (field, message),
        other => panic!("expected a validation error, got {other:?}"),
    }
}

fn pt(time: i64, uid: i64, value: i64) -> TopPoint {
    TopPoint { time, uid, value }
}

fn ints(v: &JsonValue) -> Option<i64> {
    match v {
        JsonValue::Int(n) => Some(*n),
        _ => None,
    }
}

fn len_of(v: Option<&JsonValue>) -> Option<usize> {
    v.and_then(|x| x.as_array()).map(|a| a.len())
}

#[test]
fn parse_int_accepts_integers_at_or_above_the_minimum() {
    assert_eq!(parse_int("42", "tier", 1).unwrap(), 42);
    assert_eq!(parse_int("+7", "tier", 1).unwrap(), 7);
    assert_eq!(parse_int("0", "since", 0).unwrap(), 0);
    assert_eq!(
        validation(parse_int("abc", "tier", 1)),
        ("tier".to_string(), "tier must be an integer".to_string())
    );
    assert_eq!(
        validation(parse_int("", "tier", 1)),
        ("tier".to_string(), "tier must be an integer".to_string())
    );
    assert_eq!(
        validation(parse_int("0", "interval", 1)),
        ("interval".to_string(), "interval must be >= 1".to_string())
    );
    assert_eq!(
        validation(parse_int("-5", "since", 0)),
        ("since".to_string(), "since must be >= 0".to_string())
    );
    assert_eq!(
        validation(parse_int("9223372036854775808", "event", 1)),
        ("event".to_string(), "event must be an integer".to_string())
    );
}

#[test]
fn monthly_server_is_zero_only() {
    assert_eq!(monthly_server(Some("0")).unwrap(), 0);
    assert_eq!(
        validation(monthly_server(None)),
        ("server".to_string(), "server is required".to_string())
    );
    assert_eq!(
        validation(monthly_server(Some("1"))),
        ("server".to_string(), "server must be between 0 and 0".to_string())
    );
    assert_eq!(
        validation(monthly_server(Some("jp"))),
        ("server".to_string(), "server must be an integer".to_string())
    );
    assert_eq!(
        validation(monthly_server(Some("+0"))),
        ("server".to_string(), "server must be between 0 and 0".to_string())
    );
    assert_eq!(
        validation(monthly_server(Some("00"))),
        ("server".to_string(), "server must be between 0 and 0".to_string())
    );
    assert_eq!(
        validation(monthly_server(Some("-1"))),
        ("server".to_string(), "server must be >= 0".to_string())
    );
}

#[test]
fn event_server_accepts_jp_and_zero() {
    assert_eq!(event_server(Some("jp")).unwrap(), 0);
    assert_eq!(event_server(Some("0")).unwrap(), 0);
    assert_eq!(
        validation(event_server(Some("cn"))),
        ("server".to_string(), "unsupported server \"cn\": only jp/0 is served".to_string())
    );
    assert_eq!(
        validation(event_server(None)),
        ("server".to_string(), "server is required".to_string())
    );
}

#[test]
fn top_query_defaults_and_order() {
    let q = TopQuery { server: s("0"), monthlyId: None, interval: None, since: None };
    assert_eq!(q.target().unwrap(), (0, None));
    assert_eq!(q.window().unwrap(), (60_000, 0));
    let q = TopQuery { server: s("0"), monthlyId: s("2"), interval: s("900000"), since: s("1786844000000") };
    assert_eq!(q.target().unwrap(), (0, Some(2)));
    assert_eq!(q.window().unwrap(), (900_000, 1_786_844_000_000));
    let q = TopQuery { server: s("9"), monthlyId: s("x"), interval: None, since: None };
    assert_eq!(validation(q.target()).0, "server");
    let q = TopQuery { server: s("0"), monthlyId: s("0"), interval: None, since: None };
    assert_eq!(
        validation(q.target()),
        ("monthlyId".to_string(), "monthlyId must be >= 1".to_string())
    );
}

#[test]
fn border_query_checks_the_monthly_tier_list() {
    let q = BorderQuery { server: s("0"), monthlyId: s("2"), tier: s("100") };
    assert_eq!(q.target().unwrap(), (0, 100, Some(2)));
    let q = BorderQuery { server: s("0"), monthlyId: None, tier: s("1500") };
    assert_eq!(
        validation(q.target()),
        (
            "tier".to_string(),
            "tier must be one of: 20,30,40,50,100,200,300,500,1000,2000,3000,4000,5000".to_string()
        )
    );
    let q = BorderQuery { server: s("0"), monthlyId: None, tier: None };
    assert_eq!(validation(q.target()), ("tier".to_string(), "tier is required".to_string()));
    let q = BorderQuery { server: s("0"), monthlyId: None, tier: s("5000") };
    assert_eq!(q.target().unwrap(), (0, 5000, None));
}

#[test]
fn event_top_query_requires_an_event() {
    let q = EventTopQuery { server: s("jp"), event: s("103"), mid: s("0"), interval: s("60000"), since: None };
    let p = q.params().unwrap();
    assert_eq!((p.server, p.event, p.mid, p.interval_ms, p.since), (0, 103, 0, 60_000, 0));
    let q = EventTopQuery { server: s("0"), event: None, mid: None, interval: None, since: None };
    assert_eq!(validation(q.params()), ("event".to_string(), "event is required".to_string()));
    let q = EventTopQuery { server: s("0"), event: s("103"), mid: s("-1"), interval: None, since: None };
    assert_eq!(validation(q.params()), ("mid".to_string(), "mid must be >= 0".to_string()));
}

#[test]
fn tracker_query_picks_the_tier_list_by_mid() {
    let q = TrackerQuery { server: s("0"), event: s("103"), tier: s("1500"), mid: None, interval: None };
    let p = q.params().unwrap();
    assert_eq!((p.server, p.event, p.mid, p.tier, p.interval_ms), (0, 103, 0, 1500, 60_000));
    let q = TrackerQuery { server: s("0"), event: s("103"), tier: s("1500"), mid: s("7"), interval: None };
    assert_eq!(
        validation(q.params()),
        (
            "tier".to_string(),
            "tier must be one of: 20,30,40,50,100,200,300,500,1000,2000,5000,10000,20000,50000,100000".to_string()
        )
    );
    let q = TrackerQuery { server: s("0"), event: s("103"), tier: s("7"), mid: None, interval: None };
    assert_eq!(
        validation(q.params()),
        (
            "tier".to_string(),
            "tier must be one of: 20,30,40,50,100,200,300,500,1000,1500,2000,3000,4000,5000,10000,20000,30000,40000,50000,100000".to_string()
        )
    );
    let q = TrackerQuery { server: s("0"), event: s("103"), tier: None, mid: None, interval: None };
    assert_eq!(validation(q.params()), ("tier".to_string(), "tier is required".to_string()));
}

#[test]
fn resampling_at_a_minute_keeps_the_series() {
    let points = vec![pt(3, 1, 10), pt(1, 2, 20), pt(2, 1, 30)];
    assert_eq!(resample_points(&points, 60_000), points);
    assert_eq!(resample_points(&points, 1), points);
}

#[test]
fn resampling_keeps_the_last_point_of_each_user_and_bucket() {
    let i = 900_000;
    let points = vec![
        pt(100, 1, 10),
        pt(200, 2, 20),
        pt(300, 1, 11),
        pt(i + 5, 1, 12),
        pt(400, 2, 21),
        pt(i + 1, 2, 22),
    ];
    let out = resample_points(&points, i);
    assert_eq!(out, vec![pt(300, 1, 11), pt(400, 2, 21), pt(i + 1, 2, 22), pt(i + 5, 1, 12)]);
    assert_eq!(resample_points(&out, i), out);
}

#[test]
fn resampling_orders_equal_times_by_user() {
    let points = vec![pt(500, 9, 1), pt(500, 3, 2), pt(500, 5, 3)];
    let out = resample_points(&points, 120_000);
    assert_eq!(out, vec![pt(500, 3, 2), pt(500, 5, 3), pt(500, 9, 1)]);
}

#[test]
fn cutoff_resampling_rounds_buckets_towards_zero() {
    let c = |time, ep| CutoffPoint { time, ep };
    let cutoffs = vec![c(-1000, 1), c(1000, 2), c(-900_000, 3), c(950_000, 4), c(910_000, 5)];
    let out = resample_cutoffs(&cutoffs, 900_000);
    assert_eq!(out, vec![c(-900_000, 3), c(1000, 2), c(910_000, 5)]);
    assert_eq!(resample_cutoffs(&cutoffs, 60_000), cutoffs);
}

#[test]
fn api_key_rule() {
    assert!(authorized(None, None, None));
    assert!(authorized(Some("k"), Some("k"), None));
    assert!(authorized(Some("k"), Some("x"), Some("Bearer k")));
    assert!(!authorized(Some("k"), Some("x"), None));
    assert!(authorized(Some("k"), None, Some("Bearer k")));
    assert!(!authorized(Some("k"), None, Some("bearer k")));
    assert!(!authorized(Some("k"), None, Some("Bearer kk")));
    assert!(!authorized(Some("k"), None, None));
    let body = unauthorized_body();
    assert_eq!(body.get("status").and_then(ints), Some(401));
    assert!(matches!(body.get("message"), Some(JsonValue::Str(m)) if m == "Unauthorized"));
}

#[test]
fn redirects_go_to_bestdori_with_the_request_path() {
    assert_eq!(
        bestdori_location("/api/tracker/data?server=0&event=103&tier=1000"),
        "https://bestdori.com/api/tracker/data?server=0&event=103&tier=1000"
    );
    assert_eq!(bestdori_location(""), "https://bestdori.com");
}

#[test]
fn empty_answers_of_the_top_and_border_endpoints() {
    let top = top_body(&vec![], &vec![]);
    assert_eq!(len_of(top.get("points")), Some(0));
    assert_eq!(len_of(top.get("users")), Some(0));
    let border = border_body(&vec![]);
    assert!(matches!(border.get("result"), Some(JsonValue::Bool(true))));
    assert_eq!(len_of(border.get("cutoffs")), Some(0));
}

#[test]
fn bodies_carry_points_users_and_cutoffs() {
    let player = || PlayerDoc {
        server: 0,
        uid: 1001,
        name: "ひまり".to_string(),
        introduction: "よろしく".to_string(),
        rank: 99,
        sid: 7,
        strained: 0,
        degrees: vec![1, 2],
        updated_at: 5,
    };
    let users = to_users(&vec![player()]);
    assert_eq!(users.len(), 1);
    assert_eq!(users[0].get("uid").and_then(ints), Some(1001));
    assert!(matches!(users[0].get("name"), Some(JsonValue::Str(n)) if n == "ひまり"));
    assert_eq!(len_of(users[0].get("degrees")), Some(2));
    assert!(users[0].get("updatedAt").is_none());
    let top = top_body(&vec![pt(1786844093675, 1001, 28501234)], &vec![player()]);
    let first = top.get("points").and_then(|p| p.at(0)).unwrap();
    assert_eq!(first.get("time").and_then(ints), Some(1786844093675));
    assert_eq!(first.get("value").and_then(ints), Some(28501234));
    let border = border_body(&vec![CutoffPoint { time: 1786844093666, ep: 14500000 }]);
    let c = border.get("cutoffs").and_then(|p| p.at(0)).unwrap();
    assert_eq!(c.get("ep").and_then(ints), Some(14500000));
}

#[test]
fn info_and_event_views_fill_missing_keys() {
    let doc = JsonValue::Object(vec![
        ("assetBundleName".to_string(), JsonValue::Str("monthly_202507".to_string())),
        ("rewards".to_string(), JsonValue::Array(vec![])),
    ]);
    let view = to_info_view(&doc);
    assert!(matches!(view.get("assetBundleName"), Some(JsonValue::Str(a)) if a == "monthly_202507"));
    assert_eq!(len_of(view.get("monthlyRankingName")), Some(0));
    assert!(matches!(view.get("bgmFileName"), Some(JsonValue::Null)));
    assert_eq!(len_of(view.get("endAt")), Some(0));
    assert!(view.get("rewards").is_none());
    let event = JsonValue::Object(vec![("eventId".to_string(), JsonValue::Int(103))]);
    let ev = event_view(&event);
    assert_eq!(ev.get("eventId").and_then(ints), Some(103));
    assert!(matches!(ev.get("eventName"), Some(JsonValue::Null)));
}

#[test]
fn cutoff_resampling_is_idempotent() {
    let c = |time, ep| CutoffPoint { time, ep };
    let cutoffs = vec![c(10, 1), c(70_000, 2), c(130_000, 3), c(20, 4), c(200_000, 5)];
    let once = resample_cutoffs(&cutoffs, 120_000);
    assert_eq!(once, vec![c(20, 4), c(200_000, 5)]);
    assert_eq!(resample_cutoffs(&once, 120_000), once);
}

#[test]
fn event_answers_redirect_without_data() {
    match eventtop_answer(&vec![], &vec![], 60_000, "/api/eventtop/data?server=jp&event=103") {
        Answer::Redirect(l) => assert_eq!(l, "https://bestdori.com/api/eventtop/data?server=jp&event=103"),
        Answer::Body(_) => panic!("expected a redirect"),
    }
    let c = |time, ep| CutoffPoint { time, ep };
    match tracker_answer(&vec![c(10, 1), c(20, 2)], 120_000, "/x") {
        Answer::Body(b) => {
            assert_eq!(len_of(b.get("cutoffs")), Some(1));
            let first = b.get("cutoffs").and_then(|x| x.at(0)).unwrap();
            assert_eq!(first.get("ep").and_then(ints), Some(2));
        }
        Answer::Redirect(_) => panic!("expected a body"),
    }
}
