use penlight_dream_box::collector::{master_refresh_due, poll_period_secs, snapshot_ts};
use penlight_dream_box::config::{load, normalize_garupa_base};
use penlight_dream_box::error::AppError;
use penlight_dream_box::text::{decimal_i64, parse_i64};
use penlight_dream_box::upstream::{dream_url, event_ranking_path, health_url, http_error_message, monthly_full_path, probe_url};

fn env(pairs: &[(&str, &str)]) -> Vec<(String, String)> {
    pairs.iter().map(|(k, v)| (k.to_string(), v.to_string())).collect()
}

#[test]
fn snapshots_are_clamped_to_the_end() {
    assert_eq!(snapshot_ts(5_000, 4_000), 4_000);
    assert_eq!(snapshot_ts(3_000, 4_000), 3_000);
    assert_eq!(snapshot_ts(5_000, 0), 5_000);
}

#[test]
fn master_refresh_timing() {
    assert!(master_refresh_due(true, Some(1), 3600));
    assert!(master_refresh_due(false, None, 3600));
    assert!(!master_refresh_due(false, Some(3599), 3600));
    assert!(master_refresh_due(false, Some(3600), 3600));
    assert_eq!(poll_period_secs(10), 30);
    assert_eq!(poll_period_secs(60), 60);
}

#[test]
fn configuration_defaults() {
    let c = load(&env(&[]));
    assert_eq!(c.host, "127.0.0.1");
    assert_eq!(c.port, 8081);
    assert_eq!(c.api_prefix, "/api");
    assert_eq!(c.dream_api_base, "http://127.0.0.1:8081/api");
    assert_eq!(c.dream_api_key, None);
    assert_eq!(c.api_key, None);
    assert_eq!(c.dream_api_timeout_secs, 30);
}

#[test]
fn configuration_reads_box_names_first_and_falls_back() {
    let c = load(&env(&[
        ("BOX_PORT", "8081"),
        ("PORT", "9000"),
        ("HOST", "0.0.0.0"),
        ("DREAM_API_BASE", "http://dream-api:8080/api///"),
        ("API_KEY", "shared"),
        ("GARUPA_ENCRYPTION_KEYS", " 0123456789abcdef "),
    ]));
    assert_eq!(c.port, 8081);
    assert_eq!(c.host, "0.0.0.0");
    assert_eq!(c.dream_api_base, "http://dream-api:8080/api");
    assert_eq!(c.dream_api_key.as_deref(), Some("shared"));
    assert_eq!(c.api_key.as_deref(), Some("shared"));
    assert_eq!(c.garupa_encryption_key.as_deref(), Some(&b"0123456789abcdef"[..]));
    assert_eq!(c.garupa_android_client_version, c.garupa_client_version);
    let fallback = load(&env(&[("BOX_PORT", "eighty"), ("PORT", "81")]));
    assert_eq!(fallback.port, 81);
    let bad = load(&env(&[("BOX_PORT", "eighty")]));
    assert_eq!(bad.port, 8081);
}

#[test]
fn server_bases_are_normalized() {
    assert_eq!(normalize_garupa_base("api.garupa.jp"), "https://api.garupa.jp/api/");
    assert_eq!(normalize_garupa_base("https://api.garupa.jp/api/"), "https://api.garupa.jp/api/");
    assert_eq!(normalize_garupa_base("http://host"), "http://host/api/");
    assert_eq!(normalize_garupa_base("  "), "");
    for raw in ["api.garupa.jp", " http://h:1/api/ ", "https://h", "https://h/api///"] {
        let once = normalize_garupa_base(raw);
        assert_eq!(normalize_garupa_base(&once), once);
    }
}

#[test]
fn dream_api_paths() {
    assert_eq!(dream_url("http://x/api", "/jp/events"), "http://x/api/jp/events");
    assert_eq!(monthly_full_path(12), "jp/monthly-ranking/12");
    assert_eq!(event_ranking_path(103, None), "jp/events/103/ranking");
    assert_eq!(event_ranking_path(103, Some(5)), "jp/events/103/ranking?mid=5");
    let long = "x".repeat(600);
    let m = http_error_message("404 Not Found", "http://x/api/jp", &long);
    assert_eq!(m, format!("HTTP 404 Not Found: http://x/api/jp: {}", "x".repeat(500)));
}

#[test]
fn decimal_text_round_trips() {
    for n in [0i64, 7, -7, 1_786_844_093_675, i64::MIN, i64::MAX] {
        assert_eq!(decimal_i64(n), n.to_string());
        assert_eq!(parse_i64(&decimal_i64(n)), Some(n));
    }
    assert_eq!(parse_i64("-"), None);
    assert_eq!(parse_i64("+12"), Some(12));
    assert_eq!(parse_i64("1 2"), None);
}

#[test]
fn errors_carry_status_and_body() {
    let v = AppError::validation("tier", "tier is required");
    assert_eq!(v.status(), 422);
    assert_eq!(v.message(), "Validation Failed");
    let body = v.body();
    assert!(body.get("details").is_some());
    assert_eq!(AppError::bad_request("b").status(), 400);
    assert_eq!(AppError::not_found("n").status(), 404);
    assert_eq!(AppError::unavailable("u").status(), 503);
    assert_eq!(AppError::upstream("x").status(), 502);
    assert_eq!(AppError::internal("i").status(), 500);
    assert_eq!(AppError::internal("boom").message(), "Internal Server Error");
}

#[test]
fn health_probe_goes_to_the_origin() {
    assert_eq!(health_url("http://dream-api:8080/api").as_deref(), Some("http://dream-api:8080/health"));
    assert_eq!(health_url("https://example.com:443/x/y?z=1").as_deref(), Some("https://example.com/health"));
    assert_eq!(health_url("not a url"), None);
    assert_eq!(probe_url("http://h"), "http://h/health");
}
