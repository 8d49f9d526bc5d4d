//! Runtime configuration from environment variables.
//!
//! The caller reads the process environment (after loading `.env` files)
//! into a list of name/value pairs; `load` assembles the configuration from
//! that list with the documented fallbacks.

use vstd::prelude::*;
use vstd::string::*;
use vstd::utf8::encode_utf8;
use crate::text::{
    str_eq, trim, trim_spec, trim_end_char, trim_end_char_spec, starts_with, ends_with,
    parse_unsigned, parse_unsigned_spec,
};

verus! {

/// The value of the variable `name`: the first pair with that name.
pub open spec fn env_lookup(env: Seq<(String, String)>, name: Seq<char>) -> Option<Seq<char>>
    decreases env.len(),
{
    if env.len() == 0 {
        None
    } else if env[0].0@ == name {
        Some(env[0].1@)
    } else {
        env_lookup(env.subrange(1, env.len() as int), name)
    }
}

/// The value of `name`, or `fallback` when it is not set.
pub open spec fn env_or(env: Seq<(String, String)>, name: Seq<char>, fallback: Seq<char>) -> Seq<
    char,
> {
    match env_lookup(env, name) {
        Some(v) => v,
        None => fallback,
    }
}

/// The first non-empty value among `names`, or `fallback`.
pub open spec fn env_first(env: Seq<(String, String)>, names: Seq<Seq<char>>, fallback: Seq<char>) -> Seq<
    char,
>
    decreases names.len(),
{
    if names.len() == 0 {
        fallback
    } else {
        match env_lookup(env, names[0]) {
            Some(v) => if v.len() > 0 {
                v
            } else {
                env_first(env, names.drop_first(), fallback)
            },
            None => env_first(env, names.drop_first(), fallback),
        }
    }
}

/// The first value among `names` that parses as a `u16`, or `fallback`.
pub open spec fn env_first_u16(env: Seq<(String, String)>, names: Seq<Seq<char>>, fallback: u16) -> u16
    decreases names.len(),
{
    if names.len() == 0 {
        fallback
    } else {
        match env_lookup(env, names[0]) {
            Some(v) => match parse_unsigned_spec(v, 65535) {
                Some(n) => n as u16,
                None => env_first_u16(env, names.drop_first(), fallback),
            },
            None => env_first_u16(env, names.drop_first(), fallback),
        }
    }
}

/// The value of `name` as a `u64`, or `fallback` when it is unset or does
/// not parse.
pub open spec fn env_u64(env: Seq<(String, String)>, name: Seq<char>, fallback: u64) -> u64 {
    match env_lookup(env, name) {
        Some(v) => match parse_unsigned_spec(v, u64::MAX as int) {
            Some(n) => n as u64,
            None => fallback,
        },
        None => fallback,
    }
}

/// The UTF-8 bytes of the trimmed value of `name`, when that is not empty.
pub open spec fn env_bytes(env: Seq<(String, String)>, name: Seq<char>) -> Option<Seq<u8>> {
    match env_lookup(env, name) {
        Some(v) => {
            let b = encode_utf8(trim_spec(v));
            if b.len() > 0 {
                Some(b)
            } else {
                None
            }
        },
        None => None,
    }
}

/// The value of the variable `name`, as `std::env::var` reads it.
pub fn var(env: &Vec<(String, String)>, name: &str) -> (r: Option<String>)
    ensures
        match r {
            Some(v) => env_lookup(env@, name@) == Some(v@),
            None => env_lookup(env@, name@) is None,
        },
{
    let mut i: usize = 0;
    assert(env@.subrange(0, env@.len() as int) =~= env@);
    while i < env.len()
        invariant
            0 <= i <= env@.len(),
            env_lookup(env@, name@) == env_lookup(env@.subrange(i as int, env@.len() as int), name@),
        decreases env.len() - i,
    {
        let ghost rest = env@.subrange(i as int, env@.len() as int);
        assert(rest.subrange(1, rest.len() as int) =~= env@.subrange(i + 1, env@.len() as int));
        if str_eq(env[i].0.as_str(), name) {
            return Some(env[i].1.clone());
        }
        i = i + 1;
    }
    None
}

/// The value of `name`, or `fallback`.
pub fn get(env: &Vec<(String, String)>, name: &str, fallback: &str) -> (r: String)
    ensures
        r@ == env_or(env@, name@, fallback@),
{
    match var(env, name) {
        Some(v) => v,
        None => String::from_str(fallback),
    }
}

/// The names of a list of variables.
pub open spec fn names_view(names: Seq<&str>) -> Seq<Seq<char>> {
    names.map_values(|n: &str| n@)
}

/// The first non-empty value among `names`, or `fallback`; a shared `.env`
/// can so give the service its own `BOX_*` values.
pub fn get_first(env: &Vec<(String, String)>, names: &[&str], fallback: &str) -> (r: String)
    ensures
        r@ == env_first(env@, names_view(names@), fallback@),
{
    let ghost all = names_view(names@);
    let mut i: usize = 0;
    assert(all.subrange(0, all.len() as int) =~= all);
    while i < names.len()
        invariant
            0 <= i <= names@.len(),
            all == names_view(names@),
            env_first(env@, all, fallback@) == env_first(
                env@,
                all.subrange(i as int, all.len() as int),
                fallback@,
            ),
        decreases names.len() - i,
    {
        let ghost rest = all.subrange(i as int, all.len() as int);
        assert(rest.drop_first() =~= all.subrange(i + 1, all.len() as int));
        assert(rest[0] == names@[i as int]@);
        match var(env, names[i]) {
            Some(v) => {
                if v.unicode_len() > 0 {
                    return v;
                }
            },
            None => {},
        }
        i = i + 1;
    }
    String::from_str(fallback)
}

/// The first value among `names` that parses as a `u16`, or `fallback`.
pub fn get_first_u16(env: &Vec<(String, String)>, names: &[&str], fallback: u16) -> (r: u16)
    ensures
        r == env_first_u16(env@, names_view(names@), fallback),
{
    let ghost all = names_view(names@);
    let mut i: usize = 0;
    assert(all.subrange(0, all.len() as int) =~= all);
    while i < names.len()
        invariant
            0 <= i <= names@.len(),
            all == names_view(names@),
            env_first_u16(env@, all, fallback) == env_first_u16(
                env@,
                all.subrange(i as int, all.len() as int),
                fallback,
            ),
        decreases names.len() - i,
    {
        let ghost rest = all.subrange(i as int, all.len() as int);
        assert(rest.drop_first() =~= all.subrange(i + 1, all.len() as int));
        assert(rest[0] == names@[i as int]@);
        match var(env, names[i]) {
            Some(v) => {
                match parse_unsigned(v.as_str(), 65535) {
                    Some(n) => {
                        return n as u16;
                    },
                    None => {},
                }
            },
            None => {},
        }
        i = i + 1;
    }
    fallback
}

/// The value of `name` as a `u64`, or `fallback`.
pub fn get_u64(env: &Vec<(String, String)>, name: &str, fallback: u64) -> (r: u64)
    ensures
        r == env_u64(env@, name@, fallback),
{
    match var(env, name) {
        Some(v) => match parse_unsigned(v.as_str(), u64::MAX) {
            Some(n) => n,
            None => fallback,
        },
        None => fallback,
    }
}

/// The UTF-8 bytes of the trimmed value of `name`, when it is set and not
/// blank.
pub fn get_optional_bytes(env: &Vec<(String, String)>, name: &str) -> (r: Option<Vec<u8>>)
    ensures
        match r {
            Some(b) => env_bytes(env@, name@) == Some(b@),
            None => env_bytes(env@, name@) is None,
        },
{
    match var(env, name) {
        Some(v) => {
            let t = trim(v.as_str());
            let b = t.as_bytes_vec();
            if b.len() > 0 {
                Some(b)
            } else {
                None
            }
        },
        None => None,
    }
}

/// The API base of the official server: `raw` trimmed, without trailing
/// slashes, given `https://` when it names no scheme, and ending in `/api/`.
pub open spec fn garupa_base_spec(raw: Seq<char>) -> Seq<char> {
    let r = trim_end_char_spec(trim_spec(raw), '/');
    if r.len() == 0 {
        Seq::empty()
    } else if (r.len() >= 7 && r.subrange(0, 7) == "http://"@) || (r.len() >= 8 && r.subrange(0, 8)
        == "https://"@) {
        if r.len() >= 4 && r.subrange(r.len() - 4, r.len() as int) == "/api"@ {
            r + "/"@
        } else {
            r + "/api/"@
        }
    } else {
        "https://"@ + r + "/api/"@
    }
}

/// Normalizes the configured official server into its API base URL.
pub fn normalize_garupa_base(raw: &str) -> (r: String)
    ensures
        r@ == garupa_base_spec(raw@),
{
    proof {
        reveal_strlit("http://");
        reveal_strlit("https://");
        reveal_strlit("/api");
    }
    let r = trim_end_char(trim(raw), '/');
    if r.unicode_len() == 0 {
        return String::new();
    }
    if starts_with(r, "http://") || starts_with(r, "https://") {
        if ends_with(r, "/api") {
            String::from_str(r).concat("/")
        } else {
            String::from_str(r).concat("/api/")
        }
    } else {
        String::from_str("https://").concat(r).concat("/api/")
    }
}

/// The service's runtime configuration.
pub struct Config {
    /// HTTP listen host.
    pub host: String,
    /// HTTP listen port.
    pub port: u16,
    /// Prefix prepended to all API routes.
    pub api_prefix: String,
    /// Base URL of the Penlight-Dream-API service, e.g. `http://dream-api:8080/api`.
    pub dream_api_base: String,
    /// Optional API key sent to Dream-API; falls back to `API_KEY`.
    pub dream_api_key: Option<String>,
    /// Upstream request timeout, in seconds.
    pub dream_api_timeout_secs: u64,
    /// MongoDB connection string.
    pub mongodb_uri: String,
    /// MongoDB database name.
    pub mongodb_db: String,
    /// Poll interval for active monthly rankings and events, in seconds.
    pub poll_interval_secs: u64,
    /// Refresh interval for master lists, in seconds.
    pub master_interval_secs: u64,
    /// How long after a ranking's `endAt` the final snapshot is still
    /// collected, in seconds.
    pub post_end_window_secs: u64,
    /// Optional API key; when set, every API request must send it.
    pub api_key: Option<String>,
    /// API base of the official server for profile exports.
    pub garupa_base: String,
    pub garupa_encryption_key: Option<Vec<u8>>,
    pub garupa_encryption_iv: Option<Vec<u8>>,
    pub garupa_client_version: String,
    pub garupa_android_client_version: String,
    pub garupa_unity_version: String,
    pub garupa_user_agent: String,
    pub garupa_package_url: String,
    /// Profile request timeout, in seconds.
    pub garupa_timeout_secs: u64,
    /// How long a looked-up store version is reused, in seconds.
    pub garupa_version_ttl_secs: u64,
}

/// `Some(v)` for a non-empty `v`, else `None`.
pub open spec fn non_empty(v: Seq<char>) -> Option<Seq<char>> {
    if v.len() > 0 {
        Some(v)
    } else {
        None
    }
}

/// The view of an optional string.
pub open spec fn opt_view(o: Option<String>) -> Option<Seq<char>> {
    match o {
        Some(s) => Some(s@),
        None => None,
    }
}

/// The view of optional bytes.
pub open spec fn opt_bytes_view(o: Option<Vec<u8>>) -> Option<Seq<u8>> {
    match o {
        Some(b) => Some(b@),
        None => None,
    }
}

/// The default user agent: the Unity player of `unity`.
pub open spec fn user_agent_spec(unity: Seq<char>) -> Seq<char> {
    "UnityPlayer/"@ + unity + " (UnityWebRequest/1.0, libcurl/8.5.0-DEV)"@
}

fn non_empty_string(v: String) -> (r: Option<String>)
    ensures
        opt_view(r) == non_empty(v@),
{
    if v.unicode_len() > 0 {
        Some(v)
    } else {
        None
    }
}

/// Assembles the configuration from the environment `env`.
pub fn load(env: &Vec<(String, String)>) -> (c: Config)
    ensures
        c.host@ == env_first(env@, seq!["BOX_HOST"@, "HOST"@], "127.0.0.1"@),
        c.port == env_first_u16(env@, seq!["BOX_PORT"@, "PORT"@], 8081),
        c.api_prefix@ == env_first(env@, seq!["BOX_API_PREFIX"@, "API_PREFIX"@], "/api"@),
        c.dream_api_base@ == trim_end_char_spec(
            env_or(env@, "DREAM_API_BASE"@, "http://127.0.0.1:8081/api"@),
            '/',
        ),
        opt_view(c.dream_api_key) == non_empty(
            env_first(env@, seq!["DREAM_API_KEY"@, "API_KEY"@], ""@),
        ),
        c.dream_api_timeout_secs == env_u64(env@, "DREAM_API_TIMEOUT_SECS"@, 30),
        c.mongodb_uri@ == env_or(env@, "MONGODB_URI"@, "mongodb://127.0.0.1:27017"@),
        c.mongodb_db@ == env_or(env@, "MONGODB_DB"@, "penlight_box"@),
        c.poll_interval_secs == env_u64(env@, "POLL_INTERVAL_SECS"@, 60),
        c.master_interval_secs == env_u64(env@, "MASTER_INTERVAL_SECS"@, 3600),
        c.post_end_window_secs == env_u64(env@, "POST_END_WINDOW_SECS"@, 3600),
        opt_view(c.api_key) == non_empty(env_or(env@, "API_KEY"@, ""@)),
        c.garupa_base@ == garupa_base_spec(env_or(env@, "GARUPA_SERVER_BASES"@, "api.garupa.jp"@)),
        opt_bytes_view(c.garupa_encryption_key) == env_bytes(env@, "GARUPA_ENCRYPTION_KEYS"@),
        opt_bytes_view(c.garupa_encryption_iv) == env_bytes(env@, "GARUPA_ENCRYPTION_IVS"@),
        c.garupa_client_version@ == env_first(env@, seq!["GARUPA_CLIENT_VERSIONS"@], "10.1.3"@),
        c.garupa_android_client_version@ == env_first(
            env@,
            seq!["GARUPA_ANDROID_CLIENT_VERSIONS"@, "GARUPA_CLIENT_VERSIONS"@],
            "10.1.3"@,
        ),
        c.garupa_unity_version@ == env_first(env@, seq!["GARUPA_UNITY_VERSIONS"@], "2021.3.45f2"@),
        c.garupa_user_agent@ == env_first(
            env@,
            seq!["GARUPA_USER_AGENTS"@],
            user_agent_spec(env_first(env@, seq!["GARUPA_UNITY_VERSIONS"@], "2021.3.45f2"@)),
        ),
        c.garupa_package_url@ == env_first(
            env@,
            seq!["GARUPA_PACKAGE_URLS"@],
            "https://itunes.apple.com/jp/lookup?bundleId=jp.co.craftegg.band"@,
        ),
        c.garupa_timeout_secs == env_u64(
            env@,
            "GARUPA_PROFILE_TIMEOUT_SECS"@,
            env_u64(env@, "DREAM_API_TIMEOUT_SECS"@, 30),
        ),
        c.garupa_version_ttl_secs == env_u64(env@, "GARUPA_VERSION_TTL_SECONDS"@, 3600),
{
    let host_names = ["BOX_HOST", "HOST"];
    let port_names = ["BOX_PORT", "PORT"];
    let prefix_names = ["BOX_API_PREFIX", "API_PREFIX"];
    let dream_key_names = ["DREAM_API_KEY", "API_KEY"];
    let client_names = ["GARUPA_CLIENT_VERSIONS"];
    let android_names = ["GARUPA_ANDROID_CLIENT_VERSIONS", "GARUPA_CLIENT_VERSIONS"];
    let unity_names = ["GARUPA_UNITY_VERSIONS"];
    let agent_names = ["GARUPA_USER_AGENTS"];
    let package_names = ["GARUPA_PACKAGE_URLS"];
    assert(names_view(host_names@) =~= seq!["BOX_HOST"@, "HOST"@]);
    assert(names_view(port_names@) =~= seq!["BOX_PORT"@, "PORT"@]);
    assert(names_view(prefix_names@) =~= seq!["BOX_API_PREFIX"@, "API_PREFIX"@]);
    assert(names_view(dream_key_names@) =~= seq!["DREAM_API_KEY"@, "API_KEY"@]);
    assert(names_view(client_names@) =~= seq!["GARUPA_CLIENT_VERSIONS"@]);
    assert(names_view(android_names@) =~= seq![
        "GARUPA_ANDROID_CLIENT_VERSIONS"@,
        "GARUPA_CLIENT_VERSIONS"@,
    ]);
    assert(names_view(unity_names@) =~= seq!["GARUPA_UNITY_VERSIONS"@]);
    assert(names_view(agent_names@) =~= seq!["GARUPA_USER_AGENTS"@]);
    assert(names_view(package_names@) =~= seq!["GARUPA_PACKAGE_URLS"@]);

    let dream_base = get(env, "DREAM_API_BASE", "http://127.0.0.1:8081/api");
    let unity = get_first(env, &unity_names, "2021.3.45f2");
    let default_agent = String::from_str("UnityPlayer/").concat(unity.as_str()).concat(
        " (UnityWebRequest/1.0, libcurl/8.5.0-DEV)",
    );
    let dream_timeout = get_u64(env, "DREAM_API_TIMEOUT_SECS", 30);
    Config {
        host: get_first(env, &host_names, "127.0.0.1"),
        port: get_first_u16(env, &port_names, 8081),
        api_prefix: get_first(env, &prefix_names, "/api"),
        dream_api_base: String::from_str(trim_end_char(dream_base.as_str(), '/')),
        dream_api_key: non_empty_string(get_first(env, &dream_key_names, "")),
        dream_api_timeout_secs: dream_timeout,
        mongodb_uri: get(env, "MONGODB_URI", "mongodb://127.0.0.1:27017"),
        mongodb_db: get(env, "MONGODB_DB", "penlight_box"),
        poll_interval_secs: get_u64(env, "POLL_INTERVAL_SECS", 60),
        master_interval_secs: get_u64(env, "MASTER_INTERVAL_SECS", 3600),
        post_end_window_secs: get_u64(env, "POST_END_WINDOW_SECS", 3600),
        api_key: non_empty_string(get(env, "API_KEY", "")),
        garupa_base: normalize_garupa_base(get(env, "GARUPA_SERVER_BASES", "api.garupa.jp").as_str()),
        garupa_encryption_key: get_optional_bytes(env, "GARUPA_ENCRYPTION_KEYS"),
        garupa_encryption_iv: get_optional_bytes(env, "GARUPA_ENCRYPTION_IVS"),
        garupa_client_version: get_first(env, &client_names, "10.1.3"),
        garupa_android_client_version: get_first(env, &android_names, "10.1.3"),
        garupa_unity_version: get_first(env, &unity_names, "2021.3.45f2"),
        garupa_user_agent: get_first(env, &agent_names, default_agent.as_str()),
        garupa_package_url: get_first(
            env,
            &package_names,
            "https://itunes.apple.com/jp/lookup?bundleId=jp.co.craftegg.band",
        ),
        garupa_timeout_secs: get_u64(env, "GARUPA_PROFILE_TIMEOUT_SECS", dream_timeout),
        garupa_version_ttl_secs: get_u64(env, "GARUPA_VERSION_TTL_SECONDS", 3600),
    }
}

/// Without a non-empty Android setting, Android clients announce the
/// version configured for iOS.
pub proof fn law_android_version_falls_back(env: Seq<(String, String)>)
    requires
        match env_lookup(env, "GARUPA_ANDROID_CLIENT_VERSIONS"@) {
            Some(v) => v.len() == 0,
            None => true,
        },
    ensures
        env_first(env, seq!["GARUPA_ANDROID_CLIENT_VERSIONS"@, "GARUPA_CLIENT_VERSIONS"@], "10.1.3"@)
            == env_first(env, seq!["GARUPA_CLIENT_VERSIONS"@], "10.1.3"@),
{
    let names = seq!["GARUPA_ANDROID_CLIENT_VERSIONS"@, "GARUPA_CLIENT_VERSIONS"@];
    assert(names.drop_first() =~= seq!["GARUPA_CLIENT_VERSIONS"@]);
}

/// Without a non-empty `DREAM_API_KEY`, the service calls Dream-API with
/// its own `API_KEY`, so one shared secret serves both.
pub proof fn law_dream_api_key_falls_back(env: Seq<(String, String)>)
    requires
        match env_lookup(env, "DREAM_API_KEY"@) {
            Some(v) => v.len() == 0,
            None => true,
        },
    ensures
        non_empty(env_first(env, seq!["DREAM_API_KEY"@, "API_KEY"@], ""@)) == non_empty(
            env_or(env, "API_KEY"@, ""@),
        ),
{
    reveal_strlit("");
    let names = seq!["DREAM_API_KEY"@, "API_KEY"@];
    assert(names.drop_first() =~= seq!["API_KEY"@]);
    let rest = seq!["API_KEY"@];
    assert(rest.drop_first() =~= Seq::<Seq<char>>::empty());
    assert(env_first(env, names, ""@) == env_first(env, rest, ""@));
    assert(env_first(env, rest.drop_first(), ""@) == ""@);
    assert(env_first(env, rest, ""@) == match env_lookup(env, "API_KEY"@) {
        Some(v) => if v.len() > 0 {
            v
        } else {
            ""@
        },
        None => ""@,
    });
}

/// Normalizing an already normalized server base gives it back.
pub proof fn law_garupa_base_idempotent(raw: Seq<char>)
    ensures
        garupa_base_spec(garupa_base_spec(raw)) == garupa_base_spec(raw),
{
    reveal_strlit("http://");
    reveal_strlit("https://");
    reveal_strlit("/api");
    reveal_strlit("/api/");
    reveal_strlit("/");
    let out = garupa_base_spec(raw);
    let r = trim_end_char_spec(trim_spec(raw), '/');
    if r.len() == 0 {
        assert(out =~= Seq::<char>::empty());
        assert(trim_spec(out) =~= out);
        assert(trim_end_char_spec(out, '/') == out);
    } else {
        let http = r.len() >= 7 && r.subrange(0, 7) == "http://"@;
        let https = r.len() >= 8 && r.subrange(0, 8) == "https://"@;
        let x = out.drop_last();
        if http || https {
            if r.len() >= 4 && r.subrange(r.len() - 4, r.len() as int) == "/api"@ {
                assert(out == r + "/"@);
                assert(x =~= r);
            } else {
                assert(out == r + "/api/"@);
                assert(x =~= r + "/api"@);
            }
            assert(x[0] == r[0]);
            if http {
                assert(x.subrange(0, 7) =~= r.subrange(0, 7));
                assert(x.subrange(0, 7)[0] == x[0]);
            } else {
                assert(x.subrange(0, 8) =~= r.subrange(0, 8));
                assert(x.subrange(0, 8)[0] == x[0]);
            }
        } else {
            assert(out == "https://"@ + r + "/api/"@);
            assert(x =~= "https://"@ + r + "/api"@);
            assert(x.subrange(0, 8) =~= "https://"@);
            assert(x.subrange(0, 8)[0] == x[0]);
        }
        assert(x.subrange(x.len() - 4, x.len() as int) =~= "/api"@);
        assert(x.subrange(x.len() - 4, x.len() as int)[3] == x.last());
        assert(out =~= x.push('/'));
        assert(x[0] == 'h');
        assert(x.last() == 'i');
        // `out` has no surrounding whitespace.
        assert(!crate::text::is_whitespace_spec('h'));
        assert(!crate::text::is_whitespace_spec('/'));
        assert(out[0] == 'h');
        assert(crate::text::trim_start_spec(out) == out);
        assert(crate::text::trim_end_spec(out) == out);
        assert(trim_spec(out) == out);
        // Trailing slashes: exactly the last one goes.
        assert(out.drop_last() =~= x);
        assert(trim_end_char_spec(x, '/') == x);
        assert(trim_end_char_spec(out, '/') == x);
        assert(x.len() >= 4);
    }
}

} // verus!
