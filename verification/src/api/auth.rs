//! Optional API-key authentication.
//!
//! Mirrors Penlight-Dream-API's auth: when `API_KEY` is set, every `/api/*`
//! request must send it via `X-API-Key` or `Authorization: Bearer <key>`.

use vstd::prelude::*;
use vstd::string::*;
use crate::api::monthly::param_view;
use crate::json::{JsonValue, Json, json_entries_view, lemma_json_entries_view};
use crate::text::{str_eq, strip_prefix, strip_prefix_spec};

verus! {

/// The scheme prefix of an `Authorization` header that carries the key.
pub open spec fn bearer() -> Seq<char> {
    "Bearer "@
}

/// Whether a request is let through. Without a configured key every
/// request is. With one, the request must carry the key either in
/// `X-API-Key` or as `Authorization: Bearer <key>`. A header whose value is
/// not visible ASCII counts as absent.
pub open spec fn authorized_spec(
    api_key: Option<Seq<char>>,
    x_api_key: Option<Seq<char>>,
    authorization: Option<Seq<char>>,
) -> bool {
    match api_key {
        None => true,
        Some(key) => x_api_key == Some(key) || match authorization {
            Some(a) => strip_prefix_spec(a, bearer()) == Some(key),
            None => false,
        },
    }
}

/// Decides whether a request with these header values may reach the API.
pub fn authorized(api_key: Option<&str>, x_api_key: Option<&str>, authorization: Option<&str>) -> (r: bool)
    ensures
        r == authorized_spec(param_view(api_key), param_view(x_api_key), param_view(authorization)),
{
    match api_key {
        None => true,
        Some(key) => {
            let by_header = match x_api_key {
                Some(v) => str_eq(v, key),
                None => false,
            };
            if by_header {
                return true;
            }
            match authorization {
                Some(a) => match strip_prefix(a, "Bearer ") {
                    Some(rest) => str_eq(rest, key),
                    None => false,
                },
                None => false,
            }
        },
    }
}

/// The body of a refused request.
pub open spec fn unauthorized_body_spec() -> Json {
    Json::Object(seq![("status"@, Json::Int(401)), ("message"@, Json::Str("Unauthorized"@))])
}

/// The 401 body `{"status": 401, "message": "Unauthorized"}`.
pub fn unauthorized_body() -> (r: JsonValue)
    ensures
        r@ == unauthorized_body_spec(),
{
    let mut es: Vec<(String, JsonValue)> = Vec::new();
    es.push((String::from_str("status"), JsonValue::Int(401)));
    es.push((String::from_str("message"), JsonValue::Str(String::from_str("Unauthorized"))));
    proof {
        lemma_json_entries_view(es@);
        assert(json_entries_view(es@) =~= seq![
            ("status"@, Json::Int(401)),
            ("message"@, Json::Str("Unauthorized"@)),
        ]);
    }
    JsonValue::Object(es)
}

/// Without a key every request is let through; with a key, a request is
/// let through exactly when it sends the key as `X-API-Key` or as
/// `Authorization: Bearer <key>`.
pub proof fn law_api_key_required(
    key: Seq<char>,
    x_api_key: Option<Seq<char>>,
    authorization: Option<Seq<char>>,
)
    ensures
        authorized_spec(None, x_api_key, authorization),
        authorized_spec(Some(key), x_api_key, authorization) <==> (x_api_key == Some(key)
            || authorization == Some(bearer() + key)),
{
    if let Some(a) = authorization {
        let p = bearer();
        if strip_prefix_spec(a, p) == Some(key) {
            assert(a =~= p + key);
        }
        if a == p + key {
            assert((p + key).subrange(0, p.len() as int) =~= p);
            assert((p + key).subrange(p.len() as int, (p + key).len() as int) =~= key);
        }
    }
}

} // verus!
