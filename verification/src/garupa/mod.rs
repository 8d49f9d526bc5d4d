//! Request-scoped profile export for the official Garupa API.
//!
//! A browser request supplies a player's UID, X-Signature UUID and client
//! platform; the request must be signed and decrypted with those values
//! without changing process-wide configuration. This module validates the
//! credentials, decides which client version and paths to use, decrypts and
//! decodes the responses, and reshapes the suite maps for the Bestdori
//! profile mapper. The HTTP round trips themselves belong to the caller.

use vstd::prelude::*;
use vstd::string::*;
use crate::error::{AppError, AppResult, is_validation};
use crate::json::{
    JsonValue, Json, json_view, json_list_view, json_entries_view, lemma_json_list_view,
    lemma_json_entries_view, lemma_json_list_view_push, lemma_entry_index_at,
};
use crate::text::{
    trim, trim_spec, to_ascii_lowercase, ascii_lower_spec, str_eq, all_ascii_digits,
    is_ascii_digit_spec, is_ascii_char_spec, is_ascii_control_spec, trim_start_char,
    trim_start_char_spec,
};
use decoder::{decode, decode_spec};
use schema::Schema;
use crate::config::{Config, opt_bytes_view};
use aes::cipher::{block_padding::NoPadding, BlockDecryptMut, KeyIvInit};

pub mod decoder;
pub mod schema;

verus! {

// ---------------------------------------------------------------------------
// Platform and credentials
// ---------------------------------------------------------------------------

/// The client platform whose headers a request carries.
#[derive(Debug, Clone, Copy, PartialEq, Eq, Structural)]
pub enum Platform {
    Ios,
    Android,
}

/// The platform that a user-supplied name denotes: trimmed and folded to
/// ASCII lowercase, `ios`, `iphone` and `ipad` name iOS and `android` names
/// Android.
pub open spec fn platform_spec(raw: Seq<char>) -> Option<Platform> {
    let s = ascii_lower_spec(trim_spec(raw));
    if s == "ios"@ || s == "iphone"@ || s == "ipad"@ {
        Some(Platform::Ios)
    } else if s == "android"@ {
        Some(Platform::Android)
    } else {
        None
    }
}

impl Platform {
    /// Parses a platform name; any other name is a validation error on
    /// `platform`.
    pub fn parse(raw: &str) -> (r: AppResult<Platform>)
        ensures
            match r {
                Ok(p) => platform_spec(raw@) == Some(p),
                Err(e) => platform_spec(raw@) is None && is_validation(
                    e,
                    "platform"@,
                    "platform must be either iOS or Android"@,
                ),
            },
    {
        let lower = to_ascii_lowercase(trim(raw));
        let s = lower.as_str();
        if str_eq(s, "ios") || str_eq(s, "iphone") || str_eq(s, "ipad") {
            Ok(Platform::Ios)
        } else if str_eq(s, "android") {
            Ok(Platform::Android)
        } else {
            Err(AppError::validation("platform", "platform must be either iOS or Android"))
        }
    }

    /// The value of the `X-ClientPlatform` header.
    pub open spec fn header_spec(self) -> Seq<char> {
        match self {
            Platform::Ios => "iOS"@,
            Platform::Android => "Android"@,
        }
    }

    /// The value of the `X-ClientPlatform` header for this platform.
    pub fn header_value(self) -> (r: &'static str)
        ensures
            r@ == self.header_spec(),
    {
        match self {
            Platform::Ios => "iOS",
            Platform::Android => "Android",
        }
    }
}

/// Credentials used only for one profile export request.
#[derive(Clone)]
pub struct Credentials {
    pub uid: String,
    pub uuid: String,
    pub platform: Platform,
}

/// A valid UID: 1 to 20 ASCII digits.
pub open spec fn uid_ok(uid: Seq<char>) -> bool {
    0 < uid.len() <= 20 && all_ascii_digits(uid)
}

/// A valid UUID header value: 1 to 256 ASCII characters, none of them a
/// control character.
pub open spec fn uuid_ok(uuid: Seq<char>) -> bool {
    0 < uuid.len() <= 256 && forall|i: int|
        0 <= i < uuid.len() ==> is_ascii_char_spec(#[trigger] uuid[i]) && !is_ascii_control_spec(
            uuid[i],
        )
}

/// The field and message of the validation error that `from_input` reports,
/// checking the UID, then the UUID, then the platform.
pub open spec fn credentials_error(uid: Seq<char>, uuid: Seq<char>, platform: Seq<char>) -> Option<
    (Seq<char>, Seq<char>),
> {
    if !uid_ok(trim_spec(uid)) {
        Some(("uid"@, "uid must contain 1 to 20 ASCII digits"@))
    } else if !uuid_ok(trim_spec(uuid)) {
        Some(
            (
                "uuid"@,
                "uuid must be a non-empty ASCII header value of at most 256 characters"@,
            ),
        )
    } else if platform_spec(platform) is None {
        Some(("platform"@, "platform must be either iOS or Android"@))
    } else {
        None
    }
}

/// Whether every character of `s` is an ASCII digit.
fn all_digits(s: &str) -> (r: bool)
    ensures
        r == all_ascii_digits(s@),
{
    let n = s.unicode_len();
    let mut i: usize = 0;
    while i < n
        invariant
            0 <= i <= n,
            n == s@.len(),
            forall|k: int| 0 <= k < i ==> is_ascii_digit_spec(#[trigger] s@[k]),
        decreases n - i,
    {
        let u = s.get_char(i) as u32;
        if u < 48 || u > 57 {
            assert(!is_ascii_digit_spec(s@[i as int]));
            return false;
        }
        i = i + 1;
    }
    true
}

/// Whether `s` is a valid UUID header value.
fn uuid_valid(s: &str) -> (r: bool)
    ensures
        r == uuid_ok(s@),
{
    let n = s.unicode_len();
    if n == 0 || n > 256 {
        return false;
    }
    let mut i: usize = 0;
    while i < n
        invariant
            0 <= i <= n,
            n == s@.len(),
            forall|k: int|
                0 <= k < i ==> is_ascii_char_spec(#[trigger] s@[k]) && !is_ascii_control_spec(
                    s@[k],
                ),
        decreases n - i,
    {
        let u = s.get_char(i) as u32;
        if u >= 128 || u < 32 || u == 127 {
            assert(!(is_ascii_char_spec(s@[i as int]) && !is_ascii_control_spec(s@[i as int])));
            return false;
        }
        i = i + 1;
    }
    true
}

impl Credentials {
    /// Validates request credentials. The UID and UUID are trimmed and kept
    /// as they are otherwise: nothing is normalized.
    pub fn from_input(uid: &str, uuid: &str, platform: &str) -> (r: AppResult<Credentials>)
        ensures
            match r {
                Ok(c) => credentials_error(uid@, uuid@, platform@) is None && c.uid@ == trim_spec(
                    uid@,
                ) && c.uuid@ == trim_spec(uuid@) && platform_spec(platform@) == Some(c.platform),
                Err(e) => credentials_error(uid@, uuid@, platform@) matches Some((f, m))
                    && is_validation(e, f, m),
            },
    {
        let uid = trim(uid);
        if !(uid.unicode_len() > 0 && uid.unicode_len() <= 20 && all_digits(uid)) {
            return Err(AppError::validation("uid", "uid must contain 1 to 20 ASCII digits"));
        }
        let uuid = trim(uuid);
        if !uuid_valid(uuid) {
            return Err(
                AppError::validation(
                    "uuid",
                    "uuid must be a non-empty ASCII header value of at most 256 characters",
                ),
            );
        }
        let platform = Platform::parse(platform)?;
        Ok(Credentials { uid: String::from_str(uid), uuid: String::from_str(uuid), platform })
    }
}

/// `Platform::parse` reads back every header value: the header names
/// that a request carries denote the platform they were written for.
pub proof fn law_platform_header_roundtrip(p: Platform)
    ensures
        platform_spec(p.header_spec()) == Some(p),
{
    reveal_strlit("iOS");
    reveal_strlit("ios");
    reveal_strlit("iphone");
    reveal_strlit("ipad");
    reveal_strlit("Android");
    reveal_strlit("android");
    let h = p.header_spec();
    assert(crate::text::trim_start_spec(h) == h);
    assert(crate::text::trim_end_spec(h) == h);
    match p {
        Platform::Ios => {
            assert(ascii_lower_spec(h) =~= "ios"@);
        },
        Platform::Android => {
            assert(ascii_lower_spec(h) =~= "android"@);
        },
    }
}

// ---------------------------------------------------------------------------
// Decryption
// ---------------------------------------------------------------------------

/// What AES-128 in CBC mode with key `key` and IV `iv` decrypts `data` to,
/// without removing any padding.
pub uninterp spec fn aes128_cbc_decrypt(key: Seq<u8>, iv: Seq<u8>, data: Seq<u8>) -> Seq<u8>;

/// Why a decryption was refused.
pub enum CipherFailure {
    /// The key or the IV is not 16 bytes long.
    InvalidKeyOrIv,
    /// The data is not a whole number of 16-byte blocks.
    InvalidLength,
}

/// `cbc::Decryptor::<aes::Aes128>::new_from_slices` followed by
/// `decrypt_padded_mut::<NoPadding>`: AES-128-CBC decryption without
/// padding. The construction fails exactly when the key or the IV is not 16
/// bytes long; the decryption fails exactly when the data is not a multiple
/// of the 16-byte block, and otherwise gives as many bytes as it was given.
/// The plaintext itself is named, not stated.
#[verifier::external_body]
fn aes128_cbc_decrypt_no_padding(key: &[u8], iv: &[u8], data: &[u8]) -> (r: Result<
    Vec<u8>,
    CipherFailure,
>)
    ensures
        r matches Err(CipherFailure::InvalidKeyOrIv) <==> (key@.len() != 16 || iv@.len() != 16),
        r matches Err(CipherFailure::InvalidLength) <==> (key@.len() == 16 && iv@.len() == 16
            && data@.len() % 16 != 0),
        r matches Ok(p) ==> p@ == aes128_cbc_decrypt(key@, iv@, data@) && p@.len() == data@.len(),
{
    let decryptor = match cbc::Decryptor::<aes::Aes128>::new_from_slices(key, iv) {
        Ok(d) => d,
        Err(_) => return Err(CipherFailure::InvalidKeyOrIv),
    };
    let mut buffer = data.to_vec();
    match decryptor.decrypt_padded_mut::<NoPadding>(&mut buffer) {
        Ok(plain) => Ok(plain.to_vec()),
        Err(_) => Err(CipherFailure::InvalidLength),
    }
}

// ---------------------------------------------------------------------------
// Profile client settings
// ---------------------------------------------------------------------------

/// The settings of the profile export client, taken from the configuration.
/// The encryption material stays on the server.
pub struct ProfileSettings {
    pub base: String,
    pub encryption_key: Option<Vec<u8>>,
    pub encryption_iv: Option<Vec<u8>>,
    pub client_version: String,
    pub android_client_version: String,
    pub unity_version: String,
    pub user_agent: String,
    pub package_url: String,
    pub timeout_secs: u64,
    pub version_ttl_secs: u64,
}

/// `o` holds exactly 16 bytes.
pub open spec fn is_16_bytes(o: Option<Vec<u8>>) -> bool {
    o matches Some(b) && b@.len() == 16
}

/// The view of the bytes in an option known to hold some.
pub open spec fn bytes_of(o: Option<Vec<u8>>) -> Seq<u8> {
    match o {
        Some(b) => b@,
        None => Seq::empty(),
    }
}

/// `e` is `Unavailable` with `message`.
pub open spec fn is_unavailable(e: AppError, message: Seq<char>) -> bool {
    e matches AppError::Unavailable(m) && m@ == message
}

/// `e` is `Upstream` with `message`.
pub open spec fn is_upstream(e: AppError, message: Seq<char>) -> bool {
    e matches AppError::Upstream(m) && m@ == message
}

fn clone_bytes(o: &Option<Vec<u8>>) -> (r: Option<Vec<u8>>)
    ensures
        opt_bytes_view(r) == opt_bytes_view(*o),
{
    match o {
        Some(b) => {
            let c = b.clone();
            assert(c@ =~= b@);
            Some(c)
        },
        None => None,
    }
}

impl ProfileSettings {
    /// The profile client settings of the configuration.
    pub fn from_config(cfg: &Config) -> (r: ProfileSettings)
        ensures
            r.base@ == cfg.garupa_base@,
            opt_bytes_view(r.encryption_key) == opt_bytes_view(cfg.garupa_encryption_key),
            opt_bytes_view(r.encryption_iv) == opt_bytes_view(cfg.garupa_encryption_iv),
            r.client_version@ == cfg.garupa_client_version@,
            r.android_client_version@ == cfg.garupa_android_client_version@,
            r.unity_version@ == cfg.garupa_unity_version@,
            r.user_agent@ == cfg.garupa_user_agent@,
            r.package_url@ == cfg.garupa_package_url@,
            r.timeout_secs == cfg.garupa_timeout_secs,
            r.version_ttl_secs == cfg.garupa_version_ttl_secs,
    {
        ProfileSettings {
            base: cfg.garupa_base.clone(),
            encryption_key: clone_bytes(&cfg.garupa_encryption_key),
            encryption_iv: clone_bytes(&cfg.garupa_encryption_iv),
            client_version: cfg.garupa_client_version.clone(),
            android_client_version: cfg.garupa_android_client_version.clone(),
            unity_version: cfg.garupa_unity_version.clone(),
            user_agent: cfg.garupa_user_agent.clone(),
            package_url: cfg.garupa_package_url.clone(),
            timeout_secs: cfg.garupa_timeout_secs,
            version_ttl_secs: cfg.garupa_version_ttl_secs,
        }
    }

    /// Whether profile export can run: a server base, and a key and an IV
    /// of 16 bytes each.
    pub fn ensure_configured(&self) -> (r: AppResult<()>)
        ensures
            r is Ok <==> (self.base@.len() > 0 && is_16_bytes(self.encryption_key) && is_16_bytes(
                self.encryption_iv,
            )),
            r matches Err(e) ==> if self.base@.len() == 0 {
                is_unavailable(
                    e,
                    "profile export is not configured: GARUPA_SERVER_BASES is empty"@,
                )
            } else {
                is_unavailable(
                    e,
                    "profile export is not configured: encryption key and IV must each be 16 bytes"@,
                )
            },
    {
        if self.base.unicode_len() == 0 {
            return Err(
                AppError::unavailable(
                    "profile export is not configured: GARUPA_SERVER_BASES is empty",
                ),
            );
        }
        let key_ok = match &self.encryption_key {
            Some(k) => k.len() == 16,
            None => false,
        };
        let iv_ok = match &self.encryption_iv {
            Some(v) => v.len() == 16,
            None => false,
        };
        if !key_ok || !iv_ok {
            return Err(
                AppError::unavailable(
                    "profile export is not configured: encryption key and IV must each be 16 bytes",
                ),
            );
        }
        Ok(())
    }

    /// Decrypts an official response body with the configured key and IV.
    pub fn decrypt(&self, payload: &[u8]) -> (r: AppResult<Vec<u8>>)
        ensures
            match r {
                Ok(p) => self.encryption_key is Some && self.encryption_iv is Some && payload@.len()
                    > 0 && payload@.len() % 16 == 0 && is_16_bytes(self.encryption_key)
                    && is_16_bytes(self.encryption_iv) && p@ == aes128_cbc_decrypt(
                    bytes_of(self.encryption_key),
                    bytes_of(self.encryption_iv),
                    payload@,
                ),
                Err(e) => self.decrypt_failure(payload@, e),
            },
    {
        let key = match &self.encryption_key {
            Some(k) => k,
            None => {
                return Err(AppError::unavailable("profile export encryption key is not configured"));
            },
        };
        let iv = match &self.encryption_iv {
            Some(v) => v,
            None => {
                return Err(AppError::unavailable("profile export encryption IV is not configured"));
            },
        };
        if payload.len() == 0 || payload.len() % 16 != 0 {
            return Err(
                AppError::upstream("official Garupa response had an invalid encrypted payload"),
            );
        }
        match aes128_cbc_decrypt_no_padding(key.as_slice(), iv.as_slice(), payload) {
            Ok(plain) => Ok(plain),
            Err(CipherFailure::InvalidKeyOrIv) => Err(
                AppError::unavailable("profile export encryption settings are invalid"),
            ),
            Err(CipherFailure::InvalidLength) => Err(
                AppError::upstream("official Garupa response could not be decrypted"),
            ),
        }
    }

    /// The URL of an official API path: the base, then the path without its
    /// leading slashes.
    pub fn request_url(&self, path: &str) -> (r: String)
        ensures
            r@ == self.base@ + trim_start_char_spec(path@, '/'),
    {
        self.base.clone().concat(trim_start_char(path, '/'))
    }

    /// The configured client version for `platform`.
    pub fn configured_client_version(&self, platform: Platform) -> (r: String)
        ensures
            r@ == match platform {
                Platform::Ios => self.client_version@,
                Platform::Android => self.android_client_version@,
            },
    {
        match platform {
            Platform::Ios => self.client_version.clone(),
            Platform::Android => self.android_client_version.clone(),
        }
    }

    /// Whether the client version for `platform` is looked up in the app
    /// store: only for iOS, and only when a package URL is configured.
    pub fn uses_store_version(&self, platform: Platform) -> (r: bool)
        ensures
            r == (platform == Platform::Ios && trim_spec(self.package_url@).len() > 0),
    {
        match platform {
            Platform::Ios => trim(self.package_url.as_str()).unicode_len() > 0,
            Platform::Android => false,
        }
    }

    /// Decrypts and decodes an official response body under `schema`.
    pub fn decode_response(&self, body: &[u8], schema: &Schema) -> (r: AppResult<JsonValue>)
        ensures
            match r {
                Ok(v) => self.decrypt_ok(body@) && v@ == decode_spec(
                    aes128_cbc_decrypt(
                        bytes_of(self.encryption_key),
                        bytes_of(self.encryption_iv),
                        body@,
                    ),
                    *schema,
                ),
                Err(e) => !self.decrypt_ok(body@) && self.decrypt_failure(body@, e),
            },
    {
        let plain = self.decrypt(body)?;
        match decode(plain.as_slice(), schema) {
            Ok(v) => Ok(v),
            Err(_) => Err(AppError::upstream("official Garupa response could not be decoded")),
        }
    }

    /// Whether a cached store version looked up `elapsed_ms` milliseconds
    /// ago is still used: while less than the version TTL has passed.
    pub fn version_cache_fresh(&self, elapsed_ms: u64) -> (r: bool)
        ensures
            r == (elapsed_ms < self.version_ttl_secs * 1000),
    {
        (elapsed_ms as u128) < (self.version_ttl_secs as u128) * 1000
    }

    /// The error of a body that does not decrypt: a missing key, a missing
    /// IV, a payload that is empty or not a whole number of blocks, or a key
    /// or IV of the wrong length, checked in that order.
    pub open spec fn decrypt_failure(&self, body: Seq<u8>, e: AppError) -> bool {
        if self.encryption_key is None {
            is_unavailable(e, "profile export encryption key is not configured"@)
        } else if self.encryption_iv is None {
            is_unavailable(e, "profile export encryption IV is not configured"@)
        } else if body.len() == 0 || body.len() % 16 != 0 {
            is_upstream(e, "official Garupa response had an invalid encrypted payload"@)
        } else {
            !(is_16_bytes(self.encryption_key) && is_16_bytes(self.encryption_iv)) && is_unavailable(
                e,
                "profile export encryption settings are invalid"@,
            )
        }
    }

    /// Whether a body decrypts: the key and IV are 16 bytes each and the
    /// body is a non-empty whole number of blocks.
    pub open spec fn decrypt_ok(&self, body: Seq<u8>) -> bool {
        is_16_bytes(self.encryption_key) && is_16_bytes(self.encryption_iv) && body.len() > 0
            && body.len() % 16 == 0
    }
}

/// The official API paths of one profile export.
pub struct ProfilePaths {
    pub profile: String,
    pub situations: String,
    pub episodes: String,
    pub cards: String,
    pub suite: String,
}

/// The paths that a profile export requests for `uid`: `user/{uid}`,
/// `user/{uid}/situation`, `user/{uid}/episode`, `situation` and
/// `suite/user/{uid}`.
pub fn profile_paths(uid: &str) -> (r: ProfilePaths)
    ensures
        r.profile@ == "user/"@ + uid@,
        r.situations@ == "user/"@ + uid@ + "/situation"@,
        r.episodes@ == "user/"@ + uid@ + "/episode"@,
        r.cards@ == "situation"@,
        r.suite@ == "suite/user/"@ + uid@,
{
    ProfilePaths {
        profile: String::from_str("user/").concat(uid),
        situations: String::from_str("user/").concat(uid).concat("/situation"),
        episodes: String::from_str("user/").concat(uid).concat("/episode"),
        cards: String::from_str("situation"),
        suite: String::from_str("suite/user/").concat(uid),
    }
}

// ---------------------------------------------------------------------------
// Reshaping decoded responses
// ---------------------------------------------------------------------------

/// The item under `/key/entries` when that is an array, else nothing.
pub open spec fn entries_at(suite: Json, key: Seq<char>) -> Seq<Json> {
    match suite.get(key) {
        Some(m) => match m.get("entries"@) {
            Some(Json::Array(items)) => items,
            _ => Seq::empty(),
        },
        None => Seq::empty(),
    }
}

/// The `value` of each entry that has one.
pub open spec fn entry_values(entries: Seq<Json>) -> Seq<Json>
    decreases entries.len(),
{
    if entries.len() == 0 {
        Seq::empty()
    } else {
        let rest = entry_values(entries.subrange(0, entries.len() - 1));
        match entries.last().get("value"@) {
            Some(v) => rest.push(v),
            None => rest,
        }
    }
}

/// `{characterId: key, potentialLevel: value}` for each entry that has both.
pub open spec fn character_entries(entries: Seq<Json>) -> Seq<Json>
    decreases entries.len(),
{
    if entries.len() == 0 {
        Seq::empty()
    } else {
        let rest = character_entries(entries.subrange(0, entries.len() - 1));
        let e = entries.last();
        match (e.get("key"@), e.get("value"@)) {
            (Some(k), Some(v)) => rest.push(
                Json::Object(seq![("characterId"@, k), ("potentialLevel"@, v)]),
            ),
            _ => rest,
        }
    }
}

/// `{entries: list}`.
pub open spec fn entries_object(list: Seq<Json>) -> Json {
    Json::Object(seq![("entries"@, Json::Array(list))])
}

/// The items of `/key/entries` in `suite`, when that is an array.
fn suite_entries<'a>(suite: &'a JsonValue, key: &str) -> (r: Option<&'a Vec<JsonValue>>)
    ensures
        match r {
            Some(items) => json_list_view(items@) == entries_at(suite@, key@),
            None => entries_at(suite@, key@) == Seq::<Json>::empty(),
        },
{
    match suite.get(key) {
        Some(m) => match m.get("entries") {
            Some(v) => v.as_array(),
            None => None,
        },
        None => None,
    }
}

fn entries_json(list: Vec<JsonValue>) -> (r: JsonValue)
    ensures
        r@ == entries_object(json_list_view(list@)),
{
    let entries = vec![(String::from_str("entries"), JsonValue::Array(list))];
    proof {
        lemma_json_entries_view(entries@);
        assert(json_entries_view(entries@) =~= seq![
            ("entries"@, Json::Array(json_list_view(list@))),
        ]);
    }
    JsonValue::Object(entries)
}

/// The area items of a suite response: the `value` of each entry of
/// `userAreaItemMap.entries`, as `{entries: [...]}`.
pub fn suite_area_entries(suite: &JsonValue) -> (r: JsonValue)
    ensures
        r@ == entries_object(entry_values(entries_at(suite@, "userAreaItemMap"@))),
        r@.get("entries"@) == Some(
            Json::Array(entries_at(suite@, "userAreaItemMap"@).filter_map(|e: Json| e.get("value"@))),
        ),
{
    let mut out: Vec<JsonValue> = Vec::new();
    let ghost src = entries_at(suite@, "userAreaItemMap"@);
    match suite_entries(suite, "userAreaItemMap") {
        Some(items) => {
            proof {
                lemma_json_list_view(items@);
            }
            let mut i: usize = 0;
            assert(json_list_view(out@) =~= entry_values(src.subrange(0, 0)));
            while i < items.len()
                invariant
                    0 <= i <= items@.len(),
                    src == json_list_view(items@),
                    src.len() == items@.len(),
                    forall|k: int| 0 <= k < items@.len() ==> #[trigger] src[k] == json_view(&items@[k]),
                    json_list_view(out@) == entry_values(src.subrange(0, i as int)),
                decreases items.len() - i,
            {
                let ghost sub = src.subrange(0, i + 1);
                assert(sub.subrange(0, sub.len() - 1) =~= src.subrange(0, i as int));
                assert(sub.last() == src[i as int]);
                match items[i].get("value") {
                    Some(v) => {
                        let c = v.deep_clone();
                        proof {
                            lemma_json_list_view_push(out@, c);
                        }
                        out.push(c);
                    },
                    None => {},
                }
                i = i + 1;
            }
            assert(src.subrange(0, items@.len() as int) =~= src);
        },
        None => {
            assert(json_list_view(out@) =~= Seq::<Json>::empty());
        },
    }
    proof {
        law_area_items_are_entry_values(src);
        lemma_entries_object_read_back(json_list_view(out@));
    }
    entries_json(out)
}

/// The character potentials of a suite response: each entry of
/// `userCharacterPotentialLevelMap.entries` with both a `key` and a `value`,
/// as `{characterId, potentialLevel}`, wrapped in `{entries: [...]}`.
pub fn suite_character_entries(suite: &JsonValue) -> (r: JsonValue)
    ensures
        r@ == entries_object(character_entries(entries_at(suite@, "userCharacterPotentialLevelMap"@))),
{
    let mut out: Vec<JsonValue> = Vec::new();
    let ghost src = entries_at(suite@, "userCharacterPotentialLevelMap"@);
    match suite_entries(suite, "userCharacterPotentialLevelMap") {
        Some(items) => {
            proof {
                lemma_json_list_view(items@);
            }
            let mut i: usize = 0;
            assert(json_list_view(out@) =~= character_entries(src.subrange(0, 0)));
            while i < items.len()
                invariant
                    0 <= i <= items@.len(),
                    src == json_list_view(items@),
                    src.len() == items@.len(),
                    forall|k: int| 0 <= k < items@.len() ==> #[trigger] src[k] == json_view(&items@[k]),
                    json_list_view(out@) == character_entries(src.subrange(0, i as int)),
                decreases items.len() - i,
            {
                let ghost sub = src.subrange(0, i + 1);
                assert(sub.subrange(0, sub.len() - 1) =~= src.subrange(0, i as int));
                assert(sub.last() == src[i as int]);
                match (items[i].get("key"), items[i].get("value")) {
                    (Some(k), Some(v)) => {
                        let fields = vec![
                            (String::from_str("characterId"), k.deep_clone()),
                            (String::from_str("potentialLevel"), v.deep_clone()),
                        ];
                        proof {
                            lemma_json_entries_view(fields@);
                            assert(json_entries_view(fields@) =~= seq![
                                ("characterId"@, k@),
                                ("potentialLevel"@, v@),
                            ]);
                        }
                        let c = JsonValue::Object(fields);
                        proof {
                            lemma_json_list_view_push(out@, c);
                        }
                        out.push(c);
                    },
                    _ => {},
                }
                i = i + 1;
            }
            assert(src.subrange(0, items@.len() as int) =~= src);
        },
        None => {
            assert(json_list_view(out@) =~= Seq::<Json>::empty());
        },
    }
    entries_json(out)
}

/// All decoded data needed by the Bestdori profile mapper.
pub struct ProfileSnapshot {
    pub profile: JsonValue,
    pub situations: JsonValue,
    pub episodes: JsonValue,
    pub cards: JsonValue,
    pub areas: JsonValue,
    pub characters: JsonValue,
}

impl ProfileSnapshot {
    /// The snapshot of the five decoded responses; the suite response gives
    /// the areas and the characters.
    pub fn from_responses(
        profile: JsonValue,
        situations: JsonValue,
        episodes: JsonValue,
        cards: JsonValue,
        suite: &JsonValue,
    ) -> (r: ProfileSnapshot)
        ensures
            r.profile@ == profile@,
            r.situations@ == situations@,
            r.episodes@ == episodes@,
            r.cards@ == cards@,
            r.areas@ == entries_object(entry_values(entries_at(suite@, "userAreaItemMap"@))),
            r.areas@.get("entries"@) == Some(
                Json::Array(entries_at(suite@, "userAreaItemMap"@).filter_map(|e: Json| e.get("value"@))),
            ),
            r.characters@ == entries_object(
                character_entries(entries_at(suite@, "userCharacterPotentialLevelMap"@)),
            ),
    {
        ProfileSnapshot {
            profile,
            situations,
            episodes,
            cards,
            areas: suite_area_entries(suite),
            characters: suite_character_entries(suite),
        }
    }
}

/// The app store version in a lookup response: `/results/0/version` when
/// it is a string that is not blank.
pub open spec fn store_version_spec(body: Json) -> Option<Seq<char>> {
    match body.get("results"@) {
        Some(results) => match results.at(0) {
            Some(first) => match first.get("version"@) {
                Some(Json::Str(v)) => if trim_spec(v).len() > 0 {
                    Some(v)
                } else {
                    None
                },
                _ => None,
            },
            None => None,
        },
        None => None,
    }
}

/// Reads the app store version from a lookup response.
pub fn store_version(body: &JsonValue) -> (r: Option<String>)
    ensures
        match r {
            Some(v) => store_version_spec(body@) == Some(v@),
            None => store_version_spec(body@) is None,
        },
{
    let results = match body.get("results") {
        Some(r) => r,
        None => return None,
    };
    let first = match results.at(0) {
        Some(f) => f,
        None => return None,
    };
    match first.get("version") {
        Some(JsonValue::Str(v)) => {
            if trim(v.as_str()).unicode_len() > 0 {
                Some(v.clone())
            } else {
                None
            }
        },
        _ => None,
    }
}


// ---------------------------------------------------------------------------
// What the reshaping keeps
// ---------------------------------------------------------------------------

/// The reshaped object reads back its list under `entries`.
pub proof fn lemma_entries_object_read_back(list: Seq<Json>)
    ensures
        entries_object(list).get("entries"@) == Some(Json::Array(list)),
{
    let es = seq![("entries"@, Json::Array(list))];
    assert(entries_object(list) == Json::Object(es));
    lemma_entry_index_at(es, "entries"@, 0);
}

/// Whether a map entry has a `value`.
pub open spec fn has_value(e: Json) -> bool {
    e.get("value"@) is Some
}

/// The area items are the `value`s of the map entries, one for one, in the
/// entries' order, skipping the entries without one.
pub proof fn law_area_items_are_entry_values(entries: Seq<Json>)
    ensures
        entry_values(entries) == entries.filter_map(|e: Json| e.get("value"@)),
    decreases entries.len(),
{
    if entries.len() > 0 {
        let init = entries.drop_last();
        law_area_items_are_entry_values(init);
        match entries.last().get("value"@) {
            Some(v) => {
                assert(entry_values(init).push(v) =~= entry_values(init) + seq![v]);
            },
            None => {},
        }
    }
}

/// Reshaping entries one after the other is reshaping them together: the
/// area items of two runs of entries are those of the first, then those of
/// the second.
pub proof fn law_area_items_concat(a: Seq<Json>, b: Seq<Json>)
    ensures
        entry_values(a + b) == entry_values(a) + entry_values(b),
    decreases b.len(),
{
    if b.len() == 0 {
        assert(a + b =~= a);
        assert(entry_values(a) + entry_values(b) =~= entry_values(a));
    } else {
        let init = b.drop_last();
        law_area_items_concat(a, init);
        assert((a + b).subrange(0, (a + b).len() - 1) =~= a + init);
        assert((a + b).last() == b.last());
        match b.last().get("value"@) {
            Some(v) => {
                assert(entry_values(a + b) =~= entry_values(a) + entry_values(b));
            },
            None => {},
        }
    }
}

/// One area item per map entry that has a value: the list is as long as
/// the number of such entries, the value of each entry is in it, and each
/// item in it is the value of some entry.
pub proof fn law_area_items_count_and_members(entries: Seq<Json>)
    ensures
        entry_values(entries).len() == entries.filter(|e: Json| has_value(e)).len(),
        forall|i: int|
            0 <= i < entries.len() ==> match #[trigger] entries[i].get("value"@) {
                Some(v) => entry_values(entries).contains(v),
                None => true,
            },
        forall|j: int|
            0 <= j < entry_values(entries).len() ==> exists|i: int|
                #![trigger entries[i]]
                0 <= i < entries.len() && entries[i].get("value"@) == Some(
                    #[trigger] entry_values(entries)[j],
                ),
    decreases entries.len(),
{
    reveal(Seq::filter);
    if entries.len() > 0 {
        let n = entries.len() - 1;
        let init = entries.drop_last();
        law_area_items_count_and_members(init);
        let rest = entry_values(init);
        let out = entry_values(entries);
        assert(forall|k: int| 0 <= k < rest.len() ==> #[trigger] out[k] == rest[k]);
        assert forall|i: int| 0 <= i < entries.len() implies match #[trigger] entries[i].get("value"@) {
            Some(v) => out.contains(v),
            None => true,
        } by {
            if i < n {
                assert(entries[i] == init[i]);
                match entries[i].get("value"@) {
                    Some(v) => {
                        let k = choose|k: int| 0 <= k < rest.len() && rest[k] == v;
                        assert(out[k] == v);
                    },
                    None => {},
                }
            } else {
                match entries[i].get("value"@) {
                    Some(v) => {
                        assert(out[rest.len() as int] == v);
                    },
                    None => {},
                }
            }
        }
        assert forall|j: int| 0 <= j < out.len() implies exists|i: int|
            #![trigger entries[i]]
            0 <= i < entries.len() && entries[i].get("value"@) == Some(#[trigger] out[j]) by {
            if j < rest.len() {
                assert(out[j] == rest[j]);
                let i = choose|i: int| #![trigger init[i]] 0 <= i < init.len() && init[i].get("value"@) == Some(rest[j]);
                assert(entries[i] == init[i]);
            } else {
                assert(entries[n].get("value"@) == Some(out[j]));
            }
        }
    }
}


/// A character potential reads back the key of its entry as `characterId`
/// and the value as `potentialLevel`.
pub proof fn lemma_potential_read_back(k: Json, v: Json)
    ensures
        Json::Object(seq![("characterId"@, k), ("potentialLevel"@, v)]).get("characterId"@) == Some(k),
        Json::Object(seq![("characterId"@, k), ("potentialLevel"@, v)]).get("potentialLevel"@) == Some(v),
{
    reveal_strlit("characterId");
    reveal_strlit("potentialLevel");
    assert("characterId"@.len() == 11);
    assert("potentialLevel"@.len() == 14);
    let es = seq![("characterId"@, k), ("potentialLevel"@, v)];
    lemma_entry_index_at(es, "characterId"@, 0);
    assert(es[0].0 != "potentialLevel"@);
    lemma_entry_index_at(es, "potentialLevel"@, 1);
}

/// Whether a map entry has both a `key` and a `value`.
pub open spec fn has_key_and_value(e: Json) -> bool {
    e.get("key"@) is Some && e.get("value"@) is Some
}

/// `c` is the potential of entry `e`: its `characterId` is the entry's key
/// and its `potentialLevel` the entry's value.
pub open spec fn potential_of(c: Json, e: Json) -> bool {
    &&& e.get("key"@) is Some
    &&& e.get("value"@) is Some
    &&& c.get("characterId"@) == e.get("key"@)
    &&& c.get("potentialLevel"@) == e.get("value"@)
}

/// Reshaping entries one after the other is reshaping them together: the
/// potentials of two runs of entries are those of the first, then those of
/// the second.
pub proof fn law_character_potentials_concat(a: Seq<Json>, b: Seq<Json>)
    ensures
        character_entries(a + b) == character_entries(a) + character_entries(b),
    decreases b.len(),
{
    if b.len() == 0 {
        assert(a + b =~= a);
        assert(character_entries(a) + character_entries(b) =~= character_entries(a));
    } else {
        let init = b.drop_last();
        law_character_potentials_concat(a, init);
        assert((a + b).subrange(0, (a + b).len() - 1) =~= a + init);
        assert((a + b).last() == b.last());
        assert(character_entries(a + b) =~= character_entries(a) + character_entries(b));
    }
}

/// One potential per map entry with both a key and a value, in the
/// entries' order: the list is as long as the number of such entries, its
/// item at `j` is the potential of the `j`-th such entry, and every such
/// entry has its potential in the list.
pub proof fn law_character_potentials_read_back(entries: Seq<Json>)
    ensures
        character_entries(entries).len() == entries.filter(|e: Json| has_key_and_value(e)).len(),
        forall|j: int|
            0 <= j < character_entries(entries).len() ==> potential_of(
                #[trigger] character_entries(entries)[j],
                entries.filter(|e: Json| has_key_and_value(e))[j],
            ),
        forall|i: int|
            0 <= i < entries.len() && has_key_and_value(#[trigger] entries[i]) ==> exists|j: int|
                0 <= j < character_entries(entries).len() && potential_of(
                    #[trigger] character_entries(entries)[j],
                    entries[i],
                ),
    decreases entries.len(),
{
    reveal(Seq::filter);
    if entries.len() > 0 {
        let n = entries.len() - 1;
        let init = entries.drop_last();
        law_character_potentials_read_back(init);
        let rest = character_entries(init);
        let out = character_entries(entries);
        let kept = entries.filter(|e: Json| has_key_and_value(e));
        let kept_init = init.filter(|e: Json| has_key_and_value(e));
        let e = entries.last();
        assert(forall|k: int| 0 <= k < rest.len() ==> #[trigger] out[k] == rest[k]);
        assert(forall|k: int| 0 <= k < kept_init.len() ==> #[trigger] kept[k] == kept_init[k]);
        if has_key_and_value(e) {
            let k = e.get("key"@)->Some_0;
            let v = e.get("value"@)->Some_0;
            lemma_potential_read_back(k, v);
            assert(out[rest.len() as int] == Json::Object(seq![("characterId"@, k), ("potentialLevel"@, v)]));
            assert(potential_of(out[rest.len() as int], e));
            assert(kept[kept_init.len() as int] == e);
        }
        assert forall|j: int| 0 <= j < out.len() implies potential_of(#[trigger] out[j], kept[j]) by {
            if j < rest.len() {
                assert(potential_of(rest[j], kept_init[j]));
            }
        }
        assert forall|i: int| 0 <= i < entries.len() && has_key_and_value(#[trigger] entries[i]) implies exists|j: int|
            0 <= j < out.len() && potential_of(#[trigger] out[j], entries[i]) by {
            if i < n {
                assert(entries[i] == init[i]);
                assert(has_key_and_value(init[i]));
                let j = choose|j: int| 0 <= j < rest.len() && potential_of(#[trigger] rest[j], init[i]);
                assert(out[j] == rest[j]);
            } else {
                assert(potential_of(out[rest.len() as int], entries[i]));
            }
        }
    }
}

} // verus!
