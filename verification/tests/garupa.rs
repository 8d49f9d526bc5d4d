use aes::cipher::block_padding::NoPadding;
use aes::cipher::{BlockEncryptMut, KeyIvInit};
use penlight_dream_box::error::AppError;
use penlight_dream_box::garupa::decoder::{decode, parse_raw_fields, read_varint, RawData, WireType};
use penlight_dream_box::garupa::schema::{suite_user_response_schema, user_profile_response_schema, user_situation_list_schema};
use penlight_dream_box::garupa::{
    profile_paths, store_version, suite_area_entries, suite_character_entries, Credentials, Platform,
    ProfileSettings, ProfileSnapshot,
};
use penlight_dream_box::json::{object_insert, JsonValue};

fn obj(entries: Vec<(&str, JsonValue)>) -> JsonValue {
    JsonValue::Object(entries.into_iter().map(|(k, v)| (k.to_string(), v)).collect())
}

fn num(v: i64) -> JsonValue {
    JsonValue::Int(v)
}

fn text(s: &str) -> JsonValue {
    JsonValue::Str(s.to_string())
}

fn int_at(v: &JsonValue, path: &[&str]) -> Option<i64> {
    let mut cur = v;
    for key in path {
        cur = match key.parse::<usize>() {
            Ok(i) => cur.at(i)?,
            Err(_) => cur.get(key)?,
        };
    }
    match cur {
        JsonValue::Int(n) => Some(*n),
        _ => None,
    }
}

fn str_at(v: &JsonValue, path: &[&str]) -> Option<String> {
    let mut cur = v;
    for key in path {
        cur = match key.parse::<usize>() {
            Ok(i) => cur.at(i)?,
            Err(_) => cur.get(key)?,
        };
    }
    match cur {
        JsonValue::Str(s) => Some(s.clone()),
        _ => None,
    }
}

fn varint(mut value: u64) -> Vec<u8> {
    let mut bytes = Vec::new();
    loop {
        let mut byte = (value & 0x7f) as u8;
        value >>= 7;
        if value != 0 {
            byte |= 0x80;
        }
        bytes.push(byte);
        if value == 0 {
            return bytes;
        }
    }
}

fn field_int(field: u32, value: u64) -> Vec<u8> {
    let mut bytes = varint(u64::from(field) << 3);
    bytes.extend(varint(value));
    bytes
}

fn field_bytes(field: u32, value: &[u8]) -> Vec<u8> {
    let mut bytes = varint((u64::from(field) << 3) | 2);
    bytes.extend(varint(value.len() as u64));
    bytes.extend(value);
    bytes
}

fn join(parts: &[Vec<u8>]) -> Vec<u8> {
    parts.iter().flat_map(|part| part.iter().copied()).collect()
}

const KEY: &[u8; 16] = b"0123456789abcdef";
const IV: &[u8; 16] = b"abcdef0123456789";

fn encrypted(mut plaintext: Vec<u8>) -> Vec<u8> {
    plaintext.resize(plaintext.len().next_multiple_of(16).max(16), 0);
    let mut buffer = plaintext;
    let encryptor = cbc::Encryptor::<aes::Aes128>::new_from_slices(KEY, IV).unwrap();
    let length = buffer.len();
    encryptor.encrypt_padded_mut::<NoPadding>(&mut buffer, length).unwrap();
    buffer
}

fn settings(key: Option<&[u8]>, iv: Option<&[u8]>) -> ProfileSettings {
    ProfileSettings {
        base: "https://api.garupa.jp/api/".to_string(),
        encryption_key: key.map(|k| k.to_vec()),
        encryption_iv: iv.map(|v| v.to_vec()),
        client_version: "9.0.0".to_string(),
        android_client_version: "9.0.1".to_string(),
        unity_version: "2021.3.0".to_string(),
        user_agent: "test-agent".to_string(),
        package_url: "".to_string(),
        timeout_secs: 20,
        version_ttl_secs: 3600,
    }
}

#[test]
fn validates_request_credentials_without_logging_or_normalizing_secrets() {
    let credentials = Credentials::from_input(" 123 ", "uuid-value", "android").unwrap();
    assert_eq!(credentials.uid, "123");
    assert_eq!(credentials.uuid, "uuid-value");
    assert_eq!(credentials.platform, Platform::Android);
    assert!(Credentials::from_input("12/3", "uuid", "iOS").is_err());
    assert!(Credentials::from_input("123", "uuid", "windows").is_err());
}

#[test]
fn maps_suite_maps_to_profile_mapper_shape() {
    let suite = obj(vec![
        (
            "userAreaItemMap",
            obj(vec![(
                "entries",
                JsonValue::Array(vec![obj(vec![
                    ("key", num(1)),
                    ("value", obj(vec![("areaItemCategory", num(2)), ("level", num(8))])),
                ])]),
            )]),
        ),
        (
            "userCharacterPotentialLevelMap",
            obj(vec![(
                "entries",
                JsonValue::Array(vec![obj(vec![
                    ("key", num(40)),
                    (
                        "value",
                        obj(vec![
                            ("performanceLevel", num(50)),
                            ("techniqueLevel", num(40)),
                            ("visualLevel", num(30)),
                        ]),
                    ),
                ])]),
            )]),
        ),
    ]);

    let areas = suite_area_entries(&suite);
    let characters = suite_character_entries(&suite);
    assert_eq!(int_at(&areas, &["entries", "0", "areaItemCategory"]), Some(2));
    assert_eq!(int_at(&characters, &["entries", "0", "characterId"]), Some(40));
    assert_eq!(int_at(&characters, &["entries", "0", "potentialLevel", "visualLevel"]), Some(30));
}

#[test]
fn suite_without_maps_gives_empty_entries() {
    let suite = obj(vec![]);
    let areas = suite_area_entries(&suite);
    let entries = areas.get("entries").and_then(|e| e.as_array()).map(|a| a.len());
    assert_eq!(entries, Some(0));
}

#[test]
fn credentials_reject_bad_uid_uuid_and_platform_with_their_messages() {
    let e = Credentials::from_input("", "uuid", "iOS").err().unwrap();
    assert_eq!(e.status(), 422);
    assert!(Credentials::from_input("123456789012345678901", "uuid", "iOS").is_err());
    assert!(Credentials::from_input("123", "", "iOS").is_err());
    match Credentials::from_input("123", "uuid", "windows") {
        Err(AppError::Validation { field, message }) => {
            assert_eq!(field, "platform");
            assert_eq!(message, "platform must be either iOS or Android");
        }
        _ => panic!("expected a validation error"),
    }
    let ios = Credentials::from_input("123", "uuid", " IPhone ").unwrap();
    assert_eq!(ios.platform, Platform::Ios);
}

#[test]
fn platform_parses_and_names_its_header() {
    assert_eq!(Platform::parse("iOS").unwrap(), Platform::Ios);
    assert_eq!(Platform::parse("ipad").unwrap(), Platform::Ios);
    assert_eq!(Platform::parse("Android").unwrap(), Platform::Android);
    assert!(Platform::parse("").is_err());
    assert_eq!(Platform::Ios.header_value(), "iOS");
    assert_eq!(Platform::Android.header_value(), "Android");
    assert_eq!(Platform::parse(Platform::Android.header_value()).unwrap(), Platform::Android);
}

#[test]
fn reads_varints() {
    assert_eq!(read_varint(&[0xac, 0x02], 0), Some((300, 2)));
    assert_eq!(read_varint(&[0x01, 0x96, 0x01], 1), Some((150, 3)));
    assert_eq!(read_varint(&[0x80], 0), None);
    assert_eq!(read_varint(&varint(i64::MAX as u64), 0), Some((i64::MAX as u64, 9)));
    assert_eq!(read_varint(&varint(u64::MAX), 0), None);
}

#[test]
fn splits_raw_fields() {
    let buf = join(&[field_int(1, 77), field_bytes(3, b"Tester")]);
    let raw = parse_raw_fields(&buf);
    assert_eq!(raw.len(), 2);
    assert_eq!(raw[0].field, 1);
    assert!(matches!(raw[0].wire_type, WireType::Varint));
    assert!(matches!(raw[0].data, RawData::Varint(77)));
    assert_eq!(raw[1].field, 3);
    match &raw[1].data {
        RawData::Bytes(b) => assert_eq!(b.as_slice(), b"Tester"),
        _ => panic!("expected bytes"),
    }
}

#[test]
fn decodes_a_profile_response_by_schema() {
    let profile = join(&[field_int(1, 77), field_bytes(3, b"Tester")]);
    let buf = field_bytes(1, &profile);
    let v = decode(&buf, &user_profile_response_schema()).unwrap();
    assert_eq!(int_at(&v, &["profile", "userId"]), Some(77));
    assert_eq!(str_at(&v, &["profile", "userName"]), Some("Tester".to_string()));
    assert!(v.get("stats").is_none());
}

#[test]
fn decodes_repeated_entries_and_replaces_invalid_text() {
    let owned = join(&[field_int(2, 1001), field_int(3, 60), field_bytes(7, b"done\xff")]);
    let buf = join(&[field_bytes(1, &owned), field_bytes(1, &field_int(2, 1002))]);
    let v = decode(&buf, &user_situation_list_schema()).unwrap();
    assert_eq!(int_at(&v, &["entries", "0", "situationId"]), Some(1001));
    assert_eq!(int_at(&v, &["entries", "0", "level"]), Some(60));
    assert_eq!(str_at(&v, &["entries", "0", "trainingStatus"]), Some("done\u{fffd}".to_string()));
    assert_eq!(int_at(&v, &["entries", "1", "situationId"]), Some(1002));
}

#[test]
fn decodes_suite_maps() {
    let area = join(&[field_int(3, 2), field_int(4, 8)]);
    let entry = join(&[field_int(1, 1), field_bytes(2, &area)]);
    let map = field_bytes(1, &entry);
    let buf = field_bytes(22, &map);
    let v = decode(&buf, &suite_user_response_schema()).unwrap();
    assert_eq!(int_at(&v, &["userAreaItemMap", "entries", "0", "key"]), Some(1));
    assert_eq!(int_at(&v, &["userAreaItemMap", "entries", "0", "value", "level"]), Some(8));
}

#[test]
fn decrypts_and_decodes_an_official_body() {
    let profile = join(&[field_int(1, 77), field_bytes(3, b"Tester")]);
    let plain = field_bytes(1, &profile);
    let body = encrypted(plain.clone());
    let s = settings(Some(KEY), Some(IV));
    let decrypted = s.decrypt(&body).unwrap();
    assert_ne!(decrypted, body);
    assert_eq!(&decrypted[..plain.len()], plain.as_slice());
    let v = s.decode_response(&body, &user_profile_response_schema()).unwrap();
    assert_eq!(str_at(&v, &["profile", "userName"]), Some("Tester".to_string()));
}

#[test]
fn decrypt_reports_each_failure() {
    let s = settings(Some(KEY), Some(IV));
    match s.decrypt(&[1, 2, 3]) {
        Err(AppError::Upstream(m)) => {
            assert_eq!(m, "official Garupa response had an invalid encrypted payload")
        }
        _ => panic!("expected an upstream error"),
    }
    match settings(None, Some(IV)).decrypt(&[0; 16]) {
        Err(AppError::Unavailable(m)) => assert_eq!(m, "profile export encryption key is not configured"),
        _ => panic!("expected an unavailable error"),
    }
    match settings(Some(KEY), None).decrypt(&[0; 16]) {
        Err(AppError::Unavailable(m)) => assert_eq!(m, "profile export encryption IV is not configured"),
        _ => panic!("expected an unavailable error"),
    }
    match settings(Some(b"short"), Some(IV)).decrypt(&[0; 16]) {
        Err(AppError::Unavailable(m)) => assert_eq!(m, "profile export encryption settings are invalid"),
        _ => panic!("expected an unavailable error"),
    }
}

#[test]
fn configuration_check_names_what_is_missing() {
    assert!(settings(Some(KEY), Some(IV)).ensure_configured().is_ok());
    let mut no_base = settings(Some(KEY), Some(IV));
    no_base.base = String::new();
    match no_base.ensure_configured() {
        Err(AppError::Unavailable(m)) => {
            assert_eq!(m, "profile export is not configured: GARUPA_SERVER_BASES is empty")
        }
        _ => panic!("expected an unavailable error"),
    }
    match settings(Some(b"0123"), Some(IV)).ensure_configured() {
        Err(AppError::Unavailable(m)) => assert_eq!(
            m,
            "profile export is not configured: encryption key and IV must each be 16 bytes"
        ),
        _ => panic!("expected an unavailable error"),
    }
}

#[test]
fn client_versions_and_urls() {
    let mut s = settings(Some(KEY), Some(IV));
    assert_eq!(s.configured_client_version(Platform::Ios), "9.0.0");
    assert_eq!(s.configured_client_version(Platform::Android), "9.0.1");
    assert!(!s.uses_store_version(Platform::Ios));
    s.package_url = " https://itunes.apple.com/lookup?id=1 ".to_string();
    assert!(s.uses_store_version(Platform::Ios));
    assert!(!s.uses_store_version(Platform::Android));
    assert_eq!(s.request_url("//user/77"), "https://api.garupa.jp/api/user/77");
    assert!(s.version_cache_fresh(3_599_999));
    assert!(!s.version_cache_fresh(3_600_000));
}

#[test]
fn profile_paths_follow_the_official_api() {
    let p = profile_paths("77");
    assert_eq!(p.profile, "user/77");
    assert_eq!(p.situations, "user/77/situation");
    assert_eq!(p.episodes, "user/77/episode");
    assert_eq!(p.cards, "situation");
    assert_eq!(p.suite, "suite/user/77");
}

#[test]
fn reads_the_store_version() {
    let body = obj(vec![("results", JsonValue::Array(vec![obj(vec![("version", text("9.1.0"))])]))]);
    assert_eq!(store_version(&body), Some("9.1.0".to_string()));
    let blank = obj(vec![("results", JsonValue::Array(vec![obj(vec![("version", text("  "))])]))]);
    assert_eq!(store_version(&blank), None);
    assert_eq!(store_version(&obj(vec![("results", JsonValue::Array(vec![]))])), None);
}

#[test]
fn snapshot_takes_areas_and_characters_from_the_suite() {
    let suite = obj(vec![(
        "userCharacterPotentialLevelMap",
        obj(vec![(
            "entries",
            JsonValue::Array(vec![obj(vec![("key", num(7)), ("value", obj(vec![("visualLevel", num(3))]))])]),
        )]),
    )]);
    let snap = ProfileSnapshot::from_responses(text("p"), text("s"), text("e"), text("c"), &suite);
    assert_eq!(int_at(&snap.characters, &["entries", "0", "characterId"]), Some(7));
    assert_eq!(int_at(&snap.characters, &["entries", "0", "potentialLevel", "visualLevel"]), Some(3));
    assert_eq!(snap.areas.get("entries").and_then(|e| e.as_array()).map(|a| a.len()), Some(0));
}

#[test]
fn object_insert_replaces_and_reads_back() {
    let mut entries: Vec<(String, JsonValue)> = vec![("a".to_string(), num(1)), ("b".to_string(), num(2))];
    object_insert(&mut entries, "a".to_string(), num(9));
    object_insert(&mut entries, "c".to_string(), num(3));
    assert_eq!(entries.len(), 3);
    let obj = JsonValue::Object(entries);
    assert_eq!(int_at(&obj, &["a"]), Some(9));
    assert_eq!(int_at(&obj, &["b"]), Some(2));
    assert_eq!(int_at(&obj, &["c"]), Some(3));
}

fn official_payload(path: &str) -> Vec<u8> {
    let payload = match path {
        "user/77" => field_bytes(1, &join(&[field_int(1, 77), field_bytes(3, b"Tester")])),
        "user/77/situation" => {
            let owned = join(&[
                field_int(2, 1001),
                field_int(3, 60),
                field_bytes(7, b"completed"),
                field_bytes(9, b"normal"),
                field_int(11, 5),
                field_int(13, 2),
            ]);
            field_bytes(1, &owned)
        }
        "user/77/episode" => Vec::new(),
        "situation" => {
            let episode_list = field_bytes(1, &field_int(1, 9001));
            field_bytes(1, &join(&[field_int(1, 1001), field_bytes(14, &episode_list)]))
        }
        "suite/user/77" => {
            let area = join(&[field_int(1, 77), field_int(2, 1), field_int(3, 1), field_int(4, 8)]);
            let area_map = field_bytes(1, &join(&[field_int(1, 1), field_bytes(2, &area)]));
            let potential = join(&[field_int(1, 20), field_int(2, 15), field_int(3, 20)]);
            let potential_map = field_bytes(1, &join(&[field_int(1, 1), field_bytes(2, &potential)]));
            join(&[field_bytes(22, &area_map), field_bytes(401, &potential_map)])
        }
        _ => Vec::new(),
    };
    encrypted(payload)
}

#[test]
fn decodes_each_official_response_of_a_profile_export() {
    let s = settings(Some(KEY), Some(IV));
    let credentials = Credentials::from_input("77", "ios-secret", "iOS").unwrap();
    let paths = profile_paths(&credentials.uid);
    let profile = s.decode_response(&official_payload(&paths.profile), &user_profile_response_schema()).unwrap();
    let situations =
        s.decode_response(&official_payload(&paths.situations), &user_situation_list_schema()).unwrap();
    let episodes = s
        .decode_response(
            &official_payload(&paths.episodes),
            &penlight_dream_box::garupa::schema::user_episode_list_schema(),
        )
        .unwrap();
    let cards = s
        .decode_response(&official_payload(&paths.cards), &penlight_dream_box::garupa::schema::situation_list_schema())
        .unwrap();
    let suite = s.decode_response(&official_payload(&paths.suite), &suite_user_response_schema()).unwrap();
    let snapshot = ProfileSnapshot::from_responses(profile, situations, episodes, cards, &suite);
    assert_eq!(str_at(&snapshot.profile, &["profile", "userName"]), Some("Tester".to_string()));
    assert_eq!(int_at(&snapshot.situations, &["entries", "0", "situationId"]), Some(1001));
    assert_eq!(int_at(&snapshot.cards, &["entries", "0", "episodes", "entries", "0", "episodeId"]), Some(9001));
    assert_eq!(int_at(&snapshot.areas, &["entries", "0", "areaItemCategory"]), Some(1));
    assert_eq!(int_at(&snapshot.characters, &["entries", "0", "potentialLevel", "visualLevel"]), Some(20));
    assert!(snapshot.episodes.get("entries").is_none());
    assert_eq!(credentials.platform.header_value(), "iOS");
}

#[test]
fn encoded_fields_parse_back_before_any_suffix() {
    let enc = join(&[field_int(1, 77), field_bytes(3, b"Tester"), field_int(5, 1 << 40)]);
    let alone = parse_raw_fields(&enc);
    assert_eq!(alone.len(), 3);
    assert!(matches!(alone[2].data, RawData::Varint(v) if v == 1 << 40));
    let suffix = field_int(9, 4);
    let both = parse_raw_fields(&join(&[enc.clone(), suffix.clone()]));
    assert_eq!(both.len(), 4);
    assert_eq!(both[3].field, 9);
    assert!(matches!(both[3].data, RawData::Varint(4)));
}

#[test]
fn zero_padding_decodes_alike() {
    let buf = field_bytes(1, &join(&[field_int(1, 77), field_bytes(3, b"Tester")]));
    let mut padded = buf.clone();
    padded.resize(32, 0);
    let a = decode(&buf, &user_profile_response_schema()).unwrap();
    let b = decode(&padded, &user_profile_response_schema()).unwrap();
    assert_eq!(str_at(&a, &["profile", "userName"]), str_at(&b, &["profile", "userName"]));
    assert_eq!(int_at(&b, &["profile", "userId"]), Some(77));
    assert_eq!(format!("{a:?}"), format!("{b:?}"));
}

#[test]
fn zero_padding_decodes_alike_with_non_minimal_varints() {
    let stats = vec![0x88, 0x00, 0x05, 0x10, 0x87, 0x80, 0x00];
    let buf = field_bytes(2, &stats);
    let mut padded = buf.clone();
    padded.resize(32, 0);
    let a = decode(&buf, &user_profile_response_schema()).unwrap();
    let b = decode(&padded, &user_profile_response_schema()).unwrap();
    assert_eq!(int_at(&a, &["stats", "userId"]), Some(5));
    assert_eq!(int_at(&a, &["stats", "rank"]), Some(7));
    assert_eq!(format!("{a:?}"), format!("{b:?}"));
}
