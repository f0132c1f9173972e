use dino_park_fossil::name::{
    name_from_uuid, name_from_uuid_at, uuid_from_name, uuid_hash, ExternalFileName,
    InternalFileName, NameError,
};
use dino_park_fossil::text::{hex_string, i64_to_decimal, parse_i64};
use dino_park_fossil::visibility::Display;
use sha2::Digest;

fn file_name(hash: &str, display: Display, ts: i64) -> ExternalFileName {
    ExternalFileName {
        internal: InternalFileName { uuid_hash: hash.to_string(), display },
        ts,
    }
}

#[test]
fn name_test_name_uuid_conversion() {
    let uuid = "9e697947-2990-4182-b080-533c16af4799";
    let name = name_from_uuid(uuid);
    let restored_uuid = uuid_from_name(&name).unwrap();
    assert_eq!(restored_uuid, uuid);
}

#[test]
fn test_name_uuid_conversion() {
    let uuid = "9e697947-2990-4182-b080-533c16af4799";
    let display = &Display::Staff;
    let name = ExternalFileName::from_uuid_and_display(uuid, display).filename();
    println!("{}", name);
    let external_file_name = ExternalFileName::from_uri(&name).unwrap();
    assert_eq!(
        external_file_name.internal.uuid_hash,
        format!("{:x}", sha2::Sha256::digest(uuid.as_bytes()))
    );
    assert_eq!(&external_file_name.internal.display, display);
}

#[test]
fn staff_token_recovers_hash_and_level() {
    let uuid = "9e697947-2990-4182-b080-533c16af4799";
    let token = ExternalFileName::from_uuid_and_display(uuid, &Display::Staff).encode();
    let decoded = ExternalFileName::from_encoded(&token).unwrap();
    assert_eq!(
        decoded.internal.uuid_hash,
        "2e981b86d5f77f5466ec56e2b403deae29270f009e8afda583cf12747b447426"
    );
    assert_eq!(decoded.internal.display, Display::Staff);
}

#[test]
fn round_trip_every_level() {
    let levels = [
        Display::Public,
        Display::Authenticated,
        Display::Vouched,
        Display::Ndaed,
        Display::Staff,
        Display::Private,
    ];
    for d in levels {
        for ts in [0i64, 7, -12, 1554045983, i64::MAX, i64::MIN] {
            let n = file_name(&uuid_hash("someone"), d, ts);
            let back = ExternalFileName::from_uri(&n.filename()).unwrap();
            assert_eq!(back.internal.uuid_hash, n.internal.uuid_hash);
            assert_eq!(back.internal.display, d);
            assert_eq!(back.ts, ts);
        }
    }
}

#[test]
fn uuid_hash_is_sha256_hex() {
    assert_eq!(uuid_hash("").len(), 64);
    assert_eq!(
        uuid_hash("9e697947-2990-4182-b080-533c16af4799"),
        "2e981b86d5f77f5466ec56e2b403deae29270f009e8afda583cf12747b447426"
    );
}

#[test]
fn encode_is_url_safe_base64_of_payload() {
    assert_eq!(file_name("ab", Display::Public, 5).payload(), "ab#public#5");
    assert_eq!(file_name("ab", Display::Public, 5).encode(), "YWIjcHVibGljIzU");
    assert_eq!(file_name("ab", Display::Staff, -12).encode(), "YWIjc3RhZmYjLTEy");
    assert_eq!(file_name("ab", Display::Public, 5).filename(), "YWIjcHVibGljIzU.png");
}

#[test]
fn internal_name_is_hash_level_and_ending() {
    let n = InternalFileName { uuid_hash: "ab".to_string(), display: Display::Ndaed };
    assert_eq!(n.to_string(), "ab_ndaed.png");
}

#[test]
fn decode_reads_old_token() {
    let n = ExternalFileName::from_uri(
        "MmU5ODFiODZkNWY3N2Y1NDY2ZWM1NmUyYjQwM2RlYWUyOTI3MGYwMDllOGFmZGE1ODNjZjEyNzQ3YjQ0NzQyNiNzdGFmZiMxNTU0MDQ1OTgz.png",
    )
    .unwrap();
    assert_eq!(
        n.internal.uuid_hash,
        "2e981b86d5f77f5466ec56e2b403deae29270f009e8afda583cf12747b447426"
    );
    assert_eq!(n.internal.display, Display::Staff);
    assert_eq!(n.ts, 1554045983);
}

#[test]
fn from_uri_strips_path_and_extension() {
    let a = ExternalFileName::from_uri("https://host/avatar/get/id/YWIjcHVibGljIzU.png").unwrap();
    assert_eq!(a.internal.uuid_hash, "ab");
    assert_eq!(a.ts, 5);
    let b = ExternalFileName::from_uri("YWIjcHVibGljIzU").unwrap();
    assert_eq!(b.internal.display, Display::Public);
    let c = ExternalFileName::from_uri("a.b/YWIjcHVibGljIzU").unwrap();
    assert_eq!(c.ts, 5);
}

#[test]
fn decode_rejects_non_base64() {
    assert!(matches!(ExternalFileName::from_encoded("not base64!"), Err(NameError::InvalidBase64)));
}

#[test]
fn decode_rejects_non_utf8() {
    assert!(matches!(ExternalFileName::from_encoded("__4jc3RhZmYjMQ"), Err(NameError::InvalidUtf8)));
}

#[test]
fn decode_rejects_missing_fields() {
    assert!(matches!(ExternalFileName::from_encoded("YWIjcHVibGlj"), Err(NameError::InvalidName)));
    assert!(matches!(ExternalFileName::from_payload(b"abc".to_vec()), Err(NameError::InvalidName)));
    assert!(matches!(ExternalFileName::from_payload(Vec::new()), Err(NameError::InvalidName)));
}

#[test]
fn decode_rejects_unknown_level() {
    assert!(matches!(ExternalFileName::from_encoded("YWIjbm9wZSM1"), Err(NameError::InvalidDisplay)));
    assert!(matches!(ExternalFileName::from_payload(b"ab#Staff#1".to_vec()), Err(NameError::InvalidDisplay)));
}

#[test]
fn decode_rejects_bad_timestamp() {
    assert!(matches!(ExternalFileName::from_encoded("YWIjc3RhZmYjeDE"), Err(NameError::InvalidTimestamp)));
    assert!(matches!(
        ExternalFileName::from_payload(b"ab#staff#9223372036854775808".to_vec()),
        Err(NameError::InvalidTimestamp)
    ));
    assert!(matches!(ExternalFileName::from_payload(b"ab#staff#".to_vec()), Err(NameError::InvalidTimestamp)));
}

#[test]
fn decode_ignores_fields_after_the_third() {
    let n = ExternalFileName::from_payload(b"ab#vouched#42#rest".to_vec()).unwrap();
    assert_eq!(n.internal.uuid_hash, "ab");
    assert_eq!(n.internal.display, Display::Vouched);
    assert_eq!(n.ts, 42);
}

#[test]
fn plain_owner_token() {
    assert_eq!(
        name_from_uuid_at("9e697947-2990-4182-b080-533c16af4799", 1554045983),
        "OWU2OTc5NDctMjk5MC00MTgyLWIwODAtNTMzYzE2YWY0Nzk5IzE1NTQwNDU5ODM"
    );
    assert!(matches!(uuid_from_name("%%"), Err(NameError::InvalidBase64)));
}

#[test]
fn hex_and_decimal_forms() {
    assert_eq!(hex_string(&[0x00, 0x0f, 0xa0, 0xff]), "000fa0ff");
    assert_eq!(hex_string(&[]), "");
    assert_eq!(i64_to_decimal(0), "0");
    assert_eq!(i64_to_decimal(-905), "-905");
    assert_eq!(i64_to_decimal(i64::MIN), "-9223372036854775808");
    assert_eq!(i64_to_decimal(i64::MAX), "9223372036854775807");
}

#[test]
fn integer_parsing() {
    assert_eq!(parse_i64("42"), Some(42));
    assert_eq!(parse_i64("+42"), Some(42));
    assert_eq!(parse_i64("-0"), Some(0));
    assert_eq!(parse_i64("-9223372036854775808"), Some(i64::MIN));
    assert_eq!(parse_i64("9223372036854775807"), Some(i64::MAX));
    assert_eq!(parse_i64("9223372036854775808"), None);
    assert_eq!(parse_i64(""), None);
    assert_eq!(parse_i64("-"), None);
    assert_eq!(parse_i64("1a"), None);
    assert_eq!(parse_i64("99999999999999999999999"), None);
}
