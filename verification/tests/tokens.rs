use base64::Engine;
use kaltura_client_rs::crypto::{aes_decrypt, aes_iv, sha1};
use kaltura_client_rs::models::session::{KalturaSession, SessionType};
use kaltura_client_rs::{
    generate_privileges, generate_session, generate_session_at, generate_session_v2,
    generate_session_v2_with, session_duration, KalturaClientConfig,
};

fn decode_b64url(s: &str) -> Vec<u8> {
    base64::engine::general_purpose::URL_SAFE_NO_PAD
        .decode(s)
        .expect("token must be valid base64url")
}

fn sample_session(secret: &str, user: &str, pid: i32, expiry: i32, privs: &str) -> KalturaSession {
    KalturaSession::new(
        secret.to_string(),
        user.to_string(),
        pid,
        expiry,
        privs.to_string(),
        SessionType::USER,
    )
}

#[test]
fn v1_deterministic_for_frozen_clock() {
    let now: u64 = 1700000000;
    let mut s1 = sample_session("s3cr3t", "u@example.com", 123, 3600, "disableentitlement");
    let mut s2 = sample_session("s3cr3t", "u@example.com", 123, 3600, "disableentitlement");
    generate_session_at(&mut s1, now);
    generate_session_at(&mut s2, now);
    assert!(!s1.ks.is_empty());
    assert_eq!(s1.ks, s2.ks);
}

#[test]
fn v1_matches_direct_composition() {
    let now: u64 = 1700000000;
    let mut s = sample_session("s3cr3t", "u@example.com", 123, 3600, "disableentitlement");
    generate_session_at(&mut s, now);

    let t = now + 3600;
    let payload = format!("123;123;{t};0;{t}.0000;u@example.com;disableentitlement;;");
    let signed: Vec<u8> = format!("s3cr3t{payload}").into_bytes();
    let digest = sha1(&signed);
    let hex: String = digest.iter().map(|b| format!("{:02x}", b)).collect();
    let expected = base64::engine::general_purpose::URL_SAFE_NO_PAD
        .encode(format!("{hex}{payload}").into_bytes());
    assert_eq!(s.ks, expected);
}

#[test]
fn v1_zero_expiry_normalizes_to_default() {
    let now: u64 = 1700000000;
    let mut s = KalturaSession {
        secret: "secret".to_string(),
        user_id: "user".to_string(),
        partner_id: 42,
        expiry: 0,
        privileges: "".to_string(),
        session_type: SessionType::USER,
        ks: String::new(),
    };
    generate_session_at(&mut s, now);
    let decoded = decode_b64url(&s.ks);
    let text = String::from_utf8(decoded).expect("v1 token bytes are printable");
    let payload = &text[40..];
    let fields: Vec<&str> = payload.split(';').collect();
    assert_eq!(fields[2], (now + 86400).to_string());
}

#[test]
fn session_duration_normalizes_zero() {
    assert_eq!(session_duration(1700000000, 0), 1700000000 + 86400);
    assert_eq!(session_duration(1700000000, 60), 1700000000 + 60);
    assert_eq!(session_duration(1700000000, -60), 1700000000 - 60);
}

#[test]
fn privileges_star_becomes_all() {
    let s = sample_session("x", "u", 1, 60, "*");
    let dirs = generate_privileges(&s);
    assert_eq!(dirs, vec![("all".to_string(), "*".to_string())]);
}

#[test]
fn privileges_split_on_first_colon_and_bare_keys() {
    let s = sample_session("x", "u", 1, 60, "a:b,c");
    let dirs = generate_privileges(&s);
    assert_eq!(
        dirs,
        vec![
            ("a".to_string(), "b".to_string()),
            ("c".to_string(), "".to_string()),
        ]
    );
    let s2 = sample_session("x", "u", 1, 60, "k:v:w");
    let dirs2 = generate_privileges(&s2);
    assert_eq!(dirs2, vec![("k".to_string(), "v:w".to_string())]);
}

#[test]
fn privileges_empty_string_yields_no_directives() {
    let s = sample_session("x", "u", 1, 60, "");
    let dirs = generate_privileges(&s);
    assert!(dirs.is_empty());
}

#[test]
fn privileges_preserve_order_and_duplicates() {
    let s = sample_session("x", "u", 1, 60, " b , a:1 ,b:2");
    let dirs = generate_privileges(&s);
    assert_eq!(
        dirs,
        vec![
            ("b".to_string(), "".to_string()),
            ("a".to_string(), "1".to_string()),
            ("b".to_string(), "2".to_string()),
        ]
    );
}

#[test]
fn v2_envelope_starts_with_versioned_prefix() {
    let mut s = sample_session("s3cr3t", "u@example.com", 123, 3600, "disableentitlement");
    generate_session_v2(&mut s);
    let raw = decode_b64url(&s.ks);
    assert!(raw.starts_with(b"v2|123|"));
}

fn decrypt_v2_body(ks: &str, secret: &str, prefix: &str) -> Vec<u8> {
    let raw = decode_b64url(ks);
    assert!(raw.starts_with(prefix.as_bytes()));
    let body: Vec<u8> = raw[prefix.len()..].to_vec();
    assert_eq!(body.len() % 16, 0);
    let key = sha1(&secret.as_bytes().to_vec());
    let iv = aes_iv();
    aes_decrypt(&body, &key, &iv)
}

#[test]
fn v2_decrypts_to_digest_nonce_and_fields() {
    let nonce: Vec<u8> = (0..16u8).map(|i| 65 + i).collect();
    let mut s = sample_session("s3cr3t", "u@example.com", 123, 3600, "disableentitlement");
    generate_session_v2_with(&mut s, &nonce);
    let plain = decrypt_v2_body(&s.ks, "s3cr3t", "v2|123|");

    // Strip the zero padding; the serialized fields never end with a 0 byte.
    let end = plain.iter().rposition(|b| *b != 0).unwrap() + 1;
    assert!(end >= 36);
    assert_eq!(&plain[20..36], &nonce[..]);
    let ser = &plain[36..end];
    let text = std::str::from_utf8(ser).expect("fields are printable");
    assert_eq!(text, "_e=3600&_u=u%40example.com&_t=0&disableentitlement=");

    // The leading 20 bytes are the reversed digest of nonce || fields.
    let mut hashed = nonce.clone();
    hashed.extend_from_slice(ser);
    let digest = sha1(&hashed);
    let reversed: Vec<u8> = digest.iter().rev().cloned().collect();
    assert_eq!(&plain[..20], &reversed[..]);
}

#[test]
fn v2_empty_privileges_yield_exactly_reserved_fields() {
    let nonce: Vec<u8> = vec![80; 16];
    let mut s = sample_session("topsecret", "user", 7, 0, "");
    generate_session_v2_with(&mut s, &nonce);
    let plain = decrypt_v2_body(&s.ks, "topsecret", "v2|7|");
    let end = plain.iter().rposition(|b| *b != 0).unwrap() + 1;
    let text = std::str::from_utf8(&plain[36..end]).unwrap();
    assert_eq!(text, "_e=86400&_u=user&_t=0");
}

#[test]
fn v2_random_nonce_is_printable() {
    let mut s = sample_session("s3cr3t", "u", 55, 3600, "");
    generate_session_v2(&mut s);
    let plain = decrypt_v2_body(&s.ks, "s3cr3t", "v2|55|");
    for b in &plain[20..36] {
        assert!((65..=125).contains(b));
    }
}

#[test]
fn sha1_known_vector() {
    let digest = sha1(&b"abc".to_vec());
    let hex: String = digest.iter().map(|b| format!("{:02x}", b)).collect();
    assert_eq!(hex, "a9993e364706816aba3e25717850c26c9cd0d89d");
}

#[test]
fn v2_reserved_keys_take_precedence() {
    let nonce: Vec<u8> = vec![80; 16];
    let mut s = sample_session("k", "real", 9, 60, "_u:evil,x:1");
    generate_session_v2_with(&mut s, &nonce);
    let plain = decrypt_v2_body(&s.ks, "k", "v2|9|");
    let end = plain.iter().rposition(|b| *b != 0).unwrap() + 1;
    let text = std::str::from_utf8(&plain[36..end]).unwrap();
    assert_eq!(text, "_e=60&_u=real&_t=0&x=1");
}

#[test]
fn v1_round_trip_scenario() {
    let before = std::time::SystemTime::now()
        .duration_since(std::time::UNIX_EPOCH)
        .unwrap()
        .as_secs();
    let mut s = sample_session("s3cr3t", "u@example.com", 123, 3600, "disableentitlement");
    generate_session(&mut s);
    let after = std::time::SystemTime::now()
        .duration_since(std::time::UNIX_EPOCH)
        .unwrap()
        .as_secs();
    assert!(!s.ks.is_empty());
    let decoded = decode_b64url(&s.ks);
    let text = String::from_utf8(decoded).unwrap();
    let payload = &text[40..];
    let fields: Vec<&str> = payload.split(';').collect();
    assert_eq!(fields.len(), 9);
    assert_eq!(fields[0], "123");
    assert_eq!(fields[1], "123");
    let t: u64 = fields[2].parse().unwrap();
    assert!(t >= before + 3600 && t <= after + 3600);
    assert_eq!(fields[3], "0");
    assert_eq!(fields[4], format!("{t}.0000"));
    assert_eq!(fields[5], "u@example.com");
    assert_eq!(fields[6], "disableentitlement");
    assert_eq!(fields[7], "");
    assert_eq!(fields[8], "");
}

#[test]
fn default_config_points_at_public_endpoint() {
    let config = KalturaClientConfig::default();
    assert_eq!(
        config.service_url.as_deref(),
        Some("https://www.kaltura.com/api_v3")
    );
}

#[test]
fn negative_partner_id_renders_with_sign() {
    let now: u64 = 1700000000;
    let mut s = sample_session("x", "u", -5, 60, "");
    generate_session_at(&mut s, now);
    let decoded = decode_b64url(&s.ks);
    let text = String::from_utf8(decoded).unwrap();
    assert!(text[40..].starts_with("-5;-5;"));
}
