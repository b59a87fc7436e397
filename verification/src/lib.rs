//! Session-token generation for the Kaltura API: the legacy digest-signed
//! `v1` format and the encrypted binary `v2` format, plus the privilege
//! directives both formats embed. The byte layout of both formats is an
//! interoperability contract with the remote service; every step of it is
//! specified and proved here.
pub mod crypto;
pub mod encoding;
pub mod laws;
pub mod models;
pub mod privileges;

use vstd::prelude::*;
use vstd::string::StrSliceExecFns;
use vstd::utf8::encode_utf8;

use crate::encoding::{
    b64url_encode, b64url_of, dec_int, dec_of, hex_of, i64_to_dec, qs_serialize, serialize_fields,
    to_hex, u64_to_dec,
};
use crate::models::session::{normalize_expiry, KalturaSession};
use crate::privileges::{parse_privileges, reserved_key};
pub use crate::privileges::generate_privileges;

verus! {

/// Client configuration: where requests go.
#[derive(Debug, PartialEq)]
pub struct KalturaClientConfig {
    pub service_url: Option<String>,
}

impl Default for KalturaClientConfig {
    /// The default configuration points at the public API endpoint.
    fn default() -> (r: KalturaClientConfig)
        ensures
            r.service_url matches Some(u) && u@ == "https://www.kaltura.com/api_v3"@,
    {
        KalturaClientConfig { service_url: Some("https://www.kaltura.com/api_v3".to_owned()) }
    }
}

/// The expiry instant a token carries: the clock reading plus the normalized
/// lifetime, clamped to the representable range.
pub open spec fn epoch_at(now: u64, expiry: int) -> nat {
    let t = now + normalize_expiry(expiry);
    if t < 0 {
        0
    } else if t > u64::MAX {
        u64::MAX as nat
    } else {
        t as nat
    }
}

/// Computes the expiry instant for a clock reading `now` and a requested
/// lifetime `duration` (0 standing for the default lifetime).
pub fn session_duration(now: u64, duration: i32) -> (r: u64)
    ensures
        r as nat == epoch_at(now, duration as int),
{
    let d: i64 = if duration == 0 {
        86400
    } else {
        duration as i64
    };
    let t: i128 = now as i128 + d as i128;
    if t < 0 {
        0
    } else if t > u64::MAX as i128 {
        u64::MAX
    } else {
        t as u64
    }
}

/// The semicolon-joined v1 payload:
/// `pid;pid;epoch;0;epoch.0000;user;privileges;;`.
pub open spec fn v1_payload(pid: int, epoch: nat, uid: Seq<u8>, privs: Seq<u8>) -> Seq<u8> {
    dec_int(pid) + seq![59u8] + dec_int(pid) + seq![59u8] + dec_of(epoch) + seq![
        59u8,
        48u8,
        59u8,
    ] + dec_of(epoch) + seq![46u8, 48u8, 48u8, 48u8, 48u8, 59u8] + uid + seq![59u8] + privs + seq![
        59u8,
        59u8,
    ]
}

/// The complete v1 token: the lowercase-hex digest of `secret || payload`
/// prepended to the payload, the whole base64url-encoded without padding.
pub open spec fn v1_token(
    secret: Seq<u8>,
    pid: int,
    epoch: nat,
    uid: Seq<u8>,
    privs: Seq<u8>,
) -> Seq<char> {
    let payload = v1_payload(pid, epoch, uid, privs);
    b64url_of(hex_of(crypto::sha1_of(secret + payload)) + payload)
}

/// Generates the v1 token for the clock reading `now` and stores it in `ks`.
/// Every other field is left as it was.
pub fn generate_session_at(session: &mut KalturaSession, now: u64)
    ensures
        final(session).ks@ == v1_token(
            encode_utf8(old(session).secret@),
            old(session).partner_id as int,
            epoch_at(now, old(session).expiry as int),
            encode_utf8(old(session).user_id@),
            encode_utf8(old(session).privileges@),
        ),
        final(session).secret@ == old(session).secret@,
        final(session).user_id@ == old(session).user_id@,
        final(session).partner_id == old(session).partner_id,
        final(session).expiry == old(session).expiry,
        final(session).privileges@ == old(session).privileges@,
        final(session).session_type == old(session).session_type,
{
    let epoch = session_duration(now, session.expiry);
    let mut payload: Vec<u8> = Vec::new();
    let mut pid1 = i64_to_dec(session.partner_id as i64);
    payload.append(&mut pid1);
    payload.push(59);
    let mut pid2 = i64_to_dec(session.partner_id as i64);
    payload.append(&mut pid2);
    payload.push(59);
    let mut ep1 = u64_to_dec(epoch);
    payload.append(&mut ep1);
    payload.push(59);
    payload.push(48);
    payload.push(59);
    let mut ep2 = u64_to_dec(epoch);
    payload.append(&mut ep2);
    payload.push(46);
    payload.push(48);
    payload.push(48);
    payload.push(48);
    payload.push(48);
    payload.push(59);
    let mut uid = session.user_id.as_str().as_bytes_vec();
    payload.append(&mut uid);
    payload.push(59);
    let mut privs = session.privileges.as_str().as_bytes_vec();
    payload.append(&mut privs);
    payload.push(59);
    payload.push(59);
    proof {
        assert(payload@ =~= v1_payload(
            session.partner_id as int,
            epoch as nat,
            encode_utf8(session.user_id@),
            encode_utf8(session.privileges@),
        ));
    }
    let mut signed = session.secret.as_str().as_bytes_vec();
    let mut payload_copy = payload.clone();
    signed.append(&mut payload_copy);
    let digest = crypto::sha1(&signed);
    let mut token_bytes = to_hex(&digest);
    token_bytes.append(&mut payload);
    session.ks = b64url_encode(&token_bytes);
}

/// Generates the v1 token from the current wall clock and stores it in `ks`.
/// The token is the v1 token of the session's attributes for some clock
/// reading; every other field is left as it was.
pub fn generate_session(session: &mut KalturaSession)
    ensures
        exists|now: u64|
            final(session).ks@ == v1_token(
                encode_utf8(old(session).secret@),
                old(session).partner_id as int,
                epoch_at(now, old(session).expiry as int),
                encode_utf8(old(session).user_id@),
                encode_utf8(old(session).privileges@),
            ),
        final(session).secret@ == old(session).secret@,
        final(session).user_id@ == old(session).user_id@,
        final(session).partner_id == old(session).partner_id,
        final(session).expiry == old(session).expiry,
        final(session).privileges@ == old(session).privileges@,
        final(session).session_type == old(session).session_type,
{
    let now = unix_now_seconds();
    generate_session_at(session, now);
    proof {
        assert(exists|t: u64|
            final(session).ks@ == v1_token(
                encode_utf8(old(session).secret@),
                old(session).partner_id as int,
                epoch_at(t, old(session).expiry as int),
                encode_utf8(old(session).user_id@),
                encode_utf8(old(session).privileges@),
            )) by {
            assert(final(session).ks@ == v1_token(
                encode_utf8(old(session).secret@),
                old(session).partner_id as int,
                epoch_at(now, old(session).expiry as int),
                encode_utf8(old(session).user_id@),
                encode_utf8(old(session).privileges@),
            ));
        }
    }
}

/// The privilege directives as v2 fields: each directive UTF-8 encoded, and
/// one whose key collides with a reserved key (`_e`, `_u`, `_t`) dropped, so
/// that the reserved fields take precedence.
pub open spec fn priv_fields(privs: Seq<(Seq<char>, Seq<char>)>) -> Seq<(Seq<u8>, Seq<u8>)>
    decreases privs.len(),
{
    if privs.len() == 0 {
        Seq::empty()
    } else {
        let rest = priv_fields(privs.drop_last());
        let d = privs.last();
        if reserved_key(d.0) {
            rest
        } else {
            rest + seq![(encode_utf8(d.0), encode_utf8(d.1))]
        }
    }
}

/// The ordered v2 field set: `_e` (duration), `_u` (user), `_t` (`0`), then
/// the privilege directives in order.
pub open spec fn v2_fields(expiry: int, uid: Seq<u8>, privs: Seq<(Seq<char>, Seq<char>)>) -> Seq<
    (Seq<u8>, Seq<u8>),
> {
    seq![
        (seq![95u8, 101u8], dec_int(normalize_expiry(expiry))),
        (seq![95u8, 117u8], uid),
        (seq![95u8, 116u8], seq![48u8]),
    ] + priv_fields(privs)
}

/// The plaintext the v2 cipher sees, before padding: the reversed digest of
/// `nonce || fields`, then the nonce, then the serialized fields.
pub open spec fn v2_plain(nonce: Seq<u8>, ser: Seq<u8>) -> Seq<u8> {
    crypto::sha1_of(nonce + ser).reverse() + nonce + ser
}

/// The v2 envelope prefix: `v2|{partner_id}|`.
pub open spec fn v2_prefix(pid: int) -> Seq<u8> {
    seq![118u8, 50u8, 124u8] + dec_int(pid) + seq![124u8]
}

/// The v2 envelope before base64url encoding: the prefix, then the
/// AES-128-CBC encryption (key: first 16 digest bytes of the secret; fixed
/// IV; zero padding) of the v2 plaintext.
pub open spec fn v2_token_bytes(
    secret: Seq<u8>,
    pid: int,
    expiry: int,
    uid: Seq<u8>,
    privs: Seq<(Seq<char>, Seq<char>)>,
    nonce: Seq<u8>,
) -> Seq<u8> {
    let ser = qs_serialize(v2_fields(expiry, uid, privs));
    v2_prefix(pid) + crypto::aes_cbc_of(
        crypto::sha1_of(secret).take(16),
        crypto::iv_seq(),
        crypto::zero_pad(v2_plain(nonce, ser)),
    )
}

/// The complete v2 token: the envelope, base64url-encoded without padding.
pub open spec fn v2_token(
    secret: Seq<u8>,
    pid: int,
    expiry: int,
    uid: Seq<u8>,
    privs: Seq<(Seq<char>, Seq<char>)>,
    nonce: Seq<u8>,
) -> Seq<char> {
    b64url_of(v2_token_bytes(secret, pid, expiry, uid, privs, nonce))
}

/// Whether a directive key is one of the reserved v2 field keys.
fn is_reserved_key(k: &String) -> (r: bool)
    ensures
        r == reserved_key(k@),
{
    let ks = k.as_str();
    let n = ks.unicode_len();
    if n == 2 && ks.get_char(0) == '_' {
        let c = ks.get_char(1);
        let r = c == 'e' || c == 'u' || c == 't';
        proof {
            if r {
                assert(k@ =~= seq!['_', c]);
            } else {
                assert(k@ == seq!['_', 'e'] ==> k@[1] == 'e');
                assert(k@ == seq!['_', 'u'] ==> k@[1] == 'u');
                assert(k@ == seq!['_', 't'] ==> k@[1] == 't');
            }
        }
        r
    } else {
        proof {
            assert(k@ == seq!['_', 'e'] ==> k@.len() == 2 && k@[0] == '_');
            assert(k@ == seq!['_', 'u'] ==> k@.len() == 2 && k@[0] == '_');
            assert(k@ == seq!['_', 't'] ==> k@.len() == 2 && k@[0] == '_');
        }
        false
    }
}

/// Generates the v2 token from the given 16-byte nonce and stores it in
/// `ks`. Every other field is left as it was.
pub fn generate_session_v2_with(session: &mut KalturaSession, nonce: &Vec<u8>)
    requires
        nonce@.len() == 16,
    ensures
        final(session).ks@ == v2_token(
            encode_utf8(old(session).secret@),
            old(session).partner_id as int,
            old(session).expiry as int,
            encode_utf8(old(session).user_id@),
            parse_privileges(old(session).privileges@),
            nonce@,
        ),
        final(session).secret@ == old(session).secret@,
        final(session).user_id@ == old(session).user_id@,
        final(session).partner_id == old(session).partner_id,
        final(session).expiry == old(session).expiry,
        final(session).privileges@ == old(session).privileges@,
        final(session).session_type == old(session).session_type,
{
    let ghost privs_spec = parse_privileges(session.privileges@);
    let d: i64 = if session.expiry == 0 {
        86400
    } else {
        session.expiry as i64
    };
    let duration = i64_to_dec(d);

    let mut fields: Vec<(Vec<u8>, Vec<u8>)> = Vec::new();
    let mut key_e: Vec<u8> = Vec::new();
    key_e.push(95);
    key_e.push(101);
    fields.push((key_e, duration));
    let mut key_u: Vec<u8> = Vec::new();
    key_u.push(95);
    key_u.push(117);
    fields.push((key_u, session.user_id.as_str().as_bytes_vec()));
    let mut key_t: Vec<u8> = Vec::new();
    key_t.push(95);
    key_t.push(116);
    let mut val_t: Vec<u8> = Vec::new();
    val_t.push(48);
    fields.push((key_t, val_t));

    let directives = generate_privileges(session);
    proof {
        assert(encoding::pairs_view(fields@) =~~= v2_fields(
            session.expiry as int,
            encode_utf8(session.user_id@),
            privs_spec,
        ).take(3));
    }
    let mut i: usize = 0;
    while i < directives.len()
        invariant
            i <= directives@.len(),
            privileges::directive_views(directives@) == privs_spec,
            encoding::pairs_view(fields@) =~~= v2_fields(
                session.expiry as int,
                encode_utf8(session.user_id@),
                privs_spec,
            ).take(3) + priv_fields(privs_spec.take(i as int)),
        decreases directives@.len() - i,
    {
        let reserved = is_reserved_key(&directives[i].0);
        proof {
            let tk1 = privs_spec.take(i + 1 as int);
            assert(tk1.drop_last() =~= privs_spec.take(i as int));
            assert(tk1.last() == (directives@[i as int].0@, directives@[i as int].1@));
            assert(priv_fields(tk1) == (if privileges::reserved_key(tk1.last().0) {
                priv_fields(tk1.drop_last())
            } else {
                priv_fields(tk1.drop_last()) + seq![
                    (encode_utf8(tk1.last().0), encode_utf8(tk1.last().1)),
                ]
            }));
        }
        if !reserved {
            let k_bytes = directives[i].0.as_str().as_bytes_vec();
            let v_bytes = directives[i].1.as_str().as_bytes_vec();
            let ghost prev_fields = fields@;
            fields.push((k_bytes, v_bytes));
            proof {
                assert(encoding::pairs_view(fields@) =~~= encoding::pairs_view(prev_fields)
                    + seq![
                    (
                        encode_utf8(directives@[i as int].0@),
                        encode_utf8(directives@[i as int].1@),
                    ),
                ]);
            }
        }
        proof {
            assert(encoding::pairs_view(fields@) =~~= v2_fields(
                session.expiry as int,
                encode_utf8(session.user_id@),
                privs_spec,
            ).take(3) + priv_fields(privs_spec.take(i + 1 as int)));
        }
        i = i + 1;
    }
    proof {
        assert(privs_spec.take(privs_spec.len() as int) =~= privs_spec);
        assert(encoding::pairs_view(fields@) =~~= v2_fields(
            session.expiry as int,
            encode_utf8(session.user_id@),
            privs_spec,
        ));
    }
    let ser = serialize_fields(&fields);

    let mut body = nonce.clone();
    let mut ser_copy = ser.clone();
    body.append(&mut ser_copy);
    let digest = crypto::sha1(&body);
    let mut buffer = crypto::reverse_bytes(&digest);
    buffer.append(&mut body);
    proof {
        assert(buffer@ =~= v2_plain(nonce@, ser@));
    }

    let key = crypto::sha1(&session.secret.as_str().as_bytes_vec());
    let iv = crypto::aes_iv();
    let encrypted = crypto::aes_encrypt(&mut buffer, &key, &iv);

    let mut token_bytes: Vec<u8> = Vec::new();
    token_bytes.push(118);
    token_bytes.push(50);
    token_bytes.push(124);
    let mut pid = i64_to_dec(session.partner_id as i64);
    token_bytes.append(&mut pid);
    token_bytes.push(124);
    let mut enc = encrypted;
    token_bytes.append(&mut enc);
    proof {
        assert(token_bytes@ =~= v2_token_bytes(
            encode_utf8(session.secret@),
            session.partner_id as int,
            session.expiry as int,
            encode_utf8(session.user_id@),
            privs_spec,
            nonce@,
        ));
    }
    session.ks = b64url_encode(&token_bytes);
}

/// Generates the v2 token from a fresh random nonce and stores it in `ks`.
/// The token is the v2 token of the session's attributes for some 16-byte
/// nonce of printable bytes; every other field is left as it was.
pub fn generate_session_v2(session: &mut KalturaSession)
    ensures
        exists|nonce: Seq<u8>|
            #![auto]
            nonce.len() == 16 && (forall|i: int| 0 <= i < 16 ==> 65 <= #[trigger] nonce[i] <= 125) && final(session).ks@ == v2_token(
                encode_utf8(old(session).secret@),
                old(session).partner_id as int,
                old(session).expiry as int,
                encode_utf8(old(session).user_id@),
                parse_privileges(old(session).privileges@),
                nonce,
            ),
        final(session).secret@ == old(session).secret@,
        final(session).user_id@ == old(session).user_id@,
        final(session).partner_id == old(session).partner_id,
        final(session).expiry == old(session).expiry,
        final(session).privileges@ == old(session).privileges@,
        final(session).session_type == old(session).session_type,
{
    let nonce = random_nonce();
    generate_session_v2_with(session, &nonce);
    proof {
        assert(exists|n: Seq<u8>|
            #![auto]
            n.len() == 16 && (forall|i: int| 0 <= i < 16 ==> 65 <= #[trigger] n[i] <= 125) && final(session).ks@ == v2_token(
                encode_utf8(old(session).secret@),
                old(session).partner_id as int,
                old(session).expiry as int,
                encode_utf8(old(session).user_id@),
                parse_privileges(old(session).privileges@),
                n,
            )) by {
            assert(nonce@.len() == 16 && (forall|i: int| 0 <= i < 16 ==> 65 <= #[trigger] nonce@[i] <= 125)
                && final(session).ks@ == v2_token(
                encode_utf8(old(session).secret@),
                old(session).partner_id as int,
                old(session).expiry as int,
                encode_utf8(old(session).user_id@),
                parse_privileges(old(session).privileges@),
                nonce@,
            ));
        }
    }
}

/// Relies on `rand::random_range`: a uniformly drawn value inside the
/// half-open range handed to it, here the printable bytes 65 to 125.
#[verifier::external_body]
fn random_printable_byte() -> (r: u8)
    ensures
        65 <= r <= 125,
{
    rand::random_range(65u8..126u8)
}

/// Draws the 16-byte v2 nonce from the printable ASCII range.
fn random_nonce() -> (r: Vec<u8>)
    ensures
        r@.len() == 16,
        forall|i: int| 0 <= i < 16 ==> 65 <= #[trigger] r@[i] <= 125,
{
    let mut r: Vec<u8> = Vec::new();
    let mut i: usize = 0;
    while i < 16
        invariant
            i <= 16,
            r@.len() == i,
            forall|j: int| 0 <= j < i ==> 65 <= #[trigger] r@[j] <= 125,
        decreases 16 - i,
    {
        r.push(random_printable_byte());
        i = i + 1;
    }
    r
}

/// Relies on `std::time::SystemTime::now` and `duration_since`: the current
/// wall-clock time, converted to whole seconds since the Unix epoch, or 0
/// when the clock reads earlier than the epoch.
#[verifier::external_body]
fn unix_now_seconds() -> (r: u64) {
    match std::time::SystemTime::now().duration_since(std::time::UNIX_EPOCH) {
        Ok(d) => d.as_secs(),
        Err(_) => 0,
    }
}

} // verus!
