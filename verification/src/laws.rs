//! Laws of the token formats, stated and proved over the same spec
//! functions the generators' contracts use.
use vstd::prelude::*;

use crate::crypto::{sha1_of, zero_pad};
use crate::encoding::{
    dec_int, dec_of, escape_byte, hex_digit_upper, hex_val, is_unescaped_byte, parse_pair,
    pct_decode, qs_pair, qs_parse, qs_serialize, split_amp, split_eq, urlencode,
};
use crate::models::session::normalize_expiry;
use crate::privileges::parse_privileges;
use crate::{epoch_at, v1_token, v2_fields, v2_plain, v2_prefix, v2_token_bytes};

verus! {

/// For one secret, partner id, expiry instant, user id and privilege
/// string, v1 generation is deterministic: equal attributes give the
/// identical token, however often it is generated.
pub proof fn lemma_v1_deterministic(
    secret1: Seq<u8>,
    secret2: Seq<u8>,
    pid1: int,
    pid2: int,
    epoch1: nat,
    epoch2: nat,
    uid1: Seq<u8>,
    uid2: Seq<u8>,
    privs1: Seq<u8>,
    privs2: Seq<u8>,
)
    requires
        secret1 == secret2,
        pid1 == pid2,
        epoch1 == epoch2,
        uid1 == uid2,
        privs1 == privs2,
    ensures
        v1_token(secret1, pid1, epoch1, uid1, privs1) == v1_token(
            secret2,
            pid2,
            epoch2,
            uid2,
            privs2,
        ),
{
}

/// A requested lifetime of exactly 0 is normalized to 86400 before use:
/// the v1 expiry instant of a 0 lifetime is that of an 86400-second one,
/// and the v2 duration field of a 0 lifetime reads 86400.
pub proof fn lemma_zero_expiry_normalized(
    now: u64,
    uid: Seq<u8>,
    privs: Seq<(Seq<char>, Seq<char>)>,
)
    ensures
        epoch_at(now, 0) == epoch_at(now, 86400),
        v2_fields(0, uid, privs)[0].1 == dec_of(86400),
{
    assert(normalize_expiry(0) == 86400);
    assert(v2_fields(0, uid, privs)[0] == (seq![95u8, 101u8], dec_int(normalize_expiry(0))));
}

/// A v2 envelope always begins with the literal prefix `v2|{partner_id}|`
/// in the bytes that are base64url-encoded into the token.
pub proof fn lemma_v2_envelope_prefix(
    secret: Seq<u8>,
    pid: int,
    expiry: int,
    uid: Seq<u8>,
    privs: Seq<(Seq<char>, Seq<char>)>,
    nonce: Seq<u8>,
)
    ensures
        ({
            let t = v2_token_bytes(secret, pid, expiry, uid, privs, nonce);
            let p = v2_prefix(pid);
            t.len() >= p.len() && t.take(p.len() as int) == p
        }),
{
    let t = v2_token_bytes(secret, pid, expiry, uid, privs, nonce);
    let p = v2_prefix(pid);
    assert(t.take(p.len() as int) =~= p);
}

/// Stripping a decrypted v2 body: the padded plaintext begins with the
/// plaintext itself (zero padding only appends), and once the leading
/// 20-byte reversed digest and the 16-byte nonce are stripped, the bytes up
/// to the padding are exactly the serialized field set.
pub proof fn lemma_v2_plain_recovers(nonce: Seq<u8>, ser: Seq<u8>)
    requires
        nonce.len() == 16,
        sha1_of(nonce + ser).len() == 20,
    ensures
        ({
            let plain = v2_plain(nonce, ser);
            let padded = zero_pad(plain);
            padded.take(plain.len() as int) == plain && plain.len() == 36 + ser.len()
                && padded.subrange(36, 36 + ser.len() as int) == ser
        }),
{
    let plain = v2_plain(nonce, ser);
    let padded = zero_pad(plain);
    assert(padded.take(plain.len() as int) =~= plain);
    assert(padded.subrange(36, 36 + ser.len() as int) =~= ser);
}

/// A decrypted v2 body, once the leading 20-byte reversed digest, the
/// 16-byte nonce and the trailing zero padding are stripped, parses as a
/// query string back to exactly the v2 field set (which carries `_e`, `_u`
/// and `_t` first).
pub proof fn lemma_v2_round_trip(
    expiry: int,
    uid: Seq<u8>,
    privs: Seq<(Seq<char>, Seq<char>)>,
    nonce: Seq<u8>,
)
    requires
        nonce.len() == 16,
        sha1_of(nonce + qs_serialize(v2_fields(expiry, uid, privs))).len() == 20,
    ensures
        ({
            let fs = v2_fields(expiry, uid, privs);
            let ser = qs_serialize(fs);
            let padded = zero_pad(v2_plain(nonce, ser));
            qs_parse(padded.subrange(36, 36 + ser.len() as int)) =~~= fs
        }),
{
    let fs = v2_fields(expiry, uid, privs);
    let ser = qs_serialize(fs);
    lemma_v2_plain_recovers(nonce, ser);
    lemma_qs_round_trip(fs);
}

/// The v2 field set always carries the reserved fields first: `_e` with the
/// normalized duration, `_u` with the user id, and `_t` with `0`, whatever
/// the privilege directives are.
pub proof fn lemma_v2_fields_reserved(
    expiry: int,
    uid: Seq<u8>,
    privs: Seq<(Seq<char>, Seq<char>)>,
)
    ensures
        v2_fields(expiry, uid, privs).len() >= 3,
        v2_fields(expiry, uid, privs)[0] == (
            seq![95u8, 101u8],
            dec_int(normalize_expiry(expiry)),
        ),
        v2_fields(expiry, uid, privs)[1] == (seq![95u8, 117u8], uid),
        v2_fields(expiry, uid, privs)[2] == (seq![95u8, 116u8], seq![48u8]),
{
}

proof fn lemma_urlencode_append(x: Seq<u8>, y: Seq<u8>)
    ensures
        urlencode(x + y) == urlencode(x) + urlencode(y),
    decreases y.len(),
{
    if y.len() == 0 {
        assert(x + y =~= x);
        assert(urlencode(x) + urlencode(y) =~= urlencode(x));
    } else {
        assert((x + y).drop_last() =~= x + y.drop_last());
        lemma_urlencode_append(x, y.drop_last());
        assert((x + y).last() == y.last());
        assert(urlencode(x + y) =~= urlencode(x) + urlencode(y));
    }
}

proof fn lemma_pct_decode_enc(b: Seq<u8>, rest: Seq<u8>)
    ensures
        pct_decode(urlencode(b) + rest) == b + pct_decode(rest),
    decreases b.len(),
{
    if b.len() == 0 {
        assert(urlencode(b) + rest =~= rest);
        assert(b + pct_decode(rest) =~= pct_decode(rest));
    } else {
        let b0 = b[0];
        let tail = b.drop_first();
        assert(b =~= seq![b0] + tail);
        lemma_urlencode_append(seq![b0], tail);
        assert(seq![b0].drop_last() =~= Seq::<u8>::empty());
        assert(urlencode(Seq::<u8>::empty()) =~= Seq::<u8>::empty());
        assert(seq![b0].last() == b0);
        assert(urlencode(seq![b0]) == urlencode(seq![b0].drop_last()) + escape_byte(b0));
        assert(urlencode(seq![b0]) =~= escape_byte(b0));
        let s = urlencode(b) + rest;
        assert(s =~= escape_byte(b0) + (urlencode(tail) + rest));
        lemma_pct_decode_enc(tail, rest);
        if is_unescaped_byte(b0) {
            assert(s[0] == b0 && b0 != 37);
            assert(s.skip(1) =~= urlencode(tail) + rest);
            assert(pct_decode(s) =~= b + pct_decode(rest));
        } else {
            assert(s[0] == 37 && s.len() >= 3);
            assert(s[1] == hex_digit_upper(b0 / 16) && s[2] == hex_digit_upper(b0 % 16));
            assert(hex_val(hex_digit_upper(b0 / 16)) == b0 / 16);
            assert(hex_val(hex_digit_upper(b0 % 16)) == b0 % 16);
            assert(s.skip(3) =~= urlencode(tail) + rest);
            assert(pct_decode(s) =~= b + pct_decode(rest));
        }
    }
}

/// Percent-escaping is lossless: decoding the escaped bytes recovers the
/// original value exactly, so every key and value parses back out of a
/// serialized v2 field set unchanged.
pub proof fn lemma_urlencode_round_trip(b: Seq<u8>)
    ensures
        pct_decode(urlencode(b)) == b,
{
    lemma_pct_decode_enc(b, Seq::empty());
    assert(urlencode(b) + Seq::<u8>::empty() =~= urlencode(b));
    assert(b + pct_decode(Seq::<u8>::empty()) =~= b);
}

/// An escaped key or value never contains the separators `&` and `=`: the
/// separators of a serialized v2 field set are exactly the literal ones the
/// serializer puts between fields, so the field boundaries are unambiguous.
pub proof fn lemma_urlencode_no_separators(b: Seq<u8>, i: int)
    requires
        0 <= i < urlencode(b).len(),
    ensures
        urlencode(b)[i] != 38,
        urlencode(b)[i] != 61,
    decreases b.len(),
{
    if b.len() > 0 {
        let prev = urlencode(b.drop_last());
        if i < prev.len() {
            lemma_urlencode_no_separators(b.drop_last(), i);
        }
    }
}

proof fn lemma_split_eq_at(s: Seq<u8>, k: int)
    requires
        0 <= k < s.len(),
        s[k] == 61,
        forall|j: int| 0 <= j < k ==> s[j] != 61,
    ensures
        split_eq(s) == (s.take(k), s.skip(k + 1)),
    decreases k,
{
    if k == 0 {
        assert(s.drop_first() =~= s.skip(1));
        assert(s.take(0) =~= Seq::<u8>::empty());
    } else {
        assert(s[0] != 61);
        lemma_split_eq_at(s.drop_first(), k - 1);
        assert(seq![s[0]] + s.drop_first().take(k - 1) =~= s.take(k));
        assert(s.drop_first().skip(k - 1 + 1) =~= s.skip(k + 1));
    }
}

/// One serialized `key=value` pair parses back to exactly the key and value
/// it came from: the first `=` ends the escaped key, and decoding undoes
/// the escaping.
pub proof fn lemma_qs_pair_round_trip(kv: (Seq<u8>, Seq<u8>))
    ensures
        parse_pair(qs_pair(kv)) == kv,
{
    let k = urlencode(kv.0);
    let v = urlencode(kv.1);
    let p = qs_pair(kv);
    assert(p =~= k + seq![61u8] + v);
    assert(p[k.len() as int] == 61);
    assert forall|j: int| 0 <= j < k.len() implies p[j] != 61 by {
        assert(p[j] == k[j]);
        lemma_urlencode_no_separators(kv.0, j);
    }
    lemma_split_eq_at(p, k.len() as int);
    assert(p.take(k.len() as int) =~= k);
    assert(p.skip(k.len() as int + 1) =~= v);
    lemma_urlencode_round_trip(kv.0);
    lemma_urlencode_round_trip(kv.1);
}

proof fn lemma_split_amp_len(s: Seq<u8>)
    ensures
        split_amp(s).len() >= 1,
    decreases s.len(),
{
    if s.len() > 0 {
        lemma_split_amp_len(s.drop_last());
    }
}

proof fn lemma_split_amp_append(x: Seq<u8>, y: Seq<u8>)
    ensures
        split_amp(x + seq![38u8] + y) =~~= split_amp(x) + split_amp(y),
    decreases y.len(),
{
    let z = x + seq![38u8] + y;
    if y.len() == 0 {
        assert(z =~= x + seq![38u8]);
        assert(z.last() == 38);
        assert(z.drop_last() =~= x);
        assert(split_amp(z) =~~= split_amp(x) + split_amp(y));
    } else {
        assert(z.last() == y.last());
        assert(z.drop_last() =~= x + seq![38u8] + y.drop_last());
        lemma_split_amp_append(x, y.drop_last());
        lemma_split_amp_len(y.drop_last());
        lemma_split_amp_len(x);
        if y.last() == 38 {
            assert(split_amp(z) =~~= split_amp(x) + split_amp(y));
        } else {
            let prev_z = split_amp(z.drop_last());
            let prev_y = split_amp(y.drop_last());
            assert(prev_z == split_amp(x) + prev_y);
            assert(prev_z.last() == prev_y.last());
            assert(split_amp(z) == prev_z.update(
                prev_z.len() - 1,
                prev_z.last().push(y.last()),
            ));
            assert(split_amp(y) == prev_y.update(prev_y.len() - 1, prev_y.last().push(y.last())));
            assert(split_amp(z) =~~= split_amp(x) + split_amp(y));
        }
    }
}

proof fn lemma_split_amp_whole(s: Seq<u8>)
    requires
        forall|i: int| 0 <= i < s.len() ==> s[i] != 38,
    ensures
        split_amp(s) =~~= seq![s],
    decreases s.len(),
{
    if s.len() > 0 {
        lemma_split_amp_whole(s.drop_last());
        assert(s.last() != 38);
        assert(s.drop_last().push(s.last()) =~= s);
        assert(split_amp(s) =~~= seq![s]);
    }
}

proof fn lemma_qs_pair_no_amp(kv: (Seq<u8>, Seq<u8>), i: int)
    requires
        0 <= i < qs_pair(kv).len(),
    ensures
        qs_pair(kv)[i] != 38,
{
    let k = urlencode(kv.0);
    let v = urlencode(kv.1);
    assert(qs_pair(kv) =~= k + seq![61u8] + v);
    if i < k.len() {
        assert(qs_pair(kv)[i] == k[i]);
        lemma_urlencode_no_separators(kv.0, i);
    } else if i > k.len() {
        assert(qs_pair(kv)[i] == v[i - k.len() - 1]);
        lemma_urlencode_no_separators(kv.1, i - k.len() - 1);
    }
}

proof fn lemma_qs_serialize_nonempty(fields: Seq<(Seq<u8>, Seq<u8>)>)
    requires
        fields.len() >= 1,
    ensures
        qs_serialize(fields).len() >= 1,
{
    if fields.len() == 1 {
        assert(qs_serialize(fields) == qs_pair(fields[0]));
        assert(qs_pair(fields[0]) =~= urlencode(fields[0].0) + seq![61u8] + urlencode(
            fields[0].1,
        ));
    }
}

/// A serialized field set parses back to exactly the fields it came from:
/// splitting on `&`, splitting each chunk at its first `=`, and
/// percent-decoding both sides recovers every key and value, in order. So
/// the buffer a v2 decryption recovers parses as a valid query string whose
/// fields are exactly the v2 field set.
pub proof fn lemma_qs_round_trip(fields: Seq<(Seq<u8>, Seq<u8>)>)
    ensures
        qs_parse(qs_serialize(fields)) =~~= fields,
    decreases fields.len(),
{
    if fields.len() == 0 {
    } else if fields.len() == 1 {
        let p = qs_pair(fields[0]);
        assert(qs_serialize(fields) == p);
        assert(p =~= urlencode(fields[0].0) + seq![61u8] + urlencode(fields[0].1));
        assert forall|i: int| 0 <= i < p.len() implies p[i] != 38 by {
            lemma_qs_pair_no_amp(fields[0], i);
        }
        lemma_split_amp_whole(p);
        lemma_qs_pair_round_trip(fields[0]);
        assert(qs_parse(p) =~~= fields);
    } else {
        let rest = fields.drop_last();
        let serp = qs_serialize(rest);
        let lastp = qs_pair(fields.last());
        assert(qs_serialize(fields) == serp + seq![38u8] + lastp);
        lemma_qs_round_trip(rest);
        lemma_qs_serialize_nonempty(rest);
        lemma_split_amp_append(serp, lastp);
        assert forall|i: int| 0 <= i < lastp.len() implies lastp[i] != 38 by {
            lemma_qs_pair_no_amp(fields.last(), i);
        }
        lemma_split_amp_whole(lastp);
        lemma_qs_pair_round_trip(fields.last());
        assert(lastp =~= urlencode(fields.last().0) + seq![61u8] + urlencode(fields.last().1));
        assert(split_amp(qs_serialize(fields)) =~~= split_amp(serp) + seq![lastp]);
        let a = split_amp(serp);
        let parsed = qs_parse(qs_serialize(fields));
        assert(qs_serialize(fields).len() > 0);
        assert(serp.len() > 0);
        assert(parsed.len() == a.len() + 1);
        assert(qs_parse(serp).len() == a.len());
        assert forall|i: int| 0 <= i < parsed.len() implies parsed[i] == fields[i] by {
            if i < a.len() {
                assert(split_amp(qs_serialize(fields))[i] == a[i]);
                assert(parsed[i] == parse_pair(a[i]));
                assert(qs_parse(serp)[i] == parse_pair(a[i]));
                assert(qs_parse(serp)[i] == rest[i]);
            } else {
                assert(split_amp(qs_serialize(fields))[i] == lastp);
                assert(parsed[i] == parse_pair(lastp));
            }
        }
        assert(parsed =~= fields);
    }
}

/// An empty privilege string yields zero directives, and the v2 field set
/// is then exactly `_e`, `_u`, `_t`.
pub proof fn lemma_empty_privileges(expiry: int, uid: Seq<u8>)
    ensures
        parse_privileges(Seq::<char>::empty()) == Seq::<(Seq<char>, Seq<char>)>::empty(),
        v2_fields(expiry, uid, parse_privileges(Seq::<char>::empty())) =~= seq![
            (seq![95u8, 101u8], dec_int(normalize_expiry(expiry))),
            (seq![95u8, 117u8], uid),
            (seq![95u8, 116u8], seq![48u8]),
        ],
{
}

} // verus!
