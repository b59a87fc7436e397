//! Byte-level encoders for the token wire formats: decimal rendering of
//! integers, lowercase hex, percent-escaping, query-string serialization,
//! and URL-safe base64 (through the `base64` crate).
use vstd::prelude::*;

verus! {

/// Decimal digits (most significant first) of a non-negative integer.
pub open spec fn dec_of(n: nat) -> Seq<u8>
    decreases n,
{
    if n < 10 {
        seq![(48 + n) as u8]
    } else {
        dec_of(n / 10) + seq![(48 + n % 10) as u8]
    }
}

/// Decimal rendering of a possibly negative integer: a leading `-` before
/// the digits of its magnitude.
pub open spec fn dec_int(n: int) -> Seq<u8> {
    if n < 0 {
        seq![45u8] + dec_of((-n) as nat)
    } else {
        dec_of(n as nat)
    }
}

/// Renders `n` in decimal ASCII.
pub fn u64_to_dec(n: u64) -> (r: Vec<u8>)
    ensures
        r@ == dec_of(n as nat),
    decreases n,
{
    if n < 10 {
        let mut r: Vec<u8> = Vec::new();
        r.push(48 + n as u8);
        assert(r@ =~= dec_of(n as nat));
        r
    } else {
        let mut r = u64_to_dec(n / 10);
        r.push(48 + (n % 10) as u8);
        assert(r@ =~= dec_of(n as nat));
        r
    }
}

/// Renders `n` in decimal ASCII, with a leading `-` when negative.
pub fn i64_to_dec(n: i64) -> (r: Vec<u8>)
    ensures
        r@ == dec_int(n as int),
{
    if n < 0 {
        let mag: u64 = if n == i64::MIN {
            9223372036854775808u64
        } else {
            (-n) as u64
        };
        assert(mag == -(n as int));
        let mut r: Vec<u8> = Vec::new();
        r.push(45);
        let mut digits = u64_to_dec(mag);
        r.append(&mut digits);
        assert(r@ =~= dec_int(n as int));
        r
    } else {
        u64_to_dec(n as u64)
    }
}

/// The lowercase hex digit of a value below 16.
pub open spec fn hex_digit(n: u8) -> u8 {
    if n < 10 {
        (48 + n) as u8
    } else {
        (87 + n) as u8
    }
}

/// Lowercase hex rendering of a byte string, two digits per byte.
pub open spec fn hex_of(s: Seq<u8>) -> Seq<u8>
    decreases s.len(),
{
    if s.len() == 0 {
        Seq::empty()
    } else {
        hex_of(s.drop_last()) + seq![hex_digit(s.last() / 16), hex_digit(s.last() % 16)]
    }
}

/// Renders a byte string as lowercase hex.
pub fn to_hex(data: &Vec<u8>) -> (r: Vec<u8>)
    ensures
        r@ == hex_of(data@),
{
    let mut r: Vec<u8> = Vec::new();
    let mut i: usize = 0;
    while i < data.len()
        invariant
            i <= data@.len(),
            r@ == hex_of(data@.take(i as int)),
        decreases data@.len() - i,
    {
        let b = data[i];
        let hi = b / 16;
        let lo = b % 16;
        r.push(if hi < 10 { 48 + hi } else { 87 + hi });
        r.push(if lo < 10 { 48 + lo } else { 87 + lo });
        proof {
            assert(data@.take(i + 1 as int).drop_last() =~= data@.take(i as int));
            assert(data@.take(i + 1 as int).last() == b);
        }
        i = i + 1;
    }
    proof {
        assert(data@.take(data@.len() as int) =~= data@);
    }
    r
}

/// Bytes that percent-escaping leaves as they are: ASCII alphanumerics
/// and `- . _ *`.
pub open spec fn is_unescaped_byte(b: u8) -> bool {
    (65 <= b <= 90) || (97 <= b <= 122) || (48 <= b <= 57) || b == 45 || b == 46 || b == 95
        || b == 42
}

/// Uppercase hex digit of a value below 16, for percent escapes.
pub open spec fn hex_digit_upper(n: u8) -> u8 {
    if n < 10 {
        (48 + n) as u8
    } else {
        (55 + n) as u8
    }
}

/// What one byte becomes under percent-escaping.
pub open spec fn escape_byte(b: u8) -> Seq<u8> {
    if is_unescaped_byte(b) {
        seq![b]
    } else {
        seq![37u8, hex_digit_upper(b / 16), hex_digit_upper(b % 16)]
    }
}

/// Percent-escaping of a byte string.
pub open spec fn urlencode(s: Seq<u8>) -> Seq<u8>
    decreases s.len(),
{
    if s.len() == 0 {
        Seq::empty()
    } else {
        urlencode(s.drop_last()) + escape_byte(s.last())
    }
}

/// Percent-escapes a byte string.
pub fn urlencode_bytes(data: &Vec<u8>) -> (r: Vec<u8>)
    ensures
        r@ == urlencode(data@),
{
    let mut r: Vec<u8> = Vec::new();
    let mut i: usize = 0;
    while i < data.len()
        invariant
            i <= data@.len(),
            r@ == urlencode(data@.take(i as int)),
        decreases data@.len() - i,
    {
        let b = data[i];
        let unescaped = (65 <= b && b <= 90) || (97 <= b && b <= 122) || (48 <= b && b <= 57)
            || b == 45 || b == 46 || b == 95 || b == 42;
        if unescaped {
            r.push(b);
        } else {
            let hi = b / 16;
            let lo = b % 16;
            r.push(37);
            r.push(if hi < 10 { 48 + hi } else { 55 + hi });
            r.push(if lo < 10 { 48 + lo } else { 55 + lo });
        }
        proof {
            assert(data@.take(i + 1 as int).drop_last() =~= data@.take(i as int));
            assert(data@.take(i + 1 as int).last() == b);
            assert(r@ =~= urlencode(data@.take(i + 1 as int)));
        }
        i = i + 1;
    }
    proof {
        assert(data@.take(data@.len() as int) =~= data@);
    }
    r
}

/// The numeric value of an uppercase hex digit.
pub open spec fn hex_val(d: u8) -> u8 {
    if d < 58 {
        (d - 48) as u8
    } else {
        (d - 55) as u8
    }
}

/// Percent-decoding, as a receiver applies it: `%XX` becomes the byte XX,
/// any other byte stays as it is.
pub open spec fn pct_decode(s: Seq<u8>) -> Seq<u8>
    decreases s.len(),
{
    if s.len() == 0 {
        Seq::empty()
    } else if s[0] == 37 && s.len() >= 3 {
        seq![(hex_val(s[1]) * 16 + hex_val(s[2])) as u8] + pct_decode(s.skip(3))
    } else {
        seq![s[0]] + pct_decode(s.skip(1))
    }
}

/// One `key=value` pair, both sides percent-escaped.
pub open spec fn qs_pair(kv: (Seq<u8>, Seq<u8>)) -> Seq<u8> {
    urlencode(kv.0) + seq![61u8] + urlencode(kv.1)
}

/// Query-string serialization: `key=value` pairs joined by `&`, in order.
pub open spec fn qs_serialize(fields: Seq<(Seq<u8>, Seq<u8>)>) -> Seq<u8>
    decreases fields.len(),
{
    if fields.len() == 0 {
        Seq::empty()
    } else if fields.len() == 1 {
        qs_pair(fields[0])
    } else {
        qs_serialize(fields.drop_last()) + seq![38u8] + qs_pair(fields.last())
    }
}

/// The views of a list of key/value byte vectors.
pub open spec fn pairs_view(fields: Seq<(Vec<u8>, Vec<u8>)>) -> Seq<(Seq<u8>, Seq<u8>)> {
    fields.map_values(|kv: (Vec<u8>, Vec<u8>)| (kv.0@, kv.1@))
}

/// Serializes ordered key/value fields to a query string.
pub fn serialize_fields(fields: &Vec<(Vec<u8>, Vec<u8>)>) -> (r: Vec<u8>)
    ensures
        r@ == qs_serialize(pairs_view(fields@)),
{
    let mut r: Vec<u8> = Vec::new();
    let mut i: usize = 0;
    while i < fields.len()
        invariant
            i <= fields@.len(),
            r@ == qs_serialize(pairs_view(fields@.take(i as int))),
        decreases fields@.len() - i,
    {
        if i > 0 {
            r.push(38);
        }
        let mut k_enc = urlencode_bytes(&fields[i].0);
        r.append(&mut k_enc);
        r.push(61);
        let mut v_enc = urlencode_bytes(&fields[i].1);
        r.append(&mut v_enc);
        proof {
            let fv = pairs_view(fields@.take(i + 1 as int));
            assert(fv.drop_last() =~= pairs_view(fields@.take(i as int)));
            assert(fv.last() == (fields@[i as int].0@, fields@[i as int].1@));
            assert(r@ =~= qs_serialize(fv));
        }
        i = i + 1;
    }
    proof {
        assert(fields@.take(fields@.len() as int) =~= fields@);
    }
    r
}

/// Splits a byte string at its first `=`; the key is what stands before it,
/// the value everything after it.
pub open spec fn split_eq(s: Seq<u8>) -> (Seq<u8>, Seq<u8>)
    decreases s.len(),
{
    if s.len() == 0 {
        (Seq::empty(), Seq::empty())
    } else if s[0] == 61 {
        (Seq::empty(), s.drop_first())
    } else {
        let r = split_eq(s.drop_first());
        (seq![s[0]] + r.0, r.1)
    }
}

/// Parsing one serialized `key=value` pair, as a receiver does: split at the
/// first `=`, then percent-decode both sides.
pub open spec fn parse_pair(s: Seq<u8>) -> (Seq<u8>, Seq<u8>) {
    let kv = split_eq(s);
    (pct_decode(kv.0), pct_decode(kv.1))
}

/// The `&`-separated chunks of a byte string; a trailing `&` opens a new
/// empty chunk, and the empty string has one empty chunk.
pub open spec fn split_amp(s: Seq<u8>) -> Seq<Seq<u8>>
    decreases s.len(),
{
    if s.len() == 0 {
        seq![Seq::<u8>::empty()]
    } else if s.last() == 38 {
        split_amp(s.drop_last()) + seq![Seq::<u8>::empty()]
    } else {
        let prev = split_amp(s.drop_last());
        prev.update(prev.len() - 1, prev.last().push(s.last()))
    }
}

/// Parsing a query string, as a receiver does: each `&`-separated chunk is a
/// `key=value` pair; the empty string holds no pairs.
pub open spec fn qs_parse(s: Seq<u8>) -> Seq<(Seq<u8>, Seq<u8>)> {
    if s.len() == 0 {
        Seq::empty()
    } else {
        split_amp(s).map_values(|p: Seq<u8>| parse_pair(p))
    }
}

/// What the `base64` crate's URL-safe alphabet, without padding, makes of a
/// byte string.
pub uninterp spec fn b64url_of(b: Seq<u8>) -> Seq<char>;

/// Relies on base64's `URL_SAFE_NO_PAD` engine: a deterministic encoding in
/// the URL-safe alphabet without padding; each 3 input bytes give 4 output
/// characters, and a remainder of 1 or 2 bytes gives 2 or 3 more.
#[verifier::external_body]
pub fn b64url_encode(data: &Vec<u8>) -> (r: String)
    ensures
        r@ == b64url_of(data@),
        r@.len() == 4 * (data@.len() / 3) + (
        if data@.len() % 3 == 0 {
            0int
        } else {
            data@.len() % 3 + 1int
        }),
{
    base64::Engine::encode(&base64::engine::general_purpose::URL_SAFE_NO_PAD, data)
}

} // verus!
