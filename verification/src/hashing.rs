//! Content fingerprints: SHA-256 digests rendered as lowercase hexadecimal.
use vstd::prelude::*;

use vstd::string::StringSliceAdditionalSpecFns;
use sha2::Digest;

verus! {

/// The SHA-256 digest of a byte sequence.
pub uninterp spec fn spec_sha256(data: Seq<u8>) -> Seq<u8>;

/// Calls `sha2::Sha256::digest`. The digest is a function of the bytes alone, 32 bytes long
/// (`Sha256`'s output size is `U32`).
#[verifier::external_body]
pub(crate) fn sha256_digest(data: &[u8]) -> (res: Vec<u8>)
    ensures
        res@ == spec_sha256(data@),
        res@.len() == 32,
{
    sha2::Sha256::digest(data).to_vec()
}

pub open spec fn hex_digit(v: u8) -> char {
    if v < 10 {
        (('0' as u8) + v) as char
    } else {
        (('a' as u8) + v - 10) as char
    }
}

/// Lowercase hexadecimal rendering, two digits per byte.
pub open spec fn spec_hex(bytes: Seq<u8>) -> Seq<char>
    decreases bytes.len(),
{
    if bytes.len() == 0 {
        Seq::empty()
    } else {
        spec_hex(bytes.drop_last()) + seq![hex_digit(bytes.last() / 16), hex_digit(bytes.last() % 16)]
    }
}

fn hex_char(v: u8) -> (res: char)
    requires
        v < 16,
    ensures
        res == hex_digit(v),
{
    if v < 10 {
        ((48u8) + v) as char
    } else {
        ((97u8) + v - 10) as char
    }
}

/// Renders bytes as lowercase hexadecimal.
pub fn to_hex(bytes: &[u8]) -> (res: Vec<char>)
    ensures
        res@ == spec_hex(bytes@),
        res@.len() == 2 * bytes@.len(),
{
    let mut out: Vec<char> = Vec::new();
    let mut i: usize = 0;
    while i < bytes.len()
        invariant
            i <= bytes@.len(),
            out@ == spec_hex(bytes@.subrange(0, i as int)),
            out@.len() == 2 * i,
        decreases bytes.len() - i,
    {
        let b = bytes[i];
        out.push(hex_char(b / 16));
        out.push(hex_char(b % 16));
        proof {
            let pre = bytes@.subrange(0, i + 1);
            assert(pre.drop_last() =~= bytes@.subrange(0, i as int));
            assert(pre.last() == b);
        }
        i = i + 1;
    }
    assert(bytes@.subrange(0, bytes@.len() as int) =~= bytes@);
    out
}

/// The bytes hashed for a list of parts: each part's UTF-8 bytes followed by a zero byte.
pub open spec fn nul_joined(parts: Seq<Seq<char>>) -> Seq<u8>
    decreases parts.len(),
{
    if parts.len() == 0 {
        Seq::empty()
    } else {
        nul_joined(parts.drop_last()) + vstd::utf8::encode_utf8(parts.last()) + seq![0u8]
    }
}

/// Fingerprint of a list of parts.
pub open spec fn spec_stable_hash(parts: Seq<Seq<char>>) -> Seq<char> {
    spec_hex(spec_sha256(nul_joined(parts)))
}

/// Hashes the parts, each terminated by a zero byte, and renders the digest in hexadecimal.
pub fn stable_hash(parts: &Vec<String>) -> (res: String)
    ensures
        res@ == spec_stable_hash(parts@.map_values(|p: String| p@)),
        res@.len() == 64,
{
    let ghost views = parts@.map_values(|p: String| p@);
    let mut bytes: Vec<u8> = Vec::new();
    let mut i: usize = 0;
    while i < parts.len()
        invariant
            i <= parts@.len(),
            views == parts@.map_values(|p: String| p@),
            bytes@ == nul_joined(views.subrange(0, i as int)),
        decreases parts.len() - i,
    {
        let part_str = parts[i].as_str();
        let part_bytes = part_str.as_bytes();
        let mut j: usize = 0;
        let ghost before = bytes@;
        while j < part_bytes.len()
            invariant
                j <= part_bytes@.len(),
                bytes@ == before + part_bytes@.subrange(0, j as int),
            decreases part_bytes.len() - j,
        {
            bytes.push(part_bytes[j]);
            assert(part_bytes@.subrange(0, j + 1) =~= part_bytes@.subrange(0, j as int).push(part_bytes@[j as int]));
            j = j + 1;
        }
        bytes.push(0u8);
        proof {
            assert(part_bytes@.subrange(0, part_bytes@.len() as int) =~= part_bytes@);
            let pre = views.subrange(0, i + 1);
            assert(pre.drop_last() =~= views.subrange(0, i as int));
            assert(pre.last() == parts@[i as int]@);
            assert(part_bytes@ == vstd::utf8::encode_utf8(part_str@));
            assert(bytes@ =~= nul_joined(pre));
        }
        i = i + 1;
    }
    assert(views.subrange(0, parts@.len() as int) =~= views);
    let digest = sha256_digest(bytes.as_slice());
    let hex = to_hex(digest.as_slice());
    crate::text::string_of(&hex)
}


// ---------------------------------------------------------------------------
// Fresh identifiers
// ---------------------------------------------------------------------------

/// Calls `std::time::SystemTime::now` and returns the nanoseconds since the Unix epoch (0
/// before it); the clock is read, so nothing is stated of the value.
#[verifier::external_body]
fn unix_nanos() -> u128 {
    std::time::SystemTime::now().duration_since(std::time::UNIX_EPOCH).unwrap_or_default().as_nanos()
}

fn decimal_u128(n: u128) -> (res: Vec<char>)
    ensures
        res@ == crate::text::spec_decimal(n as nat),
    decreases n,
{
    let digit = ((48 + n % 10) as u8) as char;
    if n < 10 {
        vec![digit]
    } else {
        let mut out = decimal_u128(n / 10);
        out.push(digit);
        out
    }
}

/// The identifier made at instant `nanos`: the prefix, a colon, and the first 12 bytes in
/// hexadecimal of the SHA-256 digest of `prefix\0value\0nanos`.
pub open spec fn spec_id_at(prefix: Seq<char>, value: Seq<char>, nanos: nat) -> Seq<char> {
    let text = prefix + seq!['\0'] + value + seq!['\0'] + crate::text::spec_decimal(nanos);
    prefix + seq![':'] + spec_hex(spec_sha256(vstd::utf8::encode_utf8(text)).subrange(0, 12))
}

/// The identifier made for `value` at instant `nanos`.
pub fn id_at(prefix: &str, value: &str, nanos: u128) -> (res: String)
    ensures
        res@ == spec_id_at(prefix@, value@, nanos as nat),
{
    let mut text = crate::text::chars_of(prefix);
    text.push('\0');
    crate::text::append_chars(&mut text, &crate::text::chars_of(value));
    text.push('\0');
    crate::text::append_chars(&mut text, &decimal_u128(nanos));
    let joined = crate::text::string_of(&text);
    let digest = sha256_digest(joined.as_str().as_bytes());
    let mut head: Vec<u8> = Vec::new();
    let mut i: usize = 0;
    while i < 12
        invariant
            i <= 12,
            digest@.len() == 32,
            head@ == digest@.subrange(0, i as int),
        decreases 12 - i,
    {
        head.push(digest[i]);
        assert(digest@.subrange(0, i + 1) =~= digest@.subrange(0, i as int).push(digest@[i as int]));
        i = i + 1;
    }
    let mut out = crate::text::chars_of(prefix);
    out.push(':');
    crate::text::append_chars(&mut out, &to_hex(head.as_slice()));
    proof {
        assert(joined@ =~= prefix@ + seq!['\0'] + value@ + seq!['\0'] + crate::text::spec_decimal(nanos as nat));
        assert(out@ =~= prefix@ + seq![':'] + spec_hex(spec_sha256(vstd::utf8::encode_utf8(joined@)).subrange(0, 12)));
    }
    crate::text::string_of(&out)
}

/// A fresh identifier for `value`: the identifier made at the current instant.
pub fn new_id(prefix: &str, value: &str) -> (res: String)
    ensures
        exists|nanos: nat| res@ == #[trigger] spec_id_at(prefix@, value@, nanos),
{
    let nanos = unix_nanos();
    let id = id_at(prefix, value, nanos);
    assert(id@ == spec_id_at(prefix@, value@, nanos as nat));
    id
}

} // verus!
