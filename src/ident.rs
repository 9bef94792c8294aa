use vstd::prelude::*;
use vstd::bytes::{spec_u64_to_le_bytes, u64_to_le_bytes};

verus! {

/// The 64-bit FxHash of a byte string, as `FxHasher::default()` computes it
/// after one `write` of the bytes.
pub uninterp spec fn fx_hash_of(b: Seq<u8>) -> u64;

/// Relies on `rustc_hash::FxHasher` (`write`, then `finish`): an unseeded hash,
/// so its value depends on the bytes alone (for a given target word size).
#[verifier::external_body]
fn fx_hash(data: &[u8]) -> (r: u64)
    ensures
        r == fx_hash_of(data@),
{
    let mut hasher = rustc_hash::FxHasher::default();
    std::hash::Hasher::write(&mut hasher, data);
    std::hash::Hasher::finish(&hasher)
}

/// The URL-safe base64 digit for a six-bit value.
pub open spec fn b64_digit(v: int) -> char {
    if v < 26 {
        ((65 + v) as u8) as char
    } else if v < 52 {
        ((97 + v - 26) as u8) as char
    } else if v < 62 {
        ((48 + v - 52) as u8) as char
    } else if v == 62 {
        '-'
    } else {
        '_'
    }
}

/// URL-safe base64 without padding (RFC 4648, section 5): each group of three
/// bytes gives four digits, a final group of two gives three, of one gives two.
pub open spec fn base64_url(b: Seq<u8>) -> Seq<char>
    decreases b.len(),
{
    if b.len() == 0 {
        seq![]
    } else if b.len() == 1 {
        seq![b64_digit((b[0] as int) / 4), b64_digit(((b[0] as int) % 4) * 16)]
    } else if b.len() == 2 {
        seq![
            b64_digit((b[0] as int) / 4),
            b64_digit(((b[0] as int) % 4) * 16 + (b[1] as int) / 16),
            b64_digit(((b[1] as int) % 16) * 4),
        ]
    } else {
        seq![
            b64_digit((b[0] as int) / 4),
            b64_digit(((b[0] as int) % 4) * 16 + (b[1] as int) / 16),
            b64_digit(((b[1] as int) % 16) * 4 + (b[2] as int) / 64),
            b64_digit((b[2] as int) % 64),
        ] + base64_url(b.subrange(3, b.len() as int))
    }
}

/// Relies on `base64`'s `URL_SAFE_NO_PAD` engine (`Engine::encode`), which
/// encodes by the URL-safe alphabet and leaves out the `=` padding.
#[verifier::external_body]
fn encode_url_safe(b: &[u8]) -> (r: String)
    requires
        b@.len() <= 1024,
    ensures
        r@ == base64_url(b@),
{
    base64::Engine::encode(&base64::engine::general_purpose::URL_SAFE_NO_PAD, b)
}

/// The identifier of an object: the URL-safe base64 encoding, without
/// padding, of the little-endian bytes of the FxHash of its contents.
pub open spec fn id_of(data: Seq<u8>) -> Seq<char> {
    base64_url(spec_u64_to_le_bytes(fx_hash_of(data)))
}

/// A character of the identifier alphabet: `A-Z a-z 0-9 - _`.
pub open spec fn is_id_char(c: char) -> bool {
    ('A' <= c && c <= 'Z') || ('a' <= c && c <= 'z') || ('0' <= c && c <= '9') || c == '-' || c
        == '_'
}

/// Computes the identifier under which `data` is stored.
pub fn object_id(data: &[u8]) -> (r: String)
    ensures
        r@ == id_of(data@),
{
    let hash = fx_hash(data);
    let bytes = u64_to_le_bytes(hash);
    encode_url_safe(bytes.as_slice())
}

proof fn lemma_digit_in_alphabet(v: int)
    requires
        0 <= v < 64,
    ensures
        is_id_char(b64_digit(v)),
{
}

/// Every character of a URL-safe base64 encoding is in the identifier
/// alphabet, and the encoding of `n` bytes has `ceil(4n/3)` characters (so no
/// `=` padding).
pub proof fn lemma_base64_url_alphabet(b: Seq<u8>)
    ensures
        forall|i: int| 0 <= i < base64_url(b).len() ==> is_id_char(#[trigger] base64_url(b)[i]),
        base64_url(b).len() == (4 * b.len() + 2) / 3,
    decreases b.len(),
{
    if b.len() == 0 {
    } else if b.len() == 1 {
        lemma_digit_in_alphabet((b[0] as int) / 4);
        lemma_digit_in_alphabet(((b[0] as int) % 4) * 16);
    } else if b.len() == 2 {
        lemma_digit_in_alphabet((b[0] as int) / 4);
        lemma_digit_in_alphabet(((b[0] as int) % 4) * 16 + (b[1] as int) / 16);
        lemma_digit_in_alphabet(((b[1] as int) % 16) * 4);
    } else {
        let rest = b.subrange(3, b.len() as int);
        lemma_base64_url_alphabet(rest);
        lemma_digit_in_alphabet((b[0] as int) / 4);
        lemma_digit_in_alphabet(((b[0] as int) % 4) * 16 + (b[1] as int) / 16);
        lemma_digit_in_alphabet(((b[1] as int) % 16) * 4 + (b[2] as int) / 64);
        lemma_digit_in_alphabet((b[2] as int) % 64);
        let head = seq![
            b64_digit((b[0] as int) / 4),
            b64_digit(((b[0] as int) % 4) * 16 + (b[1] as int) / 16),
            b64_digit(((b[1] as int) % 16) * 4 + (b[2] as int) / 64),
            b64_digit((b[2] as int) % 64),
        ];
        assert forall|i: int| 0 <= i < base64_url(b).len() implies is_id_char(
            #[trigger] base64_url(b)[i],
        ) by {
            if i >= 4 {
                assert(base64_url(b)[i] == base64_url(rest)[i - 4]);
            } else {
                assert(base64_url(b)[i] == head[i]);
            }
        }
    }
}

/// Every identifier has eleven characters, all of the alphabet
/// `A-Z a-z 0-9 - _`; in particular it holds no `=` padding.
pub proof fn lemma_id_alphabet(data: Seq<u8>)
    ensures
        id_of(data).len() == 11,
        forall|i: int| 0 <= i < id_of(data).len() ==> is_id_char(#[trigger] id_of(data)[i]),
        !id_of(data).contains('='),
{
    vstd::bytes::lemma_auto_spec_u64_to_from_le_bytes();
    let b = spec_u64_to_le_bytes(fx_hash_of(data));
    lemma_base64_url_alphabet(b);
    if id_of(data).contains('=') {
        let i = choose|i: int| 0 <= i < id_of(data).len() && id_of(data)[i] == '=';
        assert(is_id_char(id_of(data)[i]));
    }
}

/// Two uploads of byte-identical contents get the same identifier.
pub proof fn lemma_id_deterministic(a: Seq<u8>, b: Seq<u8>)
    requires
        a == b,
    ensures
        id_of(a) == id_of(b),
{
}

} // verus!
