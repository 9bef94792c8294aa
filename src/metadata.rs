use vstd::prelude::*;
use crate::json::{
    after_literal, expect_literal, json_string, lemma_after_literal, lemma_decimal_digits,
    lemma_read_decimal, lemma_read_json_string, read_string, read_string_at, read_u64, read_u64_at,
};
use vstd::utf8::{decode_utf8, valid_utf8};
use crate::text::{chars_of, decimal, decode_utf8_text, push_decimal, push_str};

verus! {

#[verifier::external_type_specification]
#[verifier::external_body]
pub struct ExJsonError(serde_json::Error);

/// The sidecar record stored beside each object.
pub struct Metadata {
    pub version: u8,
    /// Seconds since the Unix epoch.
    pub created_at: u64,
    /// Seconds since the Unix epoch; informational only.
    pub expires_at: Option<u64>,
    pub author: String,
    pub content_type: String,
}

/// The fields of a metadata record, over plain values.
pub struct MetadataView {
    pub version: u8,
    pub created_at: u64,
    pub expires_at: Option<u64>,
    pub author: Seq<char>,
    pub content_type: Seq<char>,
}

/// Why a metadata record could not be read.
#[derive(Clone, Copy, Debug, PartialEq, Eq, Structural)]
pub enum MetadataError {
    NotUtf8,
    Malformed,
}

/// The current format version of the sidecar record.
pub const METADATA_VERSION: u8 = 1;

/// Relies on `std::time::SystemTime::now` and `duration_since(UNIX_EPOCH)`:
/// whole seconds since the epoch, or `None` when the clock reads earlier.
#[verifier::external_body]
fn seconds_since_epoch() -> (r: Option<u64>)
{
    match std::time::SystemTime::now().duration_since(std::time::UNIX_EPOCH) {
        Ok(d) => Some(d.as_secs()),
        Err(_) => None,
    }
}

/// Relies on `serde_json::to_string` applied to a `str`, which writes it as a
/// quoted literal with the escapes of `json_escape_char`. It cannot fail: a
/// `str` serializes without error and the output is written into a `Vec`.
#[verifier::external_body]
fn json_string_literal(s: &str) -> (r: Result<String, serde_json::Error>)
    ensures
        r is Ok,
        r matches Ok(j) ==> j@ == json_string(s@),
{
    serde_json::to_string(s)
}

impl Metadata {
    /// The canonical JSON text of the record:
    /// `{"version":..,"created_at":..,"expires_at":..|null,"author":"..","content_type":".."}`.
    pub open spec fn json(&self) -> Seq<char> {
        "{\"version\":"@ + decimal(self.version as nat) + ",\"created_at\":"@ + decimal(
            self.created_at as nat,
        ) + ",\"expires_at\":"@ + match self.expires_at {
            Some(e) => decimal(e as nat),
            None => "null"@,
        } + ",\"author\":"@ + json_string(self.author@) + ",\"content_type\":"@ + json_string(
            self.content_type@,
        ) + "}"@
    }

    /// The record of an object created at `now` (seconds since the epoch);
    /// with a time to live, it expires `ttl` seconds later (at `u64::MAX` if
    /// that sum does not fit).
    pub fn created_at_time(author: &str, content_type: &str, ttl: Option<u64>, now: u64) -> (r:
        Metadata)
        ensures
            r.version == METADATA_VERSION,
            r.created_at == now,
            r.expires_at == match ttl {
                Some(t) => Some(
                    if now + t <= u64::MAX {
                        (now + t) as u64
                    } else {
                        u64::MAX
                    },
                ),
                None => None::<u64>,
            },
            r.author@ == author@,
            r.content_type@ == content_type@,
    {
        let expires_at = match ttl {
            Some(t) => Some(now.saturating_add(t)),
            None => None,
        };
        Metadata {
            version: METADATA_VERSION,
            created_at: now,
            expires_at,
            author: author.to_owned(),
            content_type: content_type.to_owned(),
        }
    }

    /// The record of an object created now, by the system clock; `None` when
    /// the clock reads earlier than the Unix epoch.
    pub fn new(author: &str, content_type: &str, ttl: Option<u64>) -> (r: Option<Metadata>)
        ensures
            r matches Some(m) ==> {
                &&& m.version == METADATA_VERSION
                &&& m.author@ == author@
                &&& m.content_type@ == content_type@
                &&& match ttl {
                    Some(t) => m.expires_at == Some(
                        if m.created_at + t <= u64::MAX {
                            (m.created_at + t) as u64
                        } else {
                            u64::MAX
                        },
                    ),
                    None => m.expires_at is None,
                }
            },
    {
        match seconds_since_epoch() {
            Some(now) => Some(Metadata::created_at_time(author, content_type, ttl, now)),
            None => None,
        }
    }

    /// Writes the record as its canonical JSON text; this always succeeds.
    pub fn to_string(&self) -> (r: String)
        ensures
            r@ == self.json(),
    {
        let author = match json_string_literal(self.author.as_str()) {
            Ok(j) => j,
            Err(_) => String::new(),
        };
        let content_type = match json_string_literal(self.content_type.as_str()) {
            Ok(j) => j,
            Err(_) => String::new(),
        };
        let mut s = String::new();
        push_str(&mut s, "{\"version\":");
        push_decimal(&mut s, self.version as u64);
        push_str(&mut s, ",\"created_at\":");
        push_decimal(&mut s, self.created_at);
        push_str(&mut s, ",\"expires_at\":");
        match self.expires_at {
            Some(e) => push_decimal(&mut s, e),
            None => push_str(&mut s, "null"),
        }
        push_str(&mut s, ",\"author\":");
        push_str(&mut s, author.as_str());
        push_str(&mut s, ",\"content_type\":");
        push_str(&mut s, content_type.as_str());
        push_str(&mut s, "}");
        s
    }
}

/// `null`, or a number, at the start of `s`.
pub open spec fn read_expiry(s: Seq<char>) -> Option<(Option<u64>, Seq<char>)> {
    match after_literal(s, "null"@) {
        Some(r) => Some((None, r)),
        None => match read_u64(s) {
            Some((v, r)) => Some((Some(v), r)),
            None => None,
        },
    }
}

/// The numeric fields at the start of a record's text, and the text after.
pub open spec fn parse_numbers(s: Seq<char>) -> Option<(u8, u64, Option<u64>, Seq<char>)> {
    match after_literal(s, "{\"version\":"@) {
        None => None,
        Some(s1) => match read_u64(s1) {
            None => None,
            Some((version, s2)) => if version > 255 {
                None
            } else {
                match after_literal(s2, ",\"created_at\":"@) {
                    None => None,
                    Some(s3) => match read_u64(s3) {
                        None => None,
                        Some((created_at, s4)) => match after_literal(s4, ",\"expires_at\":"@) {
                            None => None,
                            Some(s5) => match read_expiry(s5) {
                                None => None,
                                Some((expires_at, s6)) => Some(
                                    (version as u8, created_at, expires_at, s6),
                                ),
                            },
                        },
                    },
                }
            },
        },
    }
}

/// The string fields that end a record's text, and its closing brace.
pub open spec fn parse_strings(s: Seq<char>) -> Option<(Seq<char>, Seq<char>)> {
    match after_literal(s, ",\"author\":"@) {
        None => None,
        Some(s1) => match read_string(s1) {
            None => None,
            Some((author, s2)) => match after_literal(s2, ",\"content_type\":"@) {
                None => None,
                Some(s3) => match read_string(s3) {
                    None => None,
                    Some((content_type, s4)) => if s4 == "}"@ {
                        Some((author, content_type))
                    } else {
                        None
                    },
                },
            },
        },
    }
}

/// Reads the canonical JSON text of a metadata record: the five fields in
/// their order, without spaces; the strings may use JSON's escapes.
pub open spec fn parse_metadata(s: Seq<char>) -> Option<MetadataView> {
    match parse_numbers(s) {
        None => None,
        Some((version, created_at, expires_at, rest)) => match parse_strings(rest) {
            None => None,
            Some((author, content_type)) => Some(
                MetadataView { version, created_at, expires_at, author, content_type },
            ),
        },
    }
}

fn read_numbers(cs: &Vec<char>) -> (r: Option<(u8, u64, Option<u64>, usize)>)
    ensures
        match parse_numbers(cs@) {
            Some((v, c, e, rest)) => r matches Some((v2, c2, e2, j)) && v2 == v && c2 == c && e2
                == e && j <= cs@.len() && cs@.skip(j as int) == rest,
            None => r is None,
        },
{
    assert(cs@.skip(0) == cs@);
    let i = match expect_literal(cs, 0, "{\"version\":") {
        Some(i) => i,
        None => return None,
    };
    let (version, i) = match read_u64_at(cs, i) {
        Some(p) => p,
        None => return None,
    };
    if version > 255 {
        return None;
    }
    let i = match expect_literal(cs, i, ",\"created_at\":") {
        Some(i) => i,
        None => return None,
    };
    let (created_at, i) = match read_u64_at(cs, i) {
        Some(p) => p,
        None => return None,
    };
    let i = match expect_literal(cs, i, ",\"expires_at\":") {
        Some(i) => i,
        None => return None,
    };
    let (expires_at, i) = match expect_literal(cs, i, "null") {
        Some(j) => (None, j),
        None => match read_u64_at(cs, i) {
            Some((v, j)) => (Some(v), j),
            None => return None,
        },
    };
    Some((version as u8, created_at, expires_at, i))
}

fn read_strings(cs: &Vec<char>, i: usize) -> (r: Option<(String, String)>)
    requires
        i <= cs@.len(),
    ensures
        match parse_strings(cs@.skip(i as int)) {
            Some((a, c)) => r matches Some((a2, c2)) && a2@ == a && c2@ == c,
            None => r is None,
        },
{
    let i = match expect_literal(cs, i, ",\"author\":") {
        Some(i) => i,
        None => return None,
    };
    let (author, i) = match read_string_at(cs, i) {
        Some(p) => p,
        None => return None,
    };
    let i = match expect_literal(cs, i, ",\"content_type\":") {
        Some(i) => i,
        None => return None,
    };
    let (content_type, i) = match read_string_at(cs, i) {
        Some(p) => p,
        None => return None,
    };
    proof {
        reveal_strlit("}");
    }
    if cs.len() - i != 1 || cs[i] != '}' {
        assert(cs@.skip(i as int) != "}"@) by {
            reveal_strlit("}");
            assert("}"@.len() == 1 && "}"@[0] == '}');
            if cs@.len() - i == 1 {
                assert(cs@.skip(i as int)[0] == cs@[i as int]);
            } else {
                assert(cs@.skip(i as int).len() != 1);
            }
        }
        return None;
    }
    assert(cs@.skip(i as int) =~= "}"@);
    Some((author, content_type))
}

impl Metadata {
    pub open spec fn view(&self) -> MetadataView {
        MetadataView {
            version: self.version,
            created_at: self.created_at,
            expires_at: self.expires_at,
            author: self.author@,
            content_type: self.content_type@,
        }
    }

    /// Reads a record from its canonical JSON text.
    pub fn from_str(s: &str) -> (r: Result<Metadata, MetadataError>)
        ensures
            match parse_metadata(s@) {
                Some(v) => r matches Ok(m) && m.view() == v,
                None => r == Err::<Metadata, MetadataError>(MetadataError::Malformed),
            },
    {
        let cs = chars_of(s);
        let (version, created_at, expires_at, i) = match read_numbers(&cs) {
            Some(p) => p,
            None => return Err(MetadataError::Malformed),
        };
        let (author, content_type) = match read_strings(&cs, i) {
            Some(p) => p,
            None => return Err(MetadataError::Malformed),
        };
        Ok(Metadata { version, created_at, expires_at, author, content_type })
    }

    /// Reads a record from the bytes of its canonical JSON text.
    pub fn from_slice(b: &[u8]) -> (r: Result<Metadata, MetadataError>)
        ensures
            !valid_utf8(b@) ==> r == Err::<Metadata, MetadataError>(MetadataError::NotUtf8),
            valid_utf8(b@) ==> match parse_metadata(decode_utf8(b@)) {
                Some(v) => r matches Ok(m) && m.view() == v,
                None => r == Err::<Metadata, MetadataError>(MetadataError::Malformed),
            },
    {
        match decode_utf8_text(vstd::slice::slice_to_vec(b)) {
            Some(text) => Metadata::from_str(text.as_str()),
            None => Err(MetadataError::NotUtf8),
        }
    }
}

/// The part of a record's text that holds its numbers.
spec fn numbers_text(m: Metadata) -> Seq<char> {
    "{\"version\":"@ + decimal(m.version as nat) + ",\"created_at\":"@ + decimal(
        m.created_at as nat,
    ) + ",\"expires_at\":"@ + match m.expires_at {
        Some(e) => decimal(e as nat),
        None => "null"@,
    }
}

/// The part of a record's text that holds its strings.
spec fn strings_text(m: Metadata) -> Seq<char> {
    ",\"author\":"@ + json_string(m.author@) + ",\"content_type\":"@ + json_string(
        m.content_type@,
    ) + "}"@
}

proof fn lemma_json_parts(m: Metadata)
    ensures
        m.json() == numbers_text(m) + strings_text(m),
        strings_text(m).len() > 0 && strings_text(m)[0] == ',',
{
    reveal_strlit(",\"author\":");
    assert(m.json() =~= numbers_text(m) + strings_text(m));
    assert(strings_text(m)[0] == ",\"author\":"@[0]);
}

proof fn lemma_read_numbers(m: Metadata, rest: Seq<char>)
    requires
        rest.len() > 0 && rest[0] == ',',
    ensures
        parse_numbers(numbers_text(m) + rest) == Some(
            (m.version, m.created_at, m.expires_at, rest),
        ),
{
    let l1 = "{\"version\":"@;
    let l2 = ",\"created_at\":"@;
    let l3 = ",\"expires_at\":"@;
    reveal_strlit(",\"created_at\":");
    reveal_strlit(",\"expires_at\":");
    reveal_strlit("null");
    let e = match m.expires_at {
        Some(x) => decimal(x as nat),
        None => "null"@,
    };
    let t5 = e + rest;
    let t4 = l3 + t5;
    let t3 = decimal(m.created_at as nat) + t4;
    let t2 = l2 + t3;
    let t1 = decimal(m.version as nat) + t2;
    assert(numbers_text(m) + rest =~= l1 + t1);
    lemma_after_literal(l1, t1);
    lemma_read_decimal(m.version as u64, t2);
    lemma_after_literal(l2, t3);
    lemma_read_decimal(m.created_at, t4);
    lemma_after_literal(l3, t5);
    match m.expires_at {
        Some(x) => {
            lemma_decimal_digits(x as nat);
            assert(t5[0] == decimal(x as nat)[0]);
            assert(after_literal(t5, "null"@) is None) by {
                assert("null"@.len() == 4 && "null"@[0] == 'n');
                if 4 <= t5.len() {
                    assert(t5.take(4)[0] == t5[0]);
                }
            }
            lemma_read_decimal(x, rest);
        },
        None => {
            lemma_after_literal("null"@, rest);
        },
    }
}

proof fn lemma_read_strings(m: Metadata)
    ensures
        parse_strings(strings_text(m)) == Some((m.author@, m.content_type@)),
{
    let l4 = ",\"author\":"@;
    let l5 = ",\"content_type\":"@;
    let l6 = "}"@;
    let t9 = json_string(m.content_type@) + l6;
    let t8 = l5 + t9;
    let t7 = json_string(m.author@) + t8;
    assert(strings_text(m) =~= l4 + t7);
    lemma_after_literal(l4, t7);
    lemma_read_json_string(m.author@, t8);
    lemma_after_literal(l5, t9);
    lemma_read_json_string(m.content_type@, l6);
}

/// Writing a record as JSON and reading the text back gives the same record.
pub proof fn lemma_metadata_round_trip(m: Metadata)
    ensures
        parse_metadata(m.json()) == Some(m.view()),
{
    lemma_json_parts(m);
    lemma_read_numbers(m, strings_text(m));
    lemma_read_strings(m);
}

} // verus!
