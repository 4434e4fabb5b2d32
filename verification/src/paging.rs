//! Request-boundary rules of the operations API: page and list limits, the
//! opaque page cursors (hex spellings of resource keys), and idempotency keys.

use vstd::prelude::*;
use vstd::string::StringSliceAdditionalSpecFns;
use vstd::utf8::*;

use crate::hex::{hex_decode, hex_decode_bytes, hex_encode, hex_name};

verus! {

/// A request the API refuses, with the message returned to the caller.
#[derive(Debug)]
pub enum RequestError {
    InvalidRequest(String),
}

/// Query of endpoints that take an optional `force` flag.
#[derive(Debug, Clone, Copy, Default)]
pub struct ForceQuery {
    pub force: Option<bool>,
}

/// Query of the bounded, refresh-safe list endpoints.
#[derive(Debug, Default)]
pub struct PageQuery {
    pub limit: Option<usize>,
    pub cursor: Option<String>,
    pub high_watermark: Option<String>,
}

pub open spec fn page_limit_spec(limit: Option<usize>) -> Option<usize> {
    let value = match limit {
        Some(v) => v,
        None => 50,
    };
    if value == 0 || value > 200 {
        None
    } else {
        Some(value)
    }
}

pub open spec fn observability_limit_spec(limit: Option<usize>) -> Option<usize> {
    let value = match limit {
        Some(v) => v,
        None => 100,
    };
    if value == 0 || value > 500 {
        None
    } else {
        Some(value)
    }
}

/// Page size of the list endpoints: 50 by default, refused outside 1..=200.
pub fn page_limit(limit: Option<usize>) -> (r: Result<usize, RequestError>)
    ensures
        r matches Ok(v) ==> page_limit_spec(limit) == Some(v),
        r matches Err(RequestError::InvalidRequest(m)) ==> page_limit_spec(limit) is None && m@
            == "limit must be between 1 and 200"@,
{
    let value = match limit {
        Some(v) => v,
        None => 50,
    };
    if value == 0 || value > 200 {
        return Err(RequestError::InvalidRequest("limit must be between 1 and 200".to_string()));
    }
    Ok(value)
}

/// Page size of the observability endpoints: 100 by default, refused
/// outside 1..=500.
pub fn observability_limit(limit: Option<usize>) -> (r: Result<usize, RequestError>)
    ensures
        r matches Ok(v) ==> observability_limit_spec(limit) == Some(v),
        r matches Err(RequestError::InvalidRequest(m)) ==> observability_limit_spec(limit) is None
            && m@ == "limit must be between 1 and 500"@,
{
    let value = match limit {
        Some(v) => v,
        None => 100,
    };
    if value == 0 || value > 500 {
        return Err(RequestError::InvalidRequest("limit must be between 1 and 500".to_string()));
    }
    Ok(value)
}

/// Number of runs a run listing shows: 50 by default, at most 500.
pub fn run_list_limit(limit: Option<usize>) -> (r: usize)
    ensures
        r == (match limit {
            Some(v) => if v < 500 {
                v
            } else {
                500
            },
            None => 50,
        }),
{
    let value = match limit {
        Some(v) => v,
        None => 50,
    };
    if value < 500 {
        value
    } else {
        500
    }
}

/// Number of lines a log request returns: 100 by default, at most 10 000.
pub fn log_tail_limit(tail: Option<usize>) -> (r: usize)
    ensures
        r == (match tail {
            Some(v) => if v < 10000 {
                v
            } else {
                10000
            },
            None => 100,
        }),
{
    let value = match tail {
        Some(v) => v,
        None => 100,
    };
    if value < 10000 {
        value
    } else {
        10000
    }
}

/// A run listing fetches one row more than it shows; the extra row only
/// tells whether the listing was cut.
pub fn truncate_listing<T>(rows: Vec<T>, limit: usize) -> (r: (Vec<T>, bool))
    ensures
        r.1 == (rows@.len() > limit),
        r.0@ == (if rows@.len() > limit {
            rows@.take(limit as int)
        } else {
            rows@
        }),
{
    let mut rows = rows;
    let truncated = rows.len() > limit;
    rows.truncate(limit);
    (rows, truncated)
}

/// Opaque cursor for a resource key: the hex spelling of its UTF-8 bytes.
pub fn encode_page_key(value: &str) -> (s: String)
    ensures
        s@ == hex_encode(value.spec_bytes()),
{
    hex_name(value)
}

/// What a cursor decodes to: `None` for a malformed cursor (odd length, a
/// pair that is not a hex byte, or bytes that are not UTF-8), else the key.
pub open spec fn decode_page_key_spec(bytes: Seq<u8>) -> Option<Seq<char>> {
    match hex_decode(bytes) {
        Some(raw) => if valid_utf8(raw) {
            Some(decode_utf8(raw))
        } else {
            None
        },
        None => None,
    }
}

/// `String::from_utf8`: the string whose UTF-8 bytes are `bytes`, or `None`
/// when they are not valid UTF-8.
#[verifier::external_body]
fn string_from_utf8(bytes: Vec<u8>) -> (r: Option<String>)
    ensures
        r is Some <==> valid_utf8(bytes@),
        r matches Some(s) ==> encode_utf8(s@) == bytes@,
{
    String::from_utf8(bytes).ok()
}

/// Decodes an optional page cursor back to the resource key.  A malformed
/// cursor is refused with "invalid page cursor".
pub fn decode_page_key(value: Option<&str>) -> (r: Result<Option<String>, RequestError>)
    requires
        value matches Some(v) ==> !crate::hex::pair_slicing_panics(v.spec_bytes()),
    ensures
        value is None ==> r matches Ok(None),
        value matches Some(v) ==> match r {
            Ok(Some(key)) => decode_page_key_spec(v.spec_bytes()) == Some(key@),
            Ok(None) => false,
            Err(RequestError::InvalidRequest(m)) => decode_page_key_spec(v.spec_bytes()) is None
                && m@ == "invalid page cursor"@,
        },
{
    let value = match value {
        None => return Ok(None),
        Some(v) => v,
    };
    match hex_decode_bytes(value.as_bytes()) {
        None => Err(RequestError::InvalidRequest("invalid page cursor".to_string())),
        Some(raw) => {
            let ghost raw_view = raw@;
            match string_from_utf8(raw) {
                Some(key) => {
                    proof {
                        decode_utf8_encode_utf8(raw_view);
                        encode_utf8_decode_utf8(key@);
                    }
                    Ok(Some(key))
                },
                None => Err(RequestError::InvalidRequest("invalid page cursor".to_string())),
            }
        },
    }
}

/// Decoding the cursor of a key gives the key back (and never panics).
pub proof fn lemma_page_key_round_trip(key: Seq<char>)
    ensures
        decode_page_key_spec(encode_utf8(hex_encode(encode_utf8(key)))) == Some(key),
        !crate::hex::pair_slicing_panics(encode_utf8(hex_encode(encode_utf8(key)))),
{
    let raw = encode_utf8(key);
    crate::hex::lemma_hex_round_trip(raw);
    crate::hex::lemma_spelling_is_ascii(raw);
    encode_utf8_valid_utf8(key);
    encode_utf8_decode_utf8(key);
}

/// `uuid::Uuid::parse_str` as a 128-bit value: which strings it accepts and
/// what they denote is fixed by the uuid crate's grammar.
pub uninterp spec fn uuid_parse(text: Seq<char>) -> Option<u128>;

/// Calls `uuid::Uuid::parse_str` and returns the parsed id as a number.
#[verifier::external_body]
pub(crate) fn parse_uuid(text: &str) -> (r: Option<u128>)
    ensures
        r == uuid_parse(text@),
{
    match uuid::Uuid::parse_str(text) {
        Ok(id) => Some(id.as_u128()),
        Err(_) => None,
    }
}

pub open spec fn operation_id_spec(header: Option<Option<u128>>, body: Option<u128>) -> Result<Option<u128>, ()> {
    match header {
        Some(None) => Err(()),
        Some(Some(h)) => match body {
            Some(b) => if h != b {
                Err(())
            } else {
                Ok(Some(h))
            },
            None => Ok(Some(h)),
        },
        None => Ok(body),
    }
}

/// The operation id of a mutating request: the `Idempotency-Key` header (a
/// UUID) or the body's `operation_id`; both given must agree.
pub fn request_operation_id(header: Option<&str>, body: Option<u128>) -> (r: Result<
    Option<u128>,
    RequestError,
>)
    ensures
        ({
            let parsed = match header {
                Some(h) => Some(uuid_parse(h@)),
                None => None,
            };
            match r {
                Ok(id) => operation_id_spec(parsed, body) == Ok::<Option<u128>, ()>(id),
                Err(RequestError::InvalidRequest(m)) => operation_id_spec(parsed, body) is Err && (
                parsed == Some(None::<u128>) ==> m@ == "Idempotency-Key must be a UUID"@) && (
                parsed != Some(None::<u128>) ==> m@ == "operation_id and Idempotency-Key must match"@),
            }
        }),
{
    let header_id = match header {
        Some(text) => match parse_uuid(text) {
            Some(id) => Some(id),
            None => {
                return Err(
                    RequestError::InvalidRequest("Idempotency-Key must be a UUID".to_string()),
                );
            },
        },
        None => None,
    };
    if let (Some(h), Some(b)) = (header_id, body) {
        if h != b {
            return Err(
                RequestError::InvalidRequest(
                    "operation_id and Idempotency-Key must match".to_string(),
                ),
            );
        }
    }
    match header_id {
        Some(h) => Ok(Some(h)),
        None => Ok(body),
    }
}

} // verus!
