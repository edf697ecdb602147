//! The JSON boundary: reading an HTTP transport's configuration object and
//! parsing delivered event-stream payloads. A JSON value itself is opaque;
//! what each reader extracts from it is given a name, a function of the
//! value and key alone, and every decision over what was read is made by
//! verified code against those names.

use crate::errors::McpError;
use crate::http_transport::{build_http_config, HttpTransportConfig};
use vstd::prelude::*;

verus! {

#[verifier::external_type_specification]
#[verifier::external_body]
pub struct ExValue(serde_json::Value);

/// Whether `serde_json` parses this text as a JSON document; the outcome is
/// a function of the text alone.
pub uninterp spec fn is_json(s: Seq<char>) -> bool;

/// Relies on `serde_json::from_str::<Value>`: parsing succeeds or fails on
/// the text alone, deterministically.
#[verifier::external_body]
fn json_parse(s: &str) -> (r: Option<serde_json::Value>)
    ensures
        r is Some <==> is_json(s@),
{
    serde_json::from_str::<serde_json::Value>(s).ok()
}

/// The text under `key` when the value is an object whose entry there is a
/// JSON string; a function of the value and key alone.
pub uninterp spec fn json_str_field(v: serde_json::Value, key: Seq<char>) -> Option<Seq<char>>;

/// Relies on `serde_json::Value::get` and `Value::as_str`: the text under
/// `key`, or nothing when the entry is absent or not a string.
#[verifier::external_body]
fn json_get_str(v: &serde_json::Value, key: &str) -> (r: Option<String>)
    ensures
        (match r {
            Some(s) => json_str_field(*v, key@) == Some(s@),
            None => json_str_field(*v, key@) is None,
        }),
{
    v.get(key).and_then(|x| x.as_str()).map(|s| s.to_owned())
}

/// The number under `key` when the value is an object whose entry there is a
/// JSON unsigned integer; a function of the value and key alone.
pub uninterp spec fn json_u64_field(v: serde_json::Value, key: Seq<char>) -> Option<u64>;

/// Relies on `serde_json::Value::get` and `Value::as_u64`: the number under
/// `key`, or nothing when the entry is absent or not an unsigned integer.
#[verifier::external_body]
fn json_get_u64(v: &serde_json::Value, key: &str) -> (r: Option<u64>)
    ensures
        r == json_u64_field(*v, key@),
{
    v.get(key).and_then(|x| x.as_u64())
}

/// The string-valued entries of the object under `key`, in the object's
/// (deterministic) order; empty when the entry is absent or not an object.
/// A function of the value and key alone.
pub uninterp spec fn json_string_entries(v: serde_json::Value, key: Seq<char>) -> Seq<
    (Seq<char>, Seq<char>),
>;

/// Relies on `serde_json::Value::get`, `Value::as_str` and `Value::as_object`
/// with its map iteration (ordered, deterministic): the string-valued
/// entries of the object under `key`, in order; non-string entries are not
/// string-valued and so are not among them.
#[verifier::external_body]
fn json_get_string_entries(v: &serde_json::Value, key: &str) -> (r: Vec<(String, String)>)
    ensures
        r@.map_values(|p: (String, String)| (p.0@, p.1@)) == json_string_entries(*v, key@),
{
    match v.get(key).and_then(|h| h.as_object()) {
        Some(m) => m
            .iter()
            .filter_map(|(k, val)| val.as_str().map(|s| (k.clone(), s.to_owned())))
            .collect(),
        None => Vec::new(),
    }
}

/// Read an HTTP transport's configuration object: the URL is required, the
/// timeout and retry budget fall back to their defaults, and the headers are
/// the object's string-valued entries in order. A missing or non-string URL
/// is a configuration error.
pub fn parse_http_config(v: &serde_json::Value) -> (r: Result<HttpTransportConfig, McpError>)
    ensures
        (r is Ok) == (json_str_field(*v, "url"@) is Some),
        (match r {
            Ok(c) => {
                &&& json_str_field(*v, "url"@) matches Some(u) && c.url@ == u
                &&& c.timeout == (match json_u64_field(*v, "timeout"@) {
                    Some(t) => t,
                    None => 30u64,
                })
                &&& c.retries == (match json_u64_field(*v, "retries"@) {
                    Some(x) => x as u32,
                    None => 3u32,
                })
                &&& c.headers@.map_values(|p: (String, String)| (p.0@, p.1@))
                    == json_string_entries(*v, "headers"@)
                &&& c.session_id is None
            },
            Err(e) => e is MissingUrl,
        }),
{
    let url = json_get_str(v, "url");
    let timeout = json_get_u64(v, "timeout");
    let retries = json_get_u64(v, "retries");
    let headers = json_get_string_entries(v, "headers");
    build_http_config(url, timeout, retries, headers)
}

/// The payloads that are JSON documents, in order; the others are dropped.
pub open spec fn json_payloads(ps: Seq<Seq<char>>) -> Seq<Seq<char>>
    decreases ps.len(),
{
    if ps.len() == 0 {
        Seq::empty()
    } else {
        json_payloads(ps.drop_last()) + (if is_json(ps.last()) {
            seq![ps.last()]
        } else {
            Seq::<Seq<char>>::empty()
        })
    }
}

/// Parse each delivered payload as JSON, in order; a payload that fails to
/// parse is dropped on its own and every other one still goes through, each
/// paired with the text it was parsed from.
pub fn parse_json_messages(payloads: &Vec<String>) -> (r: Vec<(String, serde_json::Value)>)
    ensures
        r@.map_values(|p: (String, serde_json::Value)| p.0@) == json_payloads(
            payloads@.map_values(|p: String| p@),
        ),
{
    let ghost views = payloads@.map_values(|p: String| p@);
    let mut r: Vec<(String, serde_json::Value)> = Vec::new();
    let n = payloads.len();
    let mut i: usize = 0;
    proof {
        assert(views.subrange(0, 0) =~= Seq::<Seq<char>>::empty());
        assert(r@.map_values(|p: (String, serde_json::Value)| p.0@) =~= Seq::<Seq<char>>::empty());
    }
    while i < n
        invariant
            i <= n,
            n == payloads@.len(),
            views == payloads@.map_values(|p: String| p@),
            r@.map_values(|p: (String, serde_json::Value)| p.0@) == json_payloads(
                views.subrange(0, i as int),
            ),
        decreases n - i,
    {
        proof {
            assert(views.subrange(0, i + 1).drop_last() =~= views.subrange(0, i as int));
            assert(views.subrange(0, i + 1).last() == views[i as int]);
        }
        let ghost before = r@.map_values(|p: (String, serde_json::Value)| p.0@);
        match json_parse(payloads[i].as_str()) {
            Some(value) => {
                r.push((payloads[i].clone(), value));
                proof {
                    assert(r@.map_values(|p: (String, serde_json::Value)| p.0@) =~= before
                        + seq![views[i as int]]);
                }
            },
            None => {
                proof {
                    assert(before + Seq::<Seq<char>>::empty() =~= before);
                }
            },
        }
        i += 1;
    }
    proof {
        assert(views.subrange(0, n as int) =~= views);
    }
    r
}

} // verus!
