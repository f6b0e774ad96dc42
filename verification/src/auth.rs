//! API-key checks.
//!
//! Prowlarr accepts its API key two ways: an `X-Api-Key` header, or an
//! `apikey` query parameter. The header is authoritative when present;
//! only when it is absent is the query parameter consulted.
use vstd::prelude::*;

use crate::text::chars_of;
use crate::text::eq_chars;

verus! {

/// The API key a server instance is configured to require.
///
/// It has no `Debug`: the key is a secret and must never reach a log.
/// [`ApiKey::debug_text`] gives the text a debug print shows in its place.
pub struct ApiKey {
    key: String,
}

impl View for ApiKey {
    type V = Seq<char>;

    closed spec fn view(&self) -> Seq<char> {
        self.key@
    }
}

impl ApiKey {
    /// Wraps `key` as the key requests must present.
    pub fn new(key: &str) -> (r: ApiKey)
        ensures
            r@ == key@,
    {
        ApiKey { key: String::from_str(key) }
    }

    /// What a debug print of the key shows: the same redacted text for
    /// every key, so the secret never reaches a log.
    pub fn debug_text(&self) -> (r: String)
        ensures
            r@ == redacted_debug(),
    {
        String::from_str("ApiKey(\"<redacted>\")")
    }
}

/// The debug text of every [`ApiKey`].
pub open spec fn redacted_debug() -> Seq<char> {
    "ApiKey(\"<redacted>\")"@
}

/// Compares `a` and `b` for equality without leaking, via execution time,
/// where they differ: every index up to the longer length is visited, and
/// a length mismatch counts as a difference.
pub fn constant_time_eq(a: &[u8], b: &[u8]) -> (r: bool)
    ensures
        r == (a@ == b@),
{
    let mut diff: u8 = if a.len() != b.len() { 1 } else { 0 };
    let n = if a.len() > b.len() { a.len() } else { b.len() };
    let mut i: usize = 0;
    while i < n
        invariant
            0 <= i <= n,
            n == if a.len() > b.len() { a.len() } else { b.len() },
            (diff == 0) == (a.len() == b.len() && forall|j: int| 0 <= j < i ==> a@[j] == b@[j]),
        decreases n - i,
    {
        let x: u8 = if i < a.len() { a[i] } else { 0 };
        let y: u8 = if i < b.len() { b[i] } else { 0 };
        let d2 = diff | (x ^ y);
        assert((d2 == 0) == (diff == 0 && x == y)) by (bit_vector)
            requires
                d2 == diff | (x ^ y),
        ;
        diff = d2;
        i = i + 1;
    }
    if diff == 0 {
        assert(a@ =~= b@);
    }
    diff == 0
}

/// The name/value pairs `url::form_urlencoded::parse` reads from a query
/// string, in order (split on `&` and the first `=`, `+` as space,
/// percent-decoded, invalid UTF-8 replaced).
pub uninterp spec fn form_pairs(query: Seq<char>) -> Seq<(Seq<char>, Seq<char>)>;

/// `url::form_urlencoded::parse`, collected; its result is named
/// [`form_pairs`].
#[verifier::external_body]
pub(crate) fn query_pairs(query: &str) -> (r: Vec<(String, String)>)
    ensures
        r@.map_values(|p: (String, String)| (p.0@, p.1@)) == form_pairs(query@),
{
    url::form_urlencoded::parse(query.as_bytes()).map(|(k, v)| (k.into_owned(), v.into_owned())).collect()
}

/// The value of the first pair named `name`.
pub open spec fn first_value(pairs: Seq<(Seq<char>, Seq<char>)>, name: Seq<char>) -> Option<Seq<char>>
    decreases pairs.len(),
{
    if pairs.len() == 0 {
        None
    } else if pairs[0].0 == name {
        Some(pairs[0].1)
    } else {
        first_value(pairs.drop_first(), name)
    }
}

/// The first value bound to `name` in a query string, or `None` when it is
/// absent or there is no query.
pub fn first_query_value(query: Option<&str>, name: &str) -> (r: Option<String>)
    ensures
        match query {
            None => r is None,
            Some(q) => match first_value(form_pairs(q@), name@) {
                Some(v) => r matches Some(x) && x@ == v,
                None => r is None,
            },
        },
{
    let q = match query {
        None => {
            return None;
        },
        Some(q) => q,
    };
    let pairs = query_pairs(q);
    let ghost pv = pairs@.map_values(|p: (String, String)| (p.0@, p.1@));
    let want = chars_of(name);
    let mut i: usize = 0;
    assert(pv.skip(0) =~= pv);
    while i < pairs.len()
        invariant
            0 <= i <= pairs.len(),
            pv == pairs@.map_values(|p: (String, String)| (p.0@, p.1@)),
            pv == form_pairs(q@),
            query == Some(q),
            want@ == name@,
            first_value(pv, name@) == first_value(pv.skip(i as int), name@),
        decreases pairs.len() - i,
    {
        assert(pv.skip(i as int).drop_first() =~= pv.skip(i + 1));
        assert(pv.skip(i as int)[0] == (pairs@[i as int].0@, pairs@[i as int].1@));
        let k = chars_of(pairs[i].0.as_str());
        if eq_chars(&k, &want) {
            let v = String::from_str(pairs[i].1.as_str());
            assert(pv.skip(i as int)[0].0 == name@);
            return Some(v);
        }
        i = i + 1;
    }
    None
}

/// The key a request presents: the header when there is one, else the
/// first `apikey` query parameter.
pub open spec fn presented(header: Option<Seq<char>>, query: Option<Seq<char>>) -> Option<Seq<char>> {
    match header {
        Some(h) => Some(h),
        None => match query {
            Some(q) => first_value(form_pairs(q), "apikey"@),
            None => None,
        },
    }
}

pub open spec fn opt_view(o: Option<&str>) -> Option<Seq<char>> {
    match o {
        Some(s) => Some(s@),
        None => None,
    }
}

/// Whether a request with this `X-Api-Key` header and query string
/// presents the configured key. The header is authoritative when present.
pub fn is_authorized(key: &ApiKey, header: Option<&str>, query: Option<&str>) -> (r: bool)
    ensures
        r == (presented(opt_view(header), opt_view(query)) == Some(key@)),
{
    broadcast use vstd::utf8::encode_utf8_decode_utf8;

    let provided: Option<String> = match header {
        Some(h) => Some(String::from_str(h)),
        None => first_query_value(query, "apikey"),
    };
    match provided {
        None => false,
        Some(c) => {
            let r = constant_time_eq(c.as_str().as_bytes(), key.key.as_str().as_bytes());
            proof {
                if r {
                    assert(vstd::utf8::decode_utf8(vstd::utf8::encode_utf8(c@)) == c@);
                    assert(vstd::utf8::decode_utf8(vstd::utf8::encode_utf8(key@)) == key@);
                }
            }
            r
        },
    }
}

/// A key in the header decides alone: the query is not consulted.
pub proof fn law_header_is_authoritative(h: Seq<char>, q1: Option<Seq<char>>, q2: Option<Seq<char>>)
    ensures
        presented(Some(h), q1) == presented(Some(h), q2),
        presented(Some(h), q1) == Some(h),
{
}

} // verus!
