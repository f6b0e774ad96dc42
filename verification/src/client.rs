//! HTTP requests and responses as plain values, and how a redirect is
//! followed. Sending them is the application's job.
use vstd::prelude::*;

use crate::filters::{from_utf8_lossy, utf8_lossy};
use crate::text::{ascii_lower_char, chars_of};
use crate::urls::{join_url, joined_url};

verus! {

/// HTTP method of an indexer request: definitions only ever issue GET or
/// POST.
#[derive(Debug, Clone, Copy, PartialEq, Eq, Structural)]
pub enum Method {
    /// HTTP GET.
    Get,
    /// HTTP POST.
    Post,
}

/// The body of a request.
#[derive(Debug, Clone, PartialEq, Eq)]
pub enum Body {
    /// An `application/x-www-form-urlencoded` form, as ordered pairs.
    Form(Vec<(String, String)>),
}

/// A request to send.
#[derive(Debug, Clone, PartialEq, Eq)]
pub struct HttpRequest {
    /// The HTTP method.
    pub method: Method,
    /// The target URL, serialized.
    pub url: String,
    /// Request headers, as ordered name/value pairs.
    pub headers: Vec<(String, String)>,
    /// The request body, if any.
    pub body: Option<Body>,
    /// Whether a redirect answering this request is followed rather than
    /// returned as it is.
    pub follow_redirects: bool,
}

/// A response received.
#[derive(Debug, Clone, PartialEq, Eq)]
pub struct HttpResponse {
    /// The HTTP status code.
    pub status: u16,
    /// Response headers, as ordered name/value pairs.
    pub headers: Vec<(String, String)>,
    /// The raw response body.
    pub body: Vec<u8>,
    /// The URL the response was finally served from, serialized.
    pub final_url: String,
}

impl HttpResponse {
    /// The body decoded as UTF-8, invalid sequences replaced.
    pub fn text(&self) -> (r: String)
        ensures
            r@ == utf8_lossy(self.body@),
    {
        from_utf8_lossy(&self.body)
    }
}

/// `s` with ASCII letters lower-cased (what `eq_ignore_ascii_case`
/// compares).
pub open spec fn ascii_folded(s: Seq<char>) -> Seq<char> {
    s.map_values(|c: char| ascii_lower_char(c))
}

fn lower_ascii(c: char) -> (r: char)
    ensures
        r == ascii_lower_char(c),
{
    if 'A' <= c && c <= 'Z' {
        ((c as u8) + 32) as char
    } else {
        c
    }
}

/// `str::eq_ignore_ascii_case`.
pub fn eq_ignore_ascii_case(a: &str, b: &str) -> (r: bool)
    ensures
        r == (ascii_folded(a@) == ascii_folded(b@)),
{
    let x = chars_of(a);
    let y = chars_of(b);
    if x.len() != y.len() {
        proof {
            assert(ascii_folded(a@).len() != ascii_folded(b@).len());
        }
        return false;
    }
    let mut i: usize = 0;
    while i < x.len()
        invariant
            0 <= i <= x.len(),
            x.len() == y.len(),
            x@ == a@,
            y@ == b@,
            forall|j: int| 0 <= j < i ==> ascii_lower_char(#[trigger] x@[j]) == ascii_lower_char(y@[j]),
        decreases x.len() - i,
    {
        if lower_ascii(x[i]) != lower_ascii(y[i]) {
            proof {
                assert(ascii_folded(a@)[i as int] != ascii_folded(b@)[i as int]);
            }
            return false;
        }
        i = i + 1;
    }
    proof {
        assert(ascii_folded(a@) =~= ascii_folded(b@));
    }
    true
}

/// The value of the first header named `location`, any ASCII case.
pub open spec fn location_of(headers: Seq<(String, String)>) -> Option<Seq<char>>
    decreases headers.len(),
{
    if headers.len() == 0 {
        None
    } else if ascii_folded(headers[0].0@) == ascii_folded("location"@) {
        Some(headers[0].1@)
    } else {
        location_of(headers.drop_first())
    }
}

/// Whether a status asks for a redirect.
pub open spec fn is_redirect(status: u16) -> bool {
    status == 301 || status == 302 || status == 303 || status == 307 || status == 308
}

/// The method the next hop uses, and whether the body is dropped: `303`
/// always becomes a body-less GET; `301`/`302` turn a POST into a
/// body-less GET; `307`/`308` keep both.
pub open spec fn hop_method(status: u16, method: Method) -> (Method, bool) {
    if status == 303 {
        (Method::Get, true)
    } else if status == 301 || status == 302 {
        match method {
            Method::Post => (Method::Get, true),
            Method::Get => (Method::Get, false),
        }
    } else {
        (method, false)
    }
}

/// The next hop of a redirect: `Location` resolved against the current
/// URL, the method and whether to drop the body; `None` when the status is
/// no redirect or there is no usable `Location`.
pub open spec fn spec_next_hop(status: u16, headers: Seq<(String, String)>, current: Seq<char>, method: Method) -> Option<
    (Seq<char>, Method, bool),
> {
    if !is_redirect(status) {
        None
    } else {
        match location_of(headers) {
            None => None,
            Some(loc) => match joined_url(current, loc) {
                Ok(next) => Some((next, hop_method(status, method).0, hop_method(status, method).1)),
                Err(_) => None,
            },
        }
    }
}

/// Decides the next hop for a redirect response (see [`spec_next_hop`]).
pub fn next_hop(status: u16, headers: &[(String, String)], current: &str, method: Method) -> (r: Option<
    (String, Method, bool),
>)
    ensures
        match spec_next_hop(status, headers@, current@, method) {
            Some((u, m, d)) => r matches Some(x) && x.0@ == u && x.1 == m && x.2 == d,
            None => r is None,
        },
{
    if !(status == 301 || status == 302 || status == 303 || status == 307 || status == 308) {
        return None;
    }
    let mut i: usize = 0;
    let mut location: Option<&str> = None;
    assert(headers@.skip(0) =~= headers@);
    while i < headers.len()
        invariant_except_break
            location is None,
        invariant
            0 <= i <= headers.len(),
            location_of(headers@) == location_of(headers@.skip(i as int)),
        ensures
            match location_of(headers@) {
                Some(l) => location matches Some(x) && x@ == l,
                None => location is None,
            },
        decreases headers.len() - i,
    {
        assert(headers@.skip(i as int).drop_first() =~= headers@.skip(i + 1));
        assert(headers@.skip(i as int)[0] == headers@[i as int]);
        if eq_ignore_ascii_case(headers[i].0.as_str(), "location") {
            location = Some(headers[i].1.as_str());
            break;
        }
        i = i + 1;
    }
    let loc = match location {
        Some(l) => l,
        None => {
            return None;
        },
    };
    let next = match join_url(current, loc) {
        Ok(u) => u,
        Err(_) => {
            return None;
        },
    };
    let (m, drop) = if status == 303 {
        (Method::Get, true)
    } else if status == 301 || status == 302 {
        match method {
            Method::Post => (Method::Get, true),
            Method::Get => (Method::Get, false),
        }
    } else {
        (method, false)
    };
    Some((next, m, drop))
}


/// How many redirects one request follows at most.
pub const MAX_REDIRECT_HOPS: u8 = 10;

/// What follows a response to a request being sent.
#[derive(Debug)]
pub enum Hop {
    /// The response is the answer; it was served from this URL.
    Done(String),
    /// Send this request next.
    Follow(HttpRequest),
    /// A redirect is still pending after the most hops allowed.
    TooManyRedirects,
}

/// The redirect a response calls for, when its request follows redirects.
pub open spec fn wanted_hop(current: HttpRequest, status: u16, headers: Seq<(String, String)>) -> Option<
    (Seq<char>, Method, bool),
> {
    if current.follow_redirects {
        spec_next_hop(status, headers, current.url@, current.method)
    } else {
        None
    }
}

/// Decides what follows the response to the `sent`th send of a request:
/// the answer when no redirect is followed; else the next hop (the same
/// headers and redirect choice, the body dropped when the hop says so);
/// or, past [`MAX_REDIRECT_HOPS`] redirects, a refusal.
pub fn after_response(current: HttpRequest, sent: u8, status: u16, headers: &[(String, String)]) -> (r: Hop)
    requires
        1 <= sent <= MAX_REDIRECT_HOPS + 1,
    ensures
        match wanted_hop(current, status, headers@) {
            None => r matches Hop::Done(u) && u@ == current.url@,
            Some((u, m, drop)) => if sent > MAX_REDIRECT_HOPS {
                r is TooManyRedirects
            } else {
                r matches Hop::Follow(n) && n.url@ == u && n.method == m && n.headers == current.headers
                    && n.body == (if drop {
                    None
                } else {
                    current.body
                }) && n.follow_redirects == current.follow_redirects
            },
        },
{
    let hop = if current.follow_redirects {
        next_hop(status, headers, current.url.as_str(), current.method)
    } else {
        None
    };
    match hop {
        None => Hop::Done(current.url),
        Some((url, method, drop)) => {
            if sent > MAX_REDIRECT_HOPS {
                Hop::TooManyRedirects
            } else {
                Hop::Follow(
                    HttpRequest {
                        method,
                        url,
                        headers: current.headers,
                        body: if drop {
                            None
                        } else {
                            current.body
                        },
                        follow_redirects: current.follow_redirects,
                    },
                )
            }
        },
    }
}

/// A followed redirect keeps the method and body only for `307`/`308`; a
/// `303` always becomes a body-less GET, and so does a `301`/`302` after a
/// POST.
pub proof fn law_redirect_methods(status: u16, method: Method)
    ensures
        (status == 307 || status == 308) ==> hop_method(status, method) == (method, false),
        status == 303 ==> hop_method(status, method) == (Method::Get, true),
        (status == 301 || status == 302) && method == Method::Post ==> hop_method(status, method) == (Method::Get, true),
        (status == 301 || status == 302) && method == Method::Get ==> hop_method(status, method) == (Method::Get, false),
{
}

} // verus!
