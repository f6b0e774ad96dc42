//! URLs, held as their serialized text and handled by the `url` crate.
//!
//! Every URL this library builds is the text `url::Url` serializes to, so
//! parsing it again gives back the same URL; each operation below parses,
//! applies one `url` method and serializes. What they return is named by
//! the spec functions of this module.
use vstd::prelude::*;

verus! {

/// What `url::Url::parse` gives for a text: the serialized URL, or the
/// error's display text.
pub uninterp spec fn parsed_url(text: Seq<char>) -> Result<Seq<char>, Seq<char>>;

/// What `url::Url::join` gives for a reference resolved against a base
/// URL: the serialized URL, or the error's display text.
pub uninterp spec fn joined_url(base: Seq<char>, reference: Seq<char>) -> Result<Seq<char>, Seq<char>>;

/// The URL after `query_pairs_mut().extend_pairs(pairs)`: the pairs
/// form-urlencoded onto the end of its query.
pub uninterp spec fn url_with_pairs(url: Seq<char>, pairs: Seq<(Seq<char>, Seq<char>)>) -> Seq<char>;

/// `url::Url::query`: the text after `?`, if any.
pub uninterp spec fn url_query(url: Seq<char>) -> Option<Seq<char>>;

/// The URL after `set_query(Some(query))`.
pub uninterp spec fn url_with_query(url: Seq<char>, query: Seq<char>) -> Seq<char>;

/// `url::Url::parse`, serialized. Its result is named [`parsed_url`].
#[verifier::external_body]
pub(crate) fn parse_url(text: &str) -> (r: Result<String, String>)
    ensures
        match r {
            Ok(u) => parsed_url(text@) == Ok::<Seq<char>, Seq<char>>(u@),
            Err(e) => parsed_url(text@) == Err::<Seq<char>, Seq<char>>(e@),
        },
{
    match url::Url::parse(text) {
        Ok(u) => Ok(u.to_string()),
        Err(e) => Err(e.to_string()),
    }
}

/// `url::Url::join` of `reference` onto the URL `base`. Its result is
/// named [`joined_url`].
#[verifier::external_body]
pub(crate) fn join_url(base: &str, reference: &str) -> (r: Result<String, String>)
    ensures
        match r {
            Ok(u) => joined_url(base@, reference@) == Ok::<Seq<char>, Seq<char>>(u@),
            Err(e) => joined_url(base@, reference@) == Err::<Seq<char>, Seq<char>>(e@),
        },
{
    match url::Url::parse(base).and_then(|b| b.join(reference)) {
        Ok(u) => Ok(u.to_string()),
        Err(e) => Err(e.to_string()),
    }
}

/// `query_pairs_mut().extend_pairs(..)` on the URL `url`, after
/// `Url::parse`; a text `Url::parse` refuses is given back as it is (the
/// library's callers pass only URLs that url itself wrote). Its result is
/// named [`url_with_pairs`].
#[verifier::external_body]
pub(crate) fn append_pairs(url: &str, pairs: &Vec<(String, String)>) -> (r: String)
    ensures
        r@ == url_with_pairs(url@, pairs@.map_values(|p: (String, String)| (p.0@, p.1@))),
{
    match url::Url::parse(url) {
        Ok(mut u) => {
            u.query_pairs_mut().extend_pairs(pairs.iter().map(|(k, v)| (k.as_str(), v.as_str())));
            u.to_string()
        },
        Err(_) => url.to_string(),
    }
}

/// `url::Url::query` of the URL `url`. Its result is named [`url_query`].
#[verifier::external_body]
pub(crate) fn query_of(url: &str) -> (r: Option<String>)
    ensures
        match r {
            Some(q) => url_query(url@) == Some(q@),
            None => url_query(url@) is None,
        },
{
    match url::Url::parse(url) {
        Ok(u) => u.query().map(|q| q.to_string()),
        Err(_) => None,
    }
}

/// `set_query(Some(query))` on the URL `url`. Its result is named
/// [`url_with_query`].
#[verifier::external_body]
pub(crate) fn set_query(url: &str, query: &str) -> (r: String)
    ensures
        r@ == url_with_query(url@, query@),
{
    match url::Url::parse(url) {
        Ok(mut u) => {
            u.set_query(Some(query));
            u.to_string()
        },
        Err(_) => url.to_string(),
    }
}


/// The URL after `set_query(None)`.
pub uninterp spec fn url_without_query(url: Seq<char>) -> Seq<char>;

/// `url::Url::path` of the URL.
pub uninterp spec fn url_path(url: Seq<char>) -> Seq<char>;

/// The URL after `path_segments_mut()`'s `pop_if_empty().push(segment)`
/// (unchanged for a URL that cannot be a base).
pub uninterp spec fn url_with_segment(url: Seq<char>, segment: Seq<char>) -> Seq<char>;

/// `set_query(None)` on the URL `url`. Its result is named
/// [`url_without_query`].
#[verifier::external_body]
pub(crate) fn clear_query(url: &str) -> (r: String)
    ensures
        r@ == url_without_query(url@),
{
    match url::Url::parse(url) {
        Ok(mut u) => {
            u.set_query(None);
            u.to_string()
        },
        Err(_) => url.to_string(),
    }
}

/// `url::Url::path` of the URL `url`. Its result is named [`url_path`].
#[verifier::external_body]
pub(crate) fn path_of(url: &str) -> (r: String)
    ensures
        r@ == url_path(url@),
{
    match url::Url::parse(url) {
        Ok(u) => u.path().to_string(),
        Err(_) => String::new(),
    }
}

/// `path_segments_mut()`'s `pop_if_empty().push(segment)` on the URL
/// `url`. Its result is named [`url_with_segment`].
#[verifier::external_body]
pub(crate) fn push_segment(url: &str, segment: &str) -> (r: String)
    ensures
        r@ == url_with_segment(url@, segment@),
{
    match url::Url::parse(url) {
        Ok(mut u) => {
            if let Ok(mut segments) = u.path_segments_mut() {
                segments.pop_if_empty().push(segment);
            }
            u.to_string()
        },
        Err(_) => url.to_string(),
    }
}

} // verus!
