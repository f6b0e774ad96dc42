//! Newznab/Torznab feeds read into releases.
//!
//! [`parse_feed`] reads the XML with `quick_xml` and hands each event over
//! as a [`FeedEvent`]; [`FeedState::step`] decides what it does to the
//! item under way, and [`FeedState::finish`] gives the releases. How one
//! item's fields resolve into a release is [`FeedItem::into_release`].
//! Ratio factors are kept as the feed's text (the application reads them as
//! numbers).
use vstd::prelude::*;

use quick_xml::events::BytesStart;
use quick_xml::events::Event::{CData, Empty, End, Eof, GeneralRef, Start, Text};
use quick_xml::utils::name_len;
use quick_xml::{Reader, XmlVersion};

use crate::datetime::{parse_rfc2822, rfc2822_rfc3339};
use crate::filters::{parse_u32, parse_u64, parse_unsigned};
use crate::text::{chars_of, find, find_in, has_at, matches_at, push_all, push_str, string_of, trim, trimmed};

verus! {

// ---------------------------------------------------------------------------
// One item
// ---------------------------------------------------------------------------
/// One `<item>`'s fields, as its elements and attributes stream past.
#[derive(Debug, Clone)]
pub struct FeedItem {
    pub title: String,
    pub guid: Option<String>,
    pub comments: Option<String>,
    pub link: Option<String>,
    pub pub_date: Option<String>,
    pub enclosure_url: Option<String>,
    pub enclosure_length: Option<u64>,
    pub size_override: Option<u64>,
    pub seeders: Option<u32>,
    pub peers: Option<u32>,
    pub grabs: Option<u32>,
    pub info_hash: Option<String>,
    pub magnet_url: Option<String>,
    pub categories: Vec<u32>,
    pub imdb_id: Option<String>,
    pub tmdb_id: Option<u32>,
    pub tvdb_id: Option<u32>,
    /// The last `downloadvolumefactor` attribute's text.
    pub download_volume_factor: Option<String>,
    /// The last `uploadvolumefactor` attribute's text.
    pub upload_volume_factor: Option<String>,
    pub minimum_seed_time: Option<u64>,
    /// The last `minimumratio` attribute's text.
    pub minimum_ratio: Option<String>,
    pub files: Option<u32>,
}

/// A search result's fields (ratio factors as the text they were given
/// in).
#[derive(Debug, Clone)]
pub struct ReleaseFields {
    pub title: String,
    pub size: Option<u64>,
    pub seeders: Option<u32>,
    pub leechers: Option<u32>,
    pub grabs: Option<u32>,
    pub details_url: Option<String>,
    pub download_url: Option<String>,
    pub magnet_url: Option<String>,
    pub info_hash: Option<String>,
    /// The publication time, UTC, in RFC 3339.
    pub publish_date: Option<String>,
    pub categories: Vec<u32>,
    pub download_volume_factor: Option<String>,
    pub upload_volume_factor: Option<String>,
    pub imdb_id: Option<String>,
    pub tmdb_id: Option<u32>,
    pub tvdb_id: Option<u32>,
    pub files: Option<u32>,
    pub minimum_seed_time: Option<u64>,
    pub minimum_ratio: Option<String>,
    pub description: Option<String>,
    pub poster: Option<String>,
    pub genre: Option<String>,
}

/// A feed item's fields as text.
pub struct SItem {
    pub title: Seq<char>,
    pub guid: Option<Seq<char>>,
    pub comments: Option<Seq<char>>,
    pub link: Option<Seq<char>>,
    pub pub_date: Option<Seq<char>>,
    pub enclosure_url: Option<Seq<char>>,
    pub enclosure_length: Option<u64>,
    pub size_override: Option<u64>,
    pub seeders: Option<u32>,
    pub peers: Option<u32>,
    pub grabs: Option<u32>,
    pub info_hash: Option<Seq<char>>,
    pub magnet_url: Option<Seq<char>>,
    pub categories: Seq<u32>,
    pub imdb_id: Option<Seq<char>>,
    pub tmdb_id: Option<u32>,
    pub tvdb_id: Option<u32>,
    pub download_volume_factor: Option<Seq<char>>,
    pub upload_volume_factor: Option<Seq<char>>,
    pub minimum_seed_time: Option<u64>,
    pub minimum_ratio: Option<Seq<char>>,
    pub files: Option<u32>,
}

/// A release's fields as text.
pub struct SRelease {
    pub title: Seq<char>,
    pub size: Option<u64>,
    pub seeders: Option<u32>,
    pub leechers: Option<u32>,
    pub grabs: Option<u32>,
    pub details_url: Option<Seq<char>>,
    pub download_url: Option<Seq<char>>,
    pub magnet_url: Option<Seq<char>>,
    pub info_hash: Option<Seq<char>>,
    pub publish_date: Option<Seq<char>>,
    pub categories: Seq<u32>,
    pub download_volume_factor: Option<Seq<char>>,
    pub upload_volume_factor: Option<Seq<char>>,
    pub imdb_id: Option<Seq<char>>,
    pub tmdb_id: Option<u32>,
    pub tvdb_id: Option<u32>,
    pub files: Option<u32>,
    pub minimum_seed_time: Option<u64>,
    pub minimum_ratio: Option<Seq<char>>,
    pub description: Option<Seq<char>>,
    pub poster: Option<Seq<char>>,
    pub genre: Option<Seq<char>>,
}

impl View for FeedItem {
    type V = SItem;

    open spec fn view(&self) -> SItem {
        SItem {
            title: self.title@,
            guid: ov(self.guid),
            comments: ov(self.comments),
            link: ov(self.link),
            pub_date: ov(self.pub_date),
            enclosure_url: ov(self.enclosure_url),
            enclosure_length: self.enclosure_length,
            size_override: self.size_override,
            seeders: self.seeders,
            peers: self.peers,
            grabs: self.grabs,
            info_hash: ov(self.info_hash),
            magnet_url: ov(self.magnet_url),
            categories: self.categories@,
            imdb_id: ov(self.imdb_id),
            tmdb_id: self.tmdb_id,
            tvdb_id: self.tvdb_id,
            download_volume_factor: ov(self.download_volume_factor),
            upload_volume_factor: ov(self.upload_volume_factor),
            minimum_seed_time: self.minimum_seed_time,
            minimum_ratio: ov(self.minimum_ratio),
            files: self.files,
        }
    }
}

impl View for ReleaseFields {
    type V = SRelease;

    open spec fn view(&self) -> SRelease {
        SRelease {
            title: self.title@,
            size: self.size,
            seeders: self.seeders,
            leechers: self.leechers,
            grabs: self.grabs,
            details_url: ov(self.details_url),
            download_url: ov(self.download_url),
            magnet_url: ov(self.magnet_url),
            info_hash: ov(self.info_hash),
            publish_date: ov(self.publish_date),
            categories: self.categories@,
            download_volume_factor: ov(self.download_volume_factor),
            upload_volume_factor: ov(self.upload_volume_factor),
            imdb_id: ov(self.imdb_id),
            tmdb_id: self.tmdb_id,
            tvdb_id: self.tvdb_id,
            files: self.files,
            minimum_seed_time: self.minimum_seed_time,
            minimum_ratio: ov(self.minimum_ratio),
            description: ov(self.description),
            poster: ov(self.poster),
            genre: ov(self.genre),
        }
    }
}

/// An item with nothing read yet.
pub open spec fn empty_item() -> SItem {
    SItem {
        title: Seq::empty(),
        guid: None,
        comments: None,
        link: None,
        pub_date: None,
        enclosure_url: None,
        enclosure_length: None,
        size_override: None,
        seeders: None,
        peers: None,
        grabs: None,
        info_hash: None,
        magnet_url: None,
        categories: Seq::empty(),
        imdb_id: None,
        tmdb_id: None,
        tvdb_id: None,
        download_volume_factor: None,
        upload_volume_factor: None,
        minimum_seed_time: None,
        minimum_ratio: None,
        files: None,
    }
}

pub open spec fn ov(o: Option<String>) -> Option<Seq<char>> {
    match o {
        Some(s) => Some(s@),
        None => None,
    }
}

fn copy_opt(o: &Option<String>) -> (r: Option<String>)
    ensures
        ov(r) == ov(*o),
{
    match o {
        Some(s) => Some(String::from_str(s.as_str())),
        None => None,
    }
}

/// Whether a text starts with `http://` or `https://`.
pub open spec fn looks_like_url(s: Seq<char>) -> bool {
    has_at(s, 0, "http://"@) || has_at(s, 0, "https://"@)
}

/// The details page: `comments`, else `guid` when it looks like a URL.
pub open spec fn details_of(comments: Option<Seq<char>>, guid: Option<Seq<char>>) -> Option<Seq<char>> {
    match comments {
        Some(c) => Some(c),
        None => match guid {
            Some(g) => if looks_like_url(g) {
                Some(g)
            } else {
                None
            },
            None => None,
        },
    }
}

/// Whether the link is a `magnet:` URI.
pub open spec fn is_magnet(link: Option<Seq<char>>) -> bool {
    match link {
        Some(l) => has_at(l, 0, "magnet:"@),
        None => false,
    }
}

/// The magnet URI: the `magneturl` attribute, else a `magnet:` link.
pub open spec fn magnet_of(magnet: Option<Seq<char>>, link: Option<Seq<char>>) -> Option<Seq<char>> {
    if magnet is Some {
        magnet
    } else if is_magnet(link) {
        link
    } else {
        None
    }
}

/// The download URL: the enclosure's, else a link that is no magnet URI.
pub open spec fn download_of(enclosure: Option<Seq<char>>, link: Option<Seq<char>>) -> Option<Seq<char>> {
    if enclosure is Some {
        enclosure
    } else if is_magnet(link) {
        None
    } else {
        link
    }
}

/// Leechers: peers less seeders (never below zero), when both are known.
pub open spec fn leechers_of(seeders: Option<u32>, peers: Option<u32>) -> Option<u32> {
    match (seeders, peers) {
        (Some(s), Some(p)) => Some(if p >= s {
            (p - s) as u32
        } else {
            0u32
        }),
        _ => None,
    }
}

/// The publication date: `pubDate` read as RFC 2822, in UTC.
pub open spec fn date_of(pub_date: Option<Seq<char>>) -> Option<Seq<char>> {
    match pub_date {
        Some(d) => rfc2822_rfc3339(d),
        None => None,
    }
}

/// The release an item's fields resolve into.
pub open spec fn release_of(i: SItem) -> SRelease {
    SRelease {
        title: i.title,
        size: if i.size_override is Some {
            i.size_override
        } else {
            i.enclosure_length
        },
        seeders: i.seeders,
        leechers: leechers_of(i.seeders, i.peers),
        grabs: i.grabs,
        details_url: details_of(i.comments, i.guid),
        download_url: download_of(i.enclosure_url, i.link),
        magnet_url: magnet_of(i.magnet_url, i.link),
        info_hash: i.info_hash,
        publish_date: date_of(i.pub_date),
        categories: i.categories,
        download_volume_factor: i.download_volume_factor,
        upload_volume_factor: i.upload_volume_factor,
        imdb_id: i.imdb_id,
        tmdb_id: i.tmdb_id,
        tvdb_id: i.tvdb_id,
        files: i.files,
        minimum_seed_time: i.minimum_seed_time,
        minimum_ratio: i.minimum_ratio,
        description: None,
        poster: None,
        genre: None,
    }
}

fn starts_with_lit(s: &String, lit: &str) -> (r: bool)
    ensures
        r == has_at(s@, 0, lit@),
{
    matches_at(&chars_of(s.as_str()), 0, &chars_of(lit))
}

impl FeedItem {
    /// An item with nothing read yet.
    pub fn new() -> (r: FeedItem)
        ensures
            r@ == empty_item(),
    {
        FeedItem {
            title: String::new(),
            guid: None,
            comments: None,
            link: None,
            pub_date: None,
            enclosure_url: None,
            enclosure_length: None,
            size_override: None,
            seeders: None,
            peers: None,
            grabs: None,
            info_hash: None,
            magnet_url: None,
            categories: Vec::new(),
            imdb_id: None,
            tmdb_id: None,
            tvdb_id: None,
            download_volume_factor: None,
            upload_volume_factor: None,
            minimum_seed_time: None,
            minimum_ratio: None,
            files: None,
        }
    }

    /// Resolves the fields into a release: the details page is `comments`,
    /// else a URL-shaped `guid`; the download URL is the enclosure's, else a
    /// link that is no `magnet:` URI; the magnet URI is the `magneturl`
    /// attribute, else a `magnet:` link; the size is an explicit `size`,
    /// else the enclosure's length; leechers are peers less seeders (not
    /// below zero); `pubDate` is read as RFC 2822.
    pub fn into_release(self) -> (r: ReleaseFields)
        ensures
            r@ == release_of(self@),
    {
        let details_url = match &self.comments {
            Some(c) => Some(String::from_str(c.as_str())),
            None => match &self.guid {
                Some(g) => if starts_with_lit(g, "http://") || starts_with_lit(g, "https://") {
                    Some(String::from_str(g.as_str()))
                } else {
                    None
                },
                None => None,
            },
        };
        let link_is_magnet = match &self.link {
            Some(l) => starts_with_lit(l, "magnet:"),
            None => false,
        };
        let magnet_url = if self.magnet_url.is_some() {
            copy_opt(&self.magnet_url)
        } else if link_is_magnet {
            copy_opt(&self.link)
        } else {
            None
        };
        let download_url = if self.enclosure_url.is_some() {
            copy_opt(&self.enclosure_url)
        } else if link_is_magnet {
            None
        } else {
            copy_opt(&self.link)
        };
        let leechers = match (self.seeders, self.peers) {
            (Some(s), Some(p)) => Some(if p >= s { p - s } else { 0 }),
            _ => None,
        };
        let publish_date = match &self.pub_date {
            Some(d) => parse_rfc2822(d.as_str()),
            None => None,
        };
        let size = if self.size_override.is_some() {
            self.size_override
        } else {
            self.enclosure_length
        };
        ReleaseFields {
            title: self.title,
            size,
            seeders: self.seeders,
            leechers,
            grabs: self.grabs,
            details_url,
            download_url,
            magnet_url,
            info_hash: self.info_hash,
            publish_date,
            categories: self.categories,
            download_volume_factor: self.download_volume_factor,
            upload_volume_factor: self.upload_volume_factor,
            imdb_id: self.imdb_id,
            tmdb_id: self.tmdb_id,
            tvdb_id: self.tvdb_id,
            files: self.files,
            minimum_seed_time: self.minimum_seed_time,
            minimum_ratio: self.minimum_ratio,
            description: None,
            poster: None,
            genre: None,
        }
    }
}

// ---------------------------------------------------------------------------
// Attributes and text
// ---------------------------------------------------------------------------
pub open spec fn u32_of(s: Seq<char>) -> Option<u32> {
    match parse_unsigned(s, u32::MAX as nat) {
        Some(v) => Some(v as u32),
        None => None,
    }
}

pub open spec fn u64_of(s: Seq<char>) -> Option<u64> {
    match parse_unsigned(s, u64::MAX as nat) {
        Some(v) => Some(v as u64),
        None => None,
    }
}

fn read_u32(s: &str) -> (r: Option<u32>)
    ensures
        r == u32_of(s@),
{
    parse_u32(&chars_of(s))
}

fn read_u64(s: &str) -> (r: Option<u64>)
    ensures
        r == u64_of(s@),
{
    parse_u64(&chars_of(s))
}

/// Which field a `torznab:attr`/`newznab:attr` name sets.
#[derive(Clone, Copy, PartialEq, Eq, Debug)]
pub enum AttrKind {
    Seeders,
    Peers,
    Grabs,
    Files,
    TvdbId,
    TmdbId,
    MinimumSeedTime,
    Size,
    InfoHash,
    MagnetUrl,
    ImdbId,
    DownloadVolumeFactor,
    UploadVolumeFactor,
    MinimumRatio,
    Category,
    Other,
}

pub open spec fn attr_kind(name: Seq<char>) -> AttrKind {
    if name == "seeders"@ {
        AttrKind::Seeders
    } else if name == "peers"@ {
        AttrKind::Peers
    } else if name == "grabs"@ {
        AttrKind::Grabs
    } else if name == "files"@ {
        AttrKind::Files
    } else if name == "tvdbid"@ {
        AttrKind::TvdbId
    } else if name == "tmdbid"@ {
        AttrKind::TmdbId
    } else if name == "minimumseedtime"@ {
        AttrKind::MinimumSeedTime
    } else if name == "size"@ {
        AttrKind::Size
    } else if name == "infohash"@ {
        AttrKind::InfoHash
    } else if name == "magneturl"@ {
        AttrKind::MagnetUrl
    } else if name == "imdbid"@ {
        AttrKind::ImdbId
    } else if name == "downloadvolumefactor"@ {
        AttrKind::DownloadVolumeFactor
    } else if name == "uploadvolumefactor"@ {
        AttrKind::UploadVolumeFactor
    } else if name == "minimumratio"@ {
        AttrKind::MinimumRatio
    } else if name == "category"@ {
        AttrKind::Category
    } else {
        AttrKind::Other
    }
}

/// The categories after a `category` attribute: the value added when it
/// reads as a number.
pub open spec fn with_category(cats: Seq<u32>, value: Seq<char>) -> Seq<u32> {
    match u32_of(value) {
        Some(id) => cats.push(id),
        None => cats,
    }
}

/// What an attribute does to an item: a number field is set to the value
/// read as a number (cleared when it does not read); a text field is set
/// to the value; a `category` that reads is added; other names change
/// nothing.
pub open spec fn with_attr(i: SItem, name: Seq<char>, value: Seq<char>) -> SItem {
    match attr_kind(name) {
        AttrKind::Seeders => SItem { seeders: u32_of(value), ..i },
        AttrKind::Peers => SItem { peers: u32_of(value), ..i },
        AttrKind::Grabs => SItem { grabs: u32_of(value), ..i },
        AttrKind::Files => SItem { files: u32_of(value), ..i },
        AttrKind::TvdbId => SItem { tvdb_id: u32_of(value), ..i },
        AttrKind::TmdbId => SItem { tmdb_id: u32_of(value), ..i },
        AttrKind::MinimumSeedTime => SItem { minimum_seed_time: u64_of(value), ..i },
        AttrKind::Size => SItem { size_override: u64_of(value), ..i },
        AttrKind::InfoHash => SItem { info_hash: Some(value), ..i },
        AttrKind::MagnetUrl => SItem { magnet_url: Some(value), ..i },
        AttrKind::ImdbId => SItem { imdb_id: Some(value), ..i },
        AttrKind::DownloadVolumeFactor => SItem { download_volume_factor: Some(value), ..i },
        AttrKind::UploadVolumeFactor => SItem { upload_volume_factor: Some(value), ..i },
        AttrKind::MinimumRatio => SItem { minimum_ratio: Some(value), ..i },
        AttrKind::Category => SItem { categories: with_category(i.categories, value), ..i },
        AttrKind::Other => i,
    }
}

/// Applies a `torznab:attr`/`newznab:attr` `name`/`value` pair to the item.
pub fn apply_torznab_attr(item: &mut FeedItem, name: &str, value: &str)
    ensures
        final(item)@ == with_attr(old(item)@, name@, value@),
{
    let n = chars_of(name);
    let v = String::from_str(value);
    if crate::text::word_is(&n, "seeders") {
        item.seeders = read_u32(value);
    } else if crate::text::word_is(&n, "peers") {
        item.peers = read_u32(value);
    } else if crate::text::word_is(&n, "grabs") {
        item.grabs = read_u32(value);
    } else if crate::text::word_is(&n, "files") {
        item.files = read_u32(value);
    } else if crate::text::word_is(&n, "tvdbid") {
        item.tvdb_id = read_u32(value);
    } else if crate::text::word_is(&n, "tmdbid") {
        item.tmdb_id = read_u32(value);
    } else if crate::text::word_is(&n, "minimumseedtime") {
        item.minimum_seed_time = read_u64(value);
    } else if crate::text::word_is(&n, "size") {
        item.size_override = read_u64(value);
    } else if crate::text::word_is(&n, "infohash") {
        item.info_hash = Some(v);
    } else if crate::text::word_is(&n, "magneturl") {
        item.magnet_url = Some(v);
    } else if crate::text::word_is(&n, "imdbid") {
        item.imdb_id = Some(v);
    } else if crate::text::word_is(&n, "downloadvolumefactor") {
        item.download_volume_factor = Some(v);
    } else if crate::text::word_is(&n, "uploadvolumefactor") {
        item.upload_volume_factor = Some(v);
    } else if crate::text::word_is(&n, "minimumratio") {
        item.minimum_ratio = Some(v);
    } else if crate::text::word_is(&n, "category") {
        if let Some(id) = read_u32(value) {
            item.categories.push(id);
        }
    }
}


// ---------------------------------------------------------------------------
// Entity references
// ---------------------------------------------------------------------------
/// What `quick_xml`'s `BytesRef::resolve_char_ref` gives for a reference's
/// content: the character a `#`-number names, `None` for a named
/// reference, or the error's display text.
pub uninterp spec fn char_ref_result(content: Seq<char>) -> Result<Option<char>, Seq<char>>;

/// `BytesRef::new(content).resolve_char_ref()`. Its result is named
/// [`char_ref_result`]; content that does not start with `#` is no
/// character reference.
#[verifier::external_body]
fn char_ref(content: &str) -> (r: Result<Option<char>, String>)
    ensures
        match r {
            Ok(c) => char_ref_result(content@) == Ok::<Option<char>, Seq<char>>(c),
            Err(e) => char_ref_result(content@) == Err::<Option<char>, Seq<char>>(e@),
        },
        !has_at(content@, 0, "#"@) ==> (r matches Ok(None)),
{
    quick_xml::events::BytesRef::new(content).resolve_char_ref().map_err(|e| e.to_string())
}

/// The five entities XML predefines.
pub open spec fn predefined_entity(name: Seq<char>) -> Option<Seq<char>> {
    if name == "lt"@ {
        Some("<"@)
    } else if name == "gt"@ {
        Some(">"@)
    } else if name == "amp"@ {
        Some("&"@)
    } else if name == "apos"@ {
        Some("'"@)
    } else if name == "quot"@ {
        Some("\""@)
    } else {
        None
    }
}

/// `quick_xml::escape::resolve_predefined_entity` (built without its
/// `escape-html` feature): the text of one of the five XML entities.
#[verifier::external_body]
fn predefined(name: &str) -> (r: Option<String>)
    ensures
        match predefined_entity(name@) {
            Some(t) => r matches Some(x) && x@ == t,
            None => r is None,
        },
{
    quick_xml::escape::resolve_predefined_entity(name).map(|t| t.to_string())
}

/// The text a reference inside element text stands for: a character
/// reference's character, a predefined entity's text, or an unknown named
/// reference kept literally as `&name;`.
pub open spec fn resolved_ref(content: Seq<char>) -> Result<Seq<char>, Seq<char>> {
    match char_ref_result(content) {
        Err(e) => Err("invalid character reference: "@ + e),
        Ok(Some(c)) => Ok(seq![c]),
        Ok(None) => match predefined_entity(content) {
            Some(t) => Ok(t),
            None => Ok("&"@ + content + ";"@),
        },
    }
}

/// Resolves a reference (see [`resolved_ref`]).
pub fn resolve_entity_ref(content: &str) -> (r: Result<String, String>)
    ensures
        match resolved_ref(content@) {
            Ok(t) => r matches Ok(x) && x@ == t,
            Err(e) => r matches Err(x) && x@ == e,
        },
{
    match char_ref(content) {
        Err(e) => {
            let mut msg = chars_of("invalid character reference: ");
            push_all(&mut msg, &chars_of(e.as_str()));
            Err(string_of(msg.as_slice()))
        },
        Ok(Some(c)) => {
            let mut v: Vec<char> = Vec::new();
            v.push(c);
            assert(v@ =~= seq![c]);
            Ok(string_of(v.as_slice()))
        },
        Ok(None) => match predefined(content) {
            Some(t) => Ok(t),
            None => {
                let mut v = chars_of("&");
                push_all(&mut v, &chars_of(content));
                push_str(&mut v, ";");
                Ok(string_of(v.as_slice()))
            },
        },
    }
}

// ---------------------------------------------------------------------------
// Events
// ---------------------------------------------------------------------------
/// An opening tag: its local name, and its attributes (by local name, each
/// with its normalized value or why that value cannot be read) up to the
/// first attribute that cannot be read at all, and that one's error.
#[derive(Debug, Clone)]
pub struct Tag {
    pub name: String,
    pub attrs: Vec<(String, Result<String, String>)>,
    pub attr_error: Option<String>,
}

/// One event of the feed's XML, as the reader gives it.
#[derive(Debug)]
pub enum FeedEvent {
    /// `<name ...>`.
    Start(Tag),
    /// `<name .../>`.
    Empty(Tag),
    /// Text, decoded and unescaped, or why it could not be.
    Text(Result<String, String>),
    /// A CDATA section's text, or why it could not be decoded.
    CData(Result<String, String>),
    /// A character or entity reference: what stands between `&` and `;`.
    Ref(String),
    /// `</name>`, by local name.
    End(String),
    /// Anything else (declarations, comments, processing instructions).
    Other,
}

/// A [`Tag`] as text.
pub struct STag {
    pub name: Seq<char>,
    pub attrs: Seq<(Seq<char>, Result<Seq<char>, Seq<char>>)>,
    pub attr_error: Option<Seq<char>>,
}

/// A [`FeedEvent`] as text.
pub enum SEvent {
    Start(STag),
    Empty(STag),
    Text(Result<Seq<char>, Seq<char>>),
    CData(Result<Seq<char>, Seq<char>>),
    Ref(Seq<char>),
    End(Seq<char>),
    Other,
}

pub open spec fn tag_view(t: Tag) -> STag {
    STag { name: t.name@, attrs: attrs_text(t.attrs@), attr_error: ov(t.attr_error) }
}

pub open spec fn event_view(e: FeedEvent) -> SEvent {
    match e {
        FeedEvent::Start(t) => SEvent::Start(tag_view(t)),
        FeedEvent::Empty(t) => SEvent::Empty(tag_view(t)),
        FeedEvent::Text(r) => SEvent::Text(rv(r)),
        FeedEvent::CData(r) => SEvent::CData(rv(r)),
        FeedEvent::Ref(c) => SEvent::Ref(c@),
        FeedEvent::End(n) => SEvent::End(n@),
        FeedEvent::Other => SEvent::Other,
    }
}

pub open spec fn events_view(v: Seq<FeedEvent>) -> Seq<SEvent> {
    v.map_values(|e: FeedEvent| event_view(e))
}

/// Which text-bearing child element of an item is being read.
#[derive(Debug, Clone, Copy, PartialEq, Eq, Structural)]
pub enum TextField {
    Title,
    Guid,
    Link,
    Comments,
    PubDate,
    Size,
}

pub open spec fn text_field_for(name: Seq<char>) -> Option<TextField> {
    if name == "title"@ {
        Some(TextField::Title)
    } else if name == "guid"@ {
        Some(TextField::Guid)
    } else if name == "link"@ {
        Some(TextField::Link)
    } else if name == "comments"@ {
        Some(TextField::Comments)
    } else if name == "pubDate"@ {
        Some(TextField::PubDate)
    } else if name == "size"@ {
        Some(TextField::Size)
    } else {
        None
    }
}

fn field_for(name: &Vec<char>) -> (r: Option<TextField>)
    ensures
        r == text_field_for(name@),
{
    if crate::text::word_is(name, "title") {
        Some(TextField::Title)
    } else if crate::text::word_is(name, "guid") {
        Some(TextField::Guid)
    } else if crate::text::word_is(name, "link") {
        Some(TextField::Link)
    } else if crate::text::word_is(name, "comments") {
        Some(TextField::Comments)
    } else if crate::text::word_is(name, "pubDate") {
        Some(TextField::PubDate)
    } else if crate::text::word_is(name, "size") {
        Some(TextField::Size)
    } else {
        None
    }
}

pub open spec fn rv(r: Result<String, String>) -> Result<Seq<char>, Seq<char>> {
    match r {
        Ok(x) => Ok(x@),
        Err(e) => Err(e@),
    }
}

pub open spec fn attrs_text(p: Seq<(String, Result<String, String>)>) -> Seq<(Seq<char>, Result<Seq<char>, Seq<char>>)> {
    p.map_values(|x: (String, Result<String, String>)| (x.0@, rv(x.1)))
}

/// The value of the first attribute named `name` (or why it cannot be
/// read); past the readable attributes, the error that stopped them.
pub open spec fn attr_lookup(
    attrs: Seq<(Seq<char>, Result<Seq<char>, Seq<char>>)>,
    error: Option<Seq<char>>,
    name: Seq<char>,
) -> Result<Option<Seq<char>>, Seq<char>>
    decreases attrs.len(),
{
    if attrs.len() == 0 {
        match error {
            Some(e) => Err(e),
            None => Ok(None),
        }
    } else if attrs[0].0 == name {
        match attrs[0].1 {
            Ok(v) => Ok(Some(v)),
            Err(e) => Err(e),
        }
    } else {
        attr_lookup(attrs.drop_first(), error, name)
    }
}

pub open spec fn tag_attr(t: STag, name: Seq<char>) -> Result<Option<Seq<char>>, Seq<char>> {
    attr_lookup(t.attrs, t.attr_error, name)
}

fn attr_value(t: &Tag, name: &str) -> (r: Result<Option<String>, String>)
    ensures
        match tag_attr(tag_view(*t), name@) {
            Ok(v) => r matches Ok(x) && ov(x) == v,
            Err(e) => r matches Err(x) && x@ == e,
        },
{
    let want = chars_of(name);
    let ghost pv = attrs_text(t.attrs@);
    let mut i: usize = 0;
    assert(pv.skip(0) =~= pv);
    while i < t.attrs.len()
        invariant
            0 <= i <= t.attrs.len(),
            want@ == name@,
            pv == attrs_text(t.attrs@),
            tag_attr(tag_view(*t), name@) == attr_lookup(pv.skip(i as int), ov(t.attr_error), name@),
        decreases t.attrs.len() - i,
    {
        assert(pv.skip(i as int).drop_first() =~= pv.skip(i + 1));
        assert(pv.skip(i as int)[0] == pv[i as int]);
        if crate::text::eq_chars(&chars_of(t.attrs[i].0.as_str()), &want) {
            return match &t.attrs[i].1 {
                Ok(v) => Ok(Some(String::from_str(v.as_str()))),
                Err(e) => Err(String::from_str(e.as_str())),
            };
        }
        i = i + 1;
    }
    match &t.attr_error {
        Some(e) => Err(String::from_str(e.as_str())),
        None => Ok(None),
    }
}

/// An `<enclosure>` applied to the item under way: its `url` and `length`
/// (a length that does not read as a number is none).
pub open spec fn with_enclosure(t: STag, i: Option<SItem>) -> Result<Option<SItem>, Seq<char>> {
    match i {
        None => Ok(None),
        Some(item) => match tag_attr(t, "url"@) {
            Err(e) => Err(e),
            Ok(url) => match tag_attr(t, "length"@) {
                Err(e) => Err(e),
                Ok(len) => Ok(Some(SItem {
                    enclosure_url: url,
                    enclosure_length: match len {
                        Some(l) => u64_of(l),
                        None => None,
                    },
                    ..item
                })),
            },
        },
    }
}

/// A `torznab:attr`/`newznab:attr` element applied to the item under way,
/// when it has both a `name` and a `value`.
pub open spec fn with_attr_element(t: STag, i: Option<SItem>) -> Result<Option<SItem>, Seq<char>> {
    match i {
        None => Ok(None),
        Some(item) => match tag_attr(t, "name"@) {
            Err(e) => Err(e),
            Ok(n) => match tag_attr(t, "value"@) {
                Err(e) => Err(e),
                Ok(v) => match (n, v) {
                    (Some(n), Some(v)) => Ok(Some(with_attr(item, n, v))),
                    _ => Ok(Some(item)),
                },
            },
        },
    }
}

pub open spec fn oitem(i: Option<FeedItem>) -> Option<SItem> {
    match i {
        Some(x) => Some(x@),
        None => None,
    }
}

fn apply_enclosure(t: &Tag, item: &mut Option<FeedItem>) -> (r: Result<(), String>)
    ensures
        match with_enclosure(tag_view(*t), oitem(*old(item))) {
            Ok(i) => r is Ok && oitem(*final(item)) == i,
            Err(e) => r matches Err(x) && x@ == e,
        },
{
    match item {
        None => Ok(()),
        Some(it) => {
            let url = attr_value(t, "url")?;
            let len = attr_value(t, "length")?;
            it.enclosure_url = url;
            it.enclosure_length = match len {
                Some(l) => read_u64(l.as_str()),
                None => None,
            };
            Ok(())
        },
    }
}

fn apply_attr_element(t: &Tag, item: &mut Option<FeedItem>) -> (r: Result<(), String>)
    ensures
        match with_attr_element(tag_view(*t), oitem(*old(item))) {
            Ok(i) => r is Ok && oitem(*final(item)) == i,
            Err(e) => r matches Err(x) && x@ == e,
        },
{
    match item {
        None => Ok(()),
        Some(it) => {
            let n = attr_value(t, "name")?;
            let v = attr_value(t, "value")?;
            match (n, v) {
                (Some(n), Some(v)) => {
                    apply_torznab_attr(it, n.as_str(), v.as_str());
                    Ok(())
                },
                _ => Ok(()),
            }
        },
    }
}

/// A text element's content committed to the item when it closes, trimmed
/// once as a whole: the title is set; `guid`, `link`, `comments` and
/// `pubDate` only when not blank; `size` read as a number.
pub open spec fn committed(i: SItem, f: TextField, raw: Seq<char>) -> SItem {
    let v = trim(raw);
    match f {
        TextField::Title => SItem { title: v, ..i },
        TextField::Guid => if v.len() > 0 { SItem { guid: Some(v), ..i } } else { i },
        TextField::Link => if v.len() > 0 { SItem { link: Some(v), ..i } } else { i },
        TextField::Comments => if v.len() > 0 { SItem { comments: Some(v), ..i } } else { i },
        TextField::PubDate => if v.len() > 0 { SItem { pub_date: Some(v), ..i } } else { i },
        TextField::Size => SItem { size_override: u64_of(v), ..i },
    }
}

fn commit_field(item: &mut FeedItem, f: TextField, raw: &String)
    ensures
        final(item)@ == committed(old(item)@, f, raw@),
{
    let v = string_of(trimmed(&chars_of(raw.as_str())).as_slice());
    let nonblank = chars_of(v.as_str()).len() > 0;
    match f {
        TextField::Title => item.title = v,
        TextField::Guid => if nonblank { item.guid = Some(v) },
        TextField::Link => if nonblank { item.link = Some(v) },
        TextField::Comments => if nonblank { item.comments = Some(v) },
        TextField::PubDate => if nonblank { item.pub_date = Some(v) },
        TextField::Size => item.size_override = read_u64(v.as_str()),
    }
}

// ---------------------------------------------------------------------------
// The feed
// ---------------------------------------------------------------------------
/// Where reading a feed stands.
pub struct SState {
    pub releases: Seq<SRelease>,
    pub saw_channel: bool,
    pub current: Option<SItem>,
    pub field: Option<TextField>,
    pub buffer: Seq<char>,
}

/// Where reading a feed stands: the releases so far, whether a `<channel>`
/// was seen, the item under way, the text element being read and its text.
pub struct FeedState {
    releases: Vec<ReleaseFields>,
    saw_channel: bool,
    current: Option<FeedItem>,
    field: Option<TextField>,
    buffer: String,
}

pub open spec fn releases_view(v: Seq<ReleaseFields>) -> Seq<SRelease> {
    v.map_values(|r: ReleaseFields| r@)
}

impl View for FeedState {
    type V = SState;

    closed spec fn view(&self) -> SState {
        SState {
            releases: releases_view(self.releases@),
            saw_channel: self.saw_channel,
            current: oitem(self.current),
            field: self.field,
            buffer: self.buffer@,
        }
    }
}

/// Nothing read yet.
pub open spec fn initial_state() -> SState {
    SState { releases: Seq::empty(), saw_channel: false, current: None, field: None, buffer: Seq::empty() }
}

pub open spec fn tag_name(t: STag) -> Seq<char> {
    t.name
}

/// What one event does. `<channel>` marks the feed as one; `<item>` opens
/// an item (a self-closing one is an empty release); `<enclosure>` and
/// `attr` elements apply to the item under way; another element inside an
/// item starts reading its text when it is a text field. Text, CDATA and
/// references are collected while a text field is read. `</item>`
/// resolves the item into a release; another closing tag commits the text
/// field being read.
pub open spec fn spec_step(st: SState, ev: SEvent) -> Result<SState, Seq<char>> {
    match ev {
        SEvent::Start(t) => {
            let n = tag_name(t);
            if n == "channel"@ {
                Ok(SState { saw_channel: true, ..st })
            } else if n == "item"@ {
                Ok(SState { current: Some(empty_item()), ..st })
            } else if n == "enclosure"@ {
                match with_enclosure(t, st.current) {
                    Ok(c) => Ok(SState { current: c, ..st }),
                    Err(e) => Err(e),
                }
            } else if n == "attr"@ {
                match with_attr_element(t, st.current) {
                    Ok(c) => Ok(SState { current: c, ..st }),
                    Err(e) => Err(e),
                }
            } else if st.current is Some {
                Ok(SState { field: text_field_for(n), buffer: Seq::empty(), ..st })
            } else {
                Ok(st)
            }
        },
        SEvent::Empty(t) => {
            let n = tag_name(t);
            if n == "channel"@ {
                Ok(SState { saw_channel: true, ..st })
            } else if n == "item"@ {
                Ok(SState { releases: st.releases.push(release_of(empty_item())), ..st })
            } else if n == "enclosure"@ {
                match with_enclosure(t, st.current) {
                    Ok(c) => Ok(SState { current: c, ..st }),
                    Err(e) => Err(e),
                }
            } else if n == "attr"@ {
                match with_attr_element(t, st.current) {
                    Ok(c) => Ok(SState { current: c, ..st }),
                    Err(e) => Err(e),
                }
            } else {
                Ok(st)
            }
        },
        SEvent::Text(r) => if st.field is Some && st.current is Some {
            match r {
                Ok(x) => Ok(SState { buffer: st.buffer + x, ..st }),
                Err(e) => Err(e),
            }
        } else {
            Ok(st)
        },
        SEvent::CData(r) => if st.field is Some && st.current is Some {
            match r {
                Ok(x) => Ok(SState { buffer: st.buffer + x, ..st }),
                Err(e) => Err(e),
            }
        } else {
            Ok(st)
        },
        SEvent::Ref(c) => if st.field is Some && st.current is Some {
            match resolved_ref(c) {
                Ok(x) => Ok(SState { buffer: st.buffer + x, ..st }),
                Err(e) => Err(e),
            }
        } else {
            Ok(st)
        },
        SEvent::End(n) => if n == "item"@ {
            match st.current {
                Some(i) => Ok(SState { releases: st.releases.push(release_of(i)), current: None, ..st }),
                None => Ok(st),
            }
        } else {
            match st.field {
                Some(f) => Ok(
                    SState {
                        field: None,
                        current: match st.current {
                            Some(i) => Some(committed(i, f, st.buffer)),
                            None => None,
                        },
                        buffer: Seq::empty(),
                        ..st
                    },
                ),
                None => Ok(st),
            }
        },
        SEvent::Other => Ok(st),
    }
}

/// Every event in turn; the first failure stops the reading.
pub open spec fn spec_run(st: SState, evs: Seq<SEvent>) -> Result<SState, Seq<char>>
    decreases evs.len(),
{
    if evs.len() == 0 {
        Ok(st)
    } else {
        match spec_run(st, evs.drop_last()) {
            Ok(s) => spec_step(s, evs.last()),
            Err(e) => Err(e),
        }
    }
}

/// The message for a document with no `<channel>`.
pub open spec fn no_channel_reason() -> Seq<char> {
    "expected a Newznab/Torznab <rss> feed with a <channel> element; found none"@
}

/// The releases read, once every event is in; a feed that never opened a
/// `<channel>` is refused.
pub open spec fn spec_finish(st: SState) -> Result<Seq<SRelease>, Seq<char>> {
    if st.saw_channel {
        Ok(st.releases)
    } else {
        Err(no_channel_reason())
    }
}

fn append_text(buffer: &mut String, x: &str)
    ensures
        final(buffer)@ == old(buffer)@ + x@,
{
    let mut v = chars_of(buffer.as_str());
    push_all(&mut v, &chars_of(x));
    *buffer = string_of(v.as_slice());
}

impl FeedState {
    /// Nothing read yet.
    pub fn new() -> (r: FeedState)
        ensures
            r@ == initial_state(),
    {
        let r = FeedState {
            releases: Vec::new(),
            saw_channel: false,
            current: None,
            field: None,
            buffer: String::new(),
        };
        assert(releases_view(r.releases@) =~= Seq::<SRelease>::empty());
        r
    }

    /// Takes one event (see [`spec_step`]).
    pub fn step(&mut self, ev: &FeedEvent) -> (r: Result<(), String>)
        ensures
            match spec_step(old(self)@, event_view(*ev)) {
                Ok(s) => r is Ok && final(self)@ == s,
                Err(e) => r matches Err(x) && x@ == e,
            },
    {
        let ghost rv0 = releases_view(self.releases@);
        match ev {
            FeedEvent::Start(t) => {
                let n = chars_of(t.name.as_str());
                if crate::text::word_is(&n, "channel") {
                    self.saw_channel = true;
                } else if crate::text::word_is(&n, "item") {
                    self.current = Some(FeedItem::new());
                } else if crate::text::word_is(&n, "enclosure") {
                    apply_enclosure(t, &mut self.current)?;
                } else if crate::text::word_is(&n, "attr") {
                    apply_attr_element(t, &mut self.current)?;
                } else if self.current.is_some() {
                    self.field = field_for(&n);
                    self.buffer = String::new();
                }
                Ok(())
            },
            FeedEvent::Empty(t) => {
                let n = chars_of(t.name.as_str());
                if crate::text::word_is(&n, "channel") {
                    self.saw_channel = true;
                } else if crate::text::word_is(&n, "item") {
                    let r = FeedItem::new().into_release();
                    self.releases.push(r);
                    assert(releases_view(self.releases@) =~= rv0.push(release_of(empty_item())));
                } else if crate::text::word_is(&n, "enclosure") {
                    apply_enclosure(t, &mut self.current)?;
                } else if crate::text::word_is(&n, "attr") {
                    apply_attr_element(t, &mut self.current)?;
                }
                Ok(())
            },
            FeedEvent::Text(x) | FeedEvent::CData(x) => {
                if self.field.is_some() && self.current.is_some() {
                    match x {
                        Ok(x) => append_text(&mut self.buffer, x.as_str()),
                        Err(e) => {
                            return Err(String::from_str(e.as_str()));
                        },
                    }
                }
                Ok(())
            },
            FeedEvent::Ref(c) => {
                if self.field.is_some() && self.current.is_some() {
                    let x = resolve_entity_ref(c.as_str())?;
                    append_text(&mut self.buffer, x.as_str());
                }
                Ok(())
            },
            FeedEvent::End(n) => {
                if crate::text::word_is(&chars_of(n.as_str()), "item") {
                    let cur = self.current.take();
                    match cur {
                        Some(item) => {
                            let ghost iv = item@;
                            let r = item.into_release();
                            self.releases.push(r);
                            assert(releases_view(self.releases@) =~= rv0.push(release_of(iv)));
                        },
                        None => {},
                    }
                } else {
                    let f = self.field.take();
                    match f {
                        Some(f) => {
                            match &mut self.current {
                                Some(item) => commit_field(item, f, &self.buffer),
                                None => {},
                            }
                            self.buffer = String::new();
                        },
                        None => {},
                    }
                }
                Ok(())
            },
            FeedEvent::Other => Ok(()),
        }
    }

    /// The releases read (see [`spec_finish`]).
    pub fn finish(self) -> (r: Result<Vec<ReleaseFields>, String>)
        ensures
            match spec_finish(self@) {
                Ok(rs) => r matches Ok(v) && releases_view(v@) == rs,
                Err(e) => r matches Err(x) && x@ == e,
            },
    {
        if self.saw_channel {
            Ok(self.releases)
        } else {
            Err(String::from_str("expected a Newznab/Torznab <rss> feed with a <channel> element; found none"))
        }
    }
}

/// Reads a whole event sequence: every event in turn, then the releases.
pub fn read_events(evs: &[FeedEvent]) -> (r: Result<Vec<ReleaseFields>, String>)
    ensures
        match spec_run(initial_state(), events_view(evs@)) {
            Ok(st) => match spec_finish(st) {
                Ok(rs) => r matches Ok(v) && releases_view(v@) == rs,
                Err(e) => r matches Err(x) && x@ == e,
            },
            Err(e) => r matches Err(x) && x@ == e,
        },
{
    let mut st = FeedState::new();
    let ghost ev = events_view(evs@);
    let mut i: usize = 0;
    assert(ev.take(0) =~= Seq::<SEvent>::empty());
    while i < evs.len()
        invariant
            0 <= i <= evs.len(),
            ev == events_view(evs@),
            spec_run(initial_state(), ev.take(i as int)) == Ok::<SState, Seq<char>>(st@),
        decreases evs.len() - i,
    {
        assert(ev.take(i + 1).drop_last() =~= ev.take(i as int));
        assert(ev.take(i + 1).last() == event_view(evs@[i as int]));
        match st.step(&evs[i]) {
            Ok(()) => {},
            Err(e) => {
                proof {
                    lemma_run_error(ev, i as int + 1, e@);
                }
                return Err(e);
            },
        }
        i = i + 1;
    }
    assert(ev.take(evs.len() as int) =~= ev);
    st.finish()
}

proof fn lemma_run_error(evs: Seq<SEvent>, n: int, e: Seq<char>)
    requires
        0 <= n <= evs.len(),
        spec_run(initial_state(), evs.take(n)) == Err::<SState, Seq<char>>(e),
    ensures
        spec_run(initial_state(), evs) == Err::<SState, Seq<char>>(e),
    decreases evs.len() - n,
{
    if n < evs.len() {
        assert(evs.take(n + 1).drop_last() =~= evs.take(n));
        lemma_run_error(evs, n + 1, e);
    } else {
        assert(evs.take(n) =~= evs);
    }
}


// ---------------------------------------------------------------------------
// Reading the XML
// ---------------------------------------------------------------------------
/// The text `std::str::from_utf8` finds in `bytes`, or its error's display
/// text.
pub uninterp spec fn utf8_checked(bytes: Seq<u8>) -> Result<Seq<char>, Seq<char>>;

/// `std::str::from_utf8`. Its result is named [`utf8_checked`].
#[verifier::external_body]
fn utf8_text(bytes: &[u8]) -> (r: Result<String, String>)
    ensures
        match r {
            Ok(t) => utf8_checked(bytes@) == Ok::<Seq<char>, Seq<char>>(t@),
            Err(e) => utf8_checked(bytes@) == Err::<Seq<char>, Seq<char>>(e@),
        },
{
    std::str::from_utf8(bytes).map(|t| t.to_string()).map_err(|e| e.to_string())
}

/// What `quick_xml::escape::unescape` makes of a text: its character and
/// predefined entity references resolved, or its error's display text.
pub uninterp spec fn xml_unescaped(raw: Seq<char>) -> Result<Seq<char>, Seq<char>>;

/// `quick_xml::escape::unescape`. Its result is named [`xml_unescaped`].
#[verifier::external_body]
fn unescape(raw: &str) -> (r: Result<String, String>)
    ensures
        match r {
            Ok(t) => xml_unescaped(raw@) == Ok::<Seq<char>, Seq<char>>(t@),
            Err(e) => xml_unescaped(raw@) == Err::<Seq<char>, Seq<char>>(e@),
        },
{
    quick_xml::escape::unescape(raw).map(|t| t.into_owned()).map_err(|e| e.to_string())
}

/// One event of the XML as `quick_xml` reads it, as text: an opening
/// tag's content (between `<` and `>` or `/>`), the raw text of text,
/// CDATA and references, a closing tag's name.
pub enum RawEvent {
    Start(String),
    Empty(String),
    Text(String),
    CData(String),
    Ref(String),
    End(String),
    Other,
}

/// A [`RawEvent`] as text.
pub enum SRaw {
    Start(Seq<char>),
    Empty(Seq<char>),
    Text(Seq<char>),
    CData(Seq<char>),
    Ref(Seq<char>),
    End(Seq<char>),
    Other,
}

pub open spec fn raw_view(e: RawEvent) -> SRaw {
    match e {
        RawEvent::Start(c) => SRaw::Start(c@),
        RawEvent::Empty(c) => SRaw::Empty(c@),
        RawEvent::Text(t) => SRaw::Text(t@),
        RawEvent::CData(c) => SRaw::CData(c@),
        RawEvent::Ref(c) => SRaw::Ref(c@),
        RawEvent::End(n) => SRaw::End(n@),
        RawEvent::Other => SRaw::Other,
    }
}

pub open spec fn raws_view(v: Seq<RawEvent>) -> Seq<SRaw> {
    v.map_values(|e: RawEvent| raw_view(e))
}

/// What `quick_xml::Reader::from_str(text)` reads: every event before the
/// end of the document, as text, and, when reading stopped at an error,
/// the byte offset `error_position` gives and the error's display text.
pub uninterp spec fn xml_read(text: Seq<char>) -> (Seq<SRaw>, Option<(u64, Seq<char>)>);

/// What an opening tag's content holds, read as `BytesStart` reads it
/// (its name the first word of the content): the tag's local name, and
/// its attributes in order (each by local name, with
/// `normalized_value(Explicit1_0)` or that error's display text) up to the
/// first that `attributes()` cannot read, and that error's display text.
pub uninterp spec fn xml_tag(content: Seq<char>) -> (
    Seq<char>,
    Seq<(Seq<char>, Result<Seq<char>, Seq<char>>)>,
    Option<Seq<char>>,
);

/// `Reader::from_str(text)` read to its end. Its result is named
/// [`xml_read`].
#[verifier::external_body]
fn read_xml(text: &str) -> (r: (Vec<RawEvent>, Option<(u64, String)>))
    ensures
        raws_view(r.0@) == xml_read(text@).0,
        match r.1 {
            Some((p, e)) => xml_read(text@).1 == Some((p, e@)),
            None => xml_read(text@).1 is None,
        },
{
    let mut reader = Reader::from_str(text);
    let mut events = vec![];
    loop {
        events.push(match reader.read_event() {
            Ok(Eof) => return (events, None),
            Err(e) => return (events, Some((reader.error_position(), e.to_string()))),
            Ok(Start(s)) => RawEvent::Start(s.to_string()),
            Ok(Empty(s)) => RawEvent::Empty(s.to_string()),
            Ok(Text(t)) => RawEvent::Text(t.to_string()),
            Ok(CData(c)) => RawEvent::CData(c.to_string()),
            Ok(GeneralRef(g)) => RawEvent::Ref(g.to_string()),
            Ok(End(e)) => RawEvent::End(e.to_string()),
            _ => RawEvent::Other,
        });
    }
}

/// `BytesStart::from_content(content, name_len(content))`: its
/// `local_name()` and `attributes()`. Its result is named [`xml_tag`].
#[verifier::external_body]
fn tag_parts(content: &str) -> (r: (String, Vec<(String, Result<String, String>)>, Option<String>))
    ensures
        (r.0@, attrs_text(r.1@), ov(r.2)) == xml_tag(content@),
{
    let start = BytesStart::from_content(content, name_len(content.as_bytes()));
    let name = start.local_name().as_ref().to_owned();
    let mut attrs = Vec::new();
    for attr in start.attributes() {
        match attr {
            Err(e) => return (name, attrs, Some(e.to_string())),
            Ok(a) => attrs.push((
                a.key.local_name().as_ref().to_owned(),
                a.normalized_value(XmlVersion::Explicit1_0).map(|v| v.into_owned()).map_err(|e| e.to_string()),
            )),
        }
    }
    (name, attrs, None)
}

/// `prefix` followed by `text`.
fn prefixed(prefix: &str, text: &str) -> (r: String)
    ensures
        r@ == prefix@ + text@,
{
    let mut v = chars_of(prefix);
    push_all(&mut v, &chars_of(text));
    string_of(v.as_slice())
}

/// An attribute's value, an unreadable one given its reason.
pub open spec fn attr_reason(a: (Seq<char>, Result<Seq<char>, Seq<char>>)) -> (Seq<char>, Result<Seq<char>, Seq<char>>) {
    (
        a.0,
        match a.1 {
            Ok(v) => Ok(v),
            Err(e) => Err("invalid attribute value: "@ + e),
        },
    )
}

/// An opening tag as the feed reads it: its parts (see [`xml_tag`]), an
/// unreadable value an invalid attribute value, an unreadable attribute
/// an invalid attribute.
pub open spec fn tag_read(content: Seq<char>) -> STag {
    let (name, attrs, error) = xml_tag(content);
    STag {
        name,
        attrs: attrs.map_values(|a: (Seq<char>, Result<Seq<char>, Seq<char>>)| attr_reason(a)),
        attr_error: match error {
            Some(e) => Some("invalid attribute: "@ + e),
            None => None,
        },
    }
}

fn tag_of(content: &str) -> (r: Tag)
    ensures
        tag_view(r) == tag_read(content@),
{
    let (name, raw, error) = tag_parts(content);
    let ghost rv = attrs_text(raw@);
    let mut attrs: Vec<(String, Result<String, String>)> = Vec::new();
    let mut i: usize = 0;
    while i < raw.len()
        invariant
            0 <= i <= raw.len(),
            rv == attrs_text(raw@),
            attrs_text(attrs@) == rv.take(i as int).map_values(
                |a: (Seq<char>, Result<Seq<char>, Seq<char>>)| attr_reason(a),
            ),
        decreases raw.len() - i,
    {
        let value = match &raw[i].1 {
            Ok(v) => Ok(String::from_str(v.as_str())),
            Err(e) => Err(prefixed("invalid attribute value: ", e.as_str())),
        };
        let ghost before = attrs_text(attrs@);
        attrs.push((String::from_str(raw[i].0.as_str()), value));
        proof {
            assert(attrs_text(attrs@) =~= before.push(attr_reason(rv[i as int])));
            assert(rv.take(i + 1) =~= rv.take(i as int).push(rv[i as int]));
            assert(rv.take(i + 1).map_values(|a: (Seq<char>, Result<Seq<char>, Seq<char>>)| attr_reason(a))
                =~= rv.take(i as int).map_values(|a: (Seq<char>, Result<Seq<char>, Seq<char>>)| attr_reason(a)).push(
                attr_reason(rv[i as int]),
            ));
        }
        i = i + 1;
    }
    assert(rv.take(raw.len() as int) =~= rv);
    let attr_error = match error {
        Some(e) => Some(prefixed("invalid attribute: ", e.as_str())),
        None => None,
    };
    Tag { name, attrs, attr_error }
}

/// A qualified name's local part: what follows its first `:`, else all of
/// it (`QName::local_name`).
pub open spec fn local_part(name: Seq<char>) -> Seq<char> {
    match find(name, ":"@) {
        Some(i) => name.skip(i + 1),
        None => name,
    }
}

fn local_name_of(name: &str) -> (r: String)
    ensures
        r@ == local_part(name@),
{
    let n = chars_of(name);
    proof {
        reveal_strlit(":");
    }
    let colon = chars_of(":");
    assert(colon@.len() == 1);
    match find_in(&n, &colon) {
        Some(i) => {
            assert(find(n@, colon@) is Some);
            assert(i + 1 <= n@.len());
            assert(n@.len() == n.len());
            let mut out: Vec<char> = Vec::new();
            let mut k: usize = i + 1;
            while k < n.len()
                invariant
                    i + 1 <= k <= n.len(),
                    out@ == n@.subrange(i + 1, k as int),
                decreases n.len() - k,
            {
                out.push(n[k]);
                assert(n@.subrange(i + 1, k + 1) =~= n@.subrange(i + 1, k as int).push(n@[k as int]));
                k = k + 1;
            }
            assert(n@.subrange(i + 1, n.len() as int) =~= n@.skip(i + 1));
            string_of(out.as_slice())
        },
        None => String::from_str(name),
    }
}

/// The event the feed reading takes from one the reader gave: an opening
/// tag read (see [`tag_read`]), text unescaped (see [`xml_unescaped`]),
/// CDATA literal, a closing tag by its local name.
pub open spec fn raw_event(r: SRaw) -> SEvent {
    match r {
        SRaw::Start(c) => SEvent::Start(tag_read(c)),
        SRaw::Empty(c) => SEvent::Empty(tag_read(c)),
        SRaw::Text(t) => SEvent::Text(
            match xml_unescaped(t) {
                Ok(u) => Ok(u),
                Err(e) => Err("unescaping text: "@ + e),
            },
        ),
        SRaw::CData(c) => SEvent::CData(Ok(c)),
        SRaw::Ref(c) => SEvent::Ref(c),
        SRaw::End(n) => SEvent::End(local_part(n)),
        SRaw::Other => SEvent::Other,
    }
}

fn feed_event(ev: &RawEvent) -> (r: FeedEvent)
    ensures
        event_view(r) == raw_event(raw_view(*ev)),
{
    match ev {
        RawEvent::Start(c) => FeedEvent::Start(tag_of(c.as_str())),
        RawEvent::Empty(c) => FeedEvent::Empty(tag_of(c.as_str())),
        RawEvent::Text(t) => FeedEvent::Text(
            match unescape(t.as_str()) {
                Ok(u) => Ok(u),
                Err(e) => Err(prefixed("unescaping text: ", e.as_str())),
            },
        ),
        RawEvent::CData(c) => FeedEvent::CData(Ok(String::from_str(c.as_str()))),
        RawEvent::Ref(c) => FeedEvent::Ref(String::from_str(c.as_str())),
        RawEvent::End(n) => FeedEvent::End(local_name_of(n.as_str())),
        RawEvent::Other => FeedEvent::Other,
    }
}

/// The message for a feed whose XML is malformed at byte `pos`.
pub open spec fn malformed_reason(pos: u64, e: Seq<char>) -> Seq<char> {
    "malformed XML at byte "@ + crate::model::digits(pos as nat) + ": "@ + e
}

/// What reading a feed gives: the bytes must be UTF-8; the events the XML
/// reader gives are taken in turn (see [`spec_step`]), the first failure
/// stopping the reading; malformed markup after them fails the feed
/// naming its byte offset; else the releases read (see [`spec_finish`]).
pub open spec fn spec_parse_feed(xml: Seq<u8>) -> Result<Seq<SRelease>, Seq<char>> {
    match utf8_checked(xml) {
        Err(e) => Err("feed is not valid UTF-8: "@ + e),
        Ok(text) => {
            let (raws, failure) = xml_read(text);
            match spec_run(initial_state(), raws.map_values(|r: SRaw| raw_event(r))) {
                Err(e) => Err(e),
                Ok(st) => match failure {
                    Some((pos, e)) => Err(malformed_reason(pos, e)),
                    None => spec_finish(st),
                },
            }
        },
    }
}

/// Reads a Newznab/Torznab feed into releases (see [`spec_parse_feed`]).
pub fn parse_feed(xml: &[u8]) -> (r: Result<Vec<ReleaseFields>, String>)
    ensures
        match spec_parse_feed(xml@) {
            Ok(rs) => r matches Ok(v) && releases_view(v@) == rs,
            Err(e) => r matches Err(x) && x@ == e,
        },
{
    let text = match utf8_text(xml) {
        Ok(t) => t,
        Err(e) => {
            return Err(prefixed("feed is not valid UTF-8: ", e.as_str()));
        },
    };
    let (events, failure) = read_xml(text.as_str());
    let ghost evs = raws_view(events@).map_values(|r: SRaw| raw_event(r));
    let mut st = FeedState::new();
    let mut i: usize = 0;
    assert(evs.take(0) =~= Seq::<SEvent>::empty());
    while i < events.len()
        invariant
            0 <= i <= events.len(),
            evs == raws_view(events@).map_values(|r: SRaw| raw_event(r)),
            evs.len() == events.len(),
            utf8_checked(xml@) == Ok::<Seq<char>, Seq<char>>(text@),
            raws_view(events@) == xml_read(text@).0,
            spec_run(initial_state(), evs.take(i as int)) == Ok::<SState, Seq<char>>(st@),
        decreases events.len() - i,
    {
        let ev = feed_event(&events[i]);
        assert(evs.take(i + 1).drop_last() =~= evs.take(i as int));
        assert(evs.take(i + 1).last() == event_view(ev));
        match st.step(&ev) {
            Ok(()) => {},
            Err(e) => {
                proof {
                    lemma_run_error(evs, i as int + 1, e@);
                }
                return Err(e);
            },
        }
        i = i + 1;
    }
    assert(evs.take(events.len() as int) =~= evs);
    match failure {
        Some((pos, e)) => {
            let mut v = chars_of("malformed XML at byte ");
            crate::model::push_digits(&mut v, pos);
            push_str(&mut v, ": ");
            push_all(&mut v, &chars_of(e.as_str()));
            Err(string_of(v.as_slice()))
        },
        None => st.finish(),
    }
}

} // verus!
