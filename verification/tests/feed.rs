use oxidarr::feed::{read_events, resolve_entity_ref, FeedEvent, FeedItem, ReleaseFields, Tag};

fn tag(name: &str, attrs: &[(&str, &str)]) -> Tag {
    Tag {
        name: name.to_string(),
        attrs: attrs
            .iter()
            .map(|(k, v)| (k.to_string(), Ok(v.to_string())))
            .collect(),
        attr_error: None,
    }
}

fn start(name: &str) -> FeedEvent {
    FeedEvent::Start(tag(name, &[]))
}

fn end(name: &str) -> FeedEvent {
    FeedEvent::End(name.to_string())
}

fn text(t: &str) -> FeedEvent {
    FeedEvent::Text(Ok(t.to_string()))
}

fn attr(name: &str, value: &str) -> FeedEvent {
    FeedEvent::Empty(tag("attr", &[("name", name), ("value", value)]))
}

/// `<rss><channel>` + the items' events + `</channel></rss>`.
fn feed(items: Vec<Vec<FeedEvent>>) -> Vec<FeedEvent> {
    let mut evs = vec![start("rss"), start("channel")];
    for item in items {
        evs.push(start("item"));
        evs.extend(item);
        evs.push(end("item"));
    }
    evs.push(end("channel"));
    evs.push(end("rss"));
    evs
}

fn element(name: &str, content: &str) -> Vec<FeedEvent> {
    vec![start(name), text(content), end(name)]
}

fn one(evs: Vec<FeedEvent>) -> ReleaseFields {
    let mut releases = read_events(&evs).unwrap();
    assert_eq!(releases.len(), 1);
    releases.remove(0)
}

#[test]
fn an_empty_channel_event_stream_has_no_releases() {
    let evs = vec![start("rss"), start("channel"), start("title"), text("Empty"), end("title"), end("channel"), end("rss")];
    assert!(read_events(&evs).unwrap().is_empty());
}

#[test]
fn events_without_a_channel_are_refused() {
    let evs = vec![start("html"), start("body"), end("body"), end("html")];
    assert_eq!(
        read_events(&evs).unwrap_err(),
        "expected a Newznab/Torznab <rss> feed with a <channel> element; found none"
    );
}

#[test]
fn a_full_torznab_item_resolves_every_field() {
    let mut item = element("title", "Some.Show.S01E01.1080p.WEB-DL");
    item.extend(element("guid", "https://example.org/details/1"));
    item.extend(element("comments", "https://example.org/details/1"));
    item.extend(element("pubDate", "Sun, 06 Sep 2026 12:34:56 +0000"));
    item.push(FeedEvent::Empty(tag(
        "enclosure",
        &[("url", "https://example.org/download/1.torrent"), ("length", "123456789")],
    )));
    for (n, v) in [
        ("seeders", "42"),
        ("peers", "50"),
        ("grabs", "7"),
        ("infohash", "ABCDEF"),
        ("magneturl", "magnet:?xt=urn:btih:ABCDEF"),
        ("category", "5000"),
        ("category", "5040"),
        ("downloadvolumefactor", "0"),
        ("uploadvolumefactor", "2"),
        ("imdbid", "tt1234567"),
        ("tmdbid", "98765"),
        ("tvdbid", "654321"),
        ("files", "3"),
        ("minimumseedtime", "172800"),
        ("minimumratio", "1.5"),
    ] {
        item.push(attr(n, v));
    }
    let r = one(feed(vec![item]));
    assert_eq!(r.title, "Some.Show.S01E01.1080p.WEB-DL");
    assert_eq!(r.size, Some(123_456_789));
    assert_eq!(r.seeders, Some(42));
    assert_eq!(r.leechers, Some(8));
    assert_eq!(r.grabs, Some(7));
    assert_eq!(r.details_url.as_deref(), Some("https://example.org/details/1"));
    assert_eq!(r.download_url.as_deref(), Some("https://example.org/download/1.torrent"));
    assert_eq!(r.magnet_url.as_deref(), Some("magnet:?xt=urn:btih:ABCDEF"));
    assert_eq!(r.info_hash.as_deref(), Some("ABCDEF"));
    assert_eq!(r.publish_date.as_deref(), Some("2026-09-06T12:34:56+00:00"));
    assert_eq!(r.categories, vec![5000, 5040]);
    assert_eq!(r.download_volume_factor.as_deref(), Some("0"));
    assert_eq!(r.upload_volume_factor.as_deref(), Some("2"));
    assert_eq!(r.imdb_id.as_deref(), Some("tt1234567"));
    assert_eq!(r.tmdb_id, Some(98765));
    assert_eq!(r.tvdb_id, Some(654_321));
    assert_eq!(r.files, Some(3));
    assert_eq!(r.minimum_seed_time, Some(172_800));
    assert_eq!(r.minimum_ratio.as_deref(), Some("1.5"));
}

#[test]
fn an_opaque_guid_is_no_details_url() {
    let mut item = element("title", "Minimal.Release.2026");
    item.extend(element("guid", "minimal-guid-002"));
    let r = one(feed(vec![item]));
    assert_eq!(r.details_url, None);
    assert_eq!(r.download_url, None);
    assert_eq!(r.size, None);
    assert_eq!(r.leechers, None);
}

#[test]
fn peers_below_seeders_give_zero_leechers() {
    let mut item = element("title", "T");
    item.push(attr("seeders", "10"));
    item.push(attr("peers", "4"));
    let r = one(feed(vec![item]));
    assert_eq!(r.seeders, Some(10));
    assert_eq!(r.leechers, Some(0));
}

#[test]
fn cdata_title_is_captured_literally() {
    let item = vec![
        start("title"),
        FeedEvent::CData(Ok("Some.Show <Director's Cut>".to_string())),
        end("title"),
    ];
    assert_eq!(one(feed(vec![item])).title, "Some.Show <Director's Cut>");
}

#[test]
fn a_magnet_link_event_becomes_the_magnet_url() {
    let mut item = element("title", "T");
    item.extend(element("link", "magnet:?xt=urn:btih:0123"));
    let r = one(feed(vec![item]));
    assert_eq!(r.magnet_url.as_deref(), Some("magnet:?xt=urn:btih:0123"));
    assert_eq!(r.download_url, None);
}

#[test]
fn a_size_attr_event_overrides_the_enclosure_length() {
    let mut item = element("title", "T");
    item.push(FeedEvent::Empty(tag("enclosure", &[("url", "https://e.org/x"), ("length", "1024")])));
    item.push(attr("size", "2048"));
    assert_eq!(one(feed(vec![item])).size, Some(2048));
}

#[test]
fn a_non_numeric_category_event_is_dropped() {
    let mut item = element("title", "T");
    item.push(attr("category", "5000"));
    item.push(attr("category", "TV"));
    assert_eq!(one(feed(vec![item])).categories, vec![5000]);
}

#[test]
fn an_unknown_entity_event_stays_literal() {
    let first = vec![
        start("title"),
        text("Scraped"),
        FeedEvent::Ref("nbsp".to_string()),
        text("Title"),
        end("title"),
    ];
    let second = element("title", "Second.Release");
    let releases = read_events(&feed(vec![first, second])).unwrap();
    assert_eq!(releases.len(), 2);
    assert_eq!(releases[0].title, "Scraped&nbsp;Title");
    assert_eq!(releases[1].title, "Second.Release");
}

#[test]
fn entity_in_title_resolves_ampersand_and_whitespace_is_trimmed_once() {
    let item = vec![
        start("title"),
        text("\n      Fast "),
        FeedEvent::Ref("amp".to_string()),
        text(" Furious\n    "),
        end("title"),
    ];
    assert_eq!(one(feed(vec![item])).title, "Fast & Furious");
}

#[test]
fn character_references_resolve_and_malformed_ones_fail() {
    assert_eq!(resolve_entity_ref("#38").unwrap(), "&");
    assert_eq!(resolve_entity_ref("#x26").unwrap(), "&");
    assert_eq!(resolve_entity_ref("quot").unwrap(), "\"");
    assert_eq!(resolve_entity_ref("hellip").unwrap(), "&hellip;");
    assert!(resolve_entity_ref("#0")
        .unwrap_err()
        .starts_with("invalid character reference: "));
}

#[test]
fn an_unreadable_attribute_before_the_wanted_one_fails_the_feed() {
    let mut item = element("title", "T");
    item.push(FeedEvent::Empty(Tag {
        name: "enclosure".to_string(),
        attrs: vec![],
        attr_error: Some("invalid attribute: broken".to_string()),
    }));
    assert_eq!(read_events(&feed(vec![item])).unwrap_err(), "invalid attribute: broken");
}

#[test]
fn a_self_closing_item_is_an_empty_release() {
    let evs = vec![start("rss"), start("channel"), FeedEvent::Empty(tag("item", &[])), end("channel")];
    let releases = read_events(&evs).unwrap();
    assert_eq!(releases.len(), 1);
    assert_eq!(releases[0].title, "");
    let empty = FeedItem::new().into_release();
    assert_eq!(empty.size, None);
}
