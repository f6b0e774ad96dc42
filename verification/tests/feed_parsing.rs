use oxidarr::feed::{parse_feed, ReleaseFields};

fn one(xml: &[u8]) -> ReleaseFields {
    let mut releases = parse_feed(xml).unwrap();
    assert_eq!(releases.len(), 1);
    releases.remove(0)
}

const TORZNAB_FEED: &[u8] = br#"<?xml version="1.0" encoding="UTF-8"?>
<rss version="2.0" xmlns:torznab="http://torznab.com/schemas/2015/feed">
  <channel>
    <title>Example Torznab</title>
    <item>
      <title>Some.Show.S01E01.1080p.WEB-DL</title>
      <guid>https://example.org/details/1</guid>
      <comments>https://example.org/details/1</comments>
      <pubDate>Sun, 06 Sep 2026 12:34:56 +0000</pubDate>
      <enclosure url="https://example.org/download/1.torrent" length="123456789" type="application/x-bittorrent" />
      <torznab:attr name="seeders" value="42" />
      <torznab:attr name="peers" value="50" />
      <torznab:attr name="grabs" value="7" />
      <torznab:attr name="infohash" value="ABCDEF0123456789ABCDEF0123456789ABCDEF01" />
      <torznab:attr name="magneturl" value="magnet:?xt=urn:btih:ABCDEF0123456789ABCDEF0123456789ABCDEF01&amp;dn=Some.Show" />
      <torznab:attr name="category" value="5000" />
      <torznab:attr name="category" value="5040" />
      <torznab:attr name="downloadvolumefactor" value="0" />
      <torznab:attr name="uploadvolumefactor" value="2" />
      <torznab:attr name="imdbid" value="tt1234567" />
      <torznab:attr name="tmdbid" value="98765" />
      <torznab:attr name="tvdbid" value="654321" />
      <torznab:attr name="files" value="3" />
      <torznab:attr name="minimumseedtime" value="172800" />
      <torznab:attr name="minimumratio" value="1.5" />
    </item>
    <item>
      <title>Minimal.Release.2026</title>
      <guid>minimal-guid-002</guid>
      <pubDate>Mon, 07 Sep 2026 00:00:00 +0000</pubDate>
    </item>
  </channel>
</rss>"#;

const NEWZNAB_FEED: &[u8] = br#"<?xml version="1.0" encoding="UTF-8"?>
<rss version="2.0" xmlns:newznab="http://www.newznab.com/DTD/2010/feeds/attributes/">
  <channel>
    <item>
      <title>Some.Movie.2026.1080p.BluRay</title>
      <guid isPermaLink="true">https://example.org/details/nzb-1</guid>
      <pubDate>Tue, 08 Sep 2026 08:00:00 +0000</pubDate>
      <size>987654321</size>
      <enclosure url="https://example.org/download/nzb-1.nzb" length="111111" type="application/x-nzb" />
      <newznab:attr name="category" value="2040" />
      <newznab:attr name="grabs" value="15" />
      <newznab:attr name="seeders" value="0" />
      <newznab:attr name="peers" value="0" />
      <newznab:attr name="downloadvolumefactor" value="0.5" />
      <newznab:attr name="uploadvolumefactor" value="3" />
      <newznab:attr name="imdbid" value="1234567" />
    </item>
  </channel>
</rss>"#;

#[test]
fn parses_torznab_feed_into_full_and_minimal_releases() {
    let releases = parse_feed(TORZNAB_FEED).unwrap();
    assert_eq!(releases.len(), 2);

    let full = &releases[0];
    assert_eq!(full.title, "Some.Show.S01E01.1080p.WEB-DL");
    assert_eq!(full.size, Some(123_456_789));
    assert_eq!(full.seeders, Some(42));
    assert_eq!(full.leechers, Some(8));
    assert_eq!(full.grabs, Some(7));
    assert_eq!(full.details_url.as_deref(), Some("https://example.org/details/1"));
    assert_eq!(full.download_url.as_deref(), Some("https://example.org/download/1.torrent"));
    assert_eq!(
        full.magnet_url.as_deref(),
        Some("magnet:?xt=urn:btih:ABCDEF0123456789ABCDEF0123456789ABCDEF01&dn=Some.Show")
    );
    assert_eq!(full.info_hash.as_deref(), Some("ABCDEF0123456789ABCDEF0123456789ABCDEF01"));
    assert_eq!(full.publish_date.as_deref(), Some("2026-09-06T12:34:56+00:00"));
    assert_eq!(full.categories, vec![5000, 5040]);
    assert_eq!(full.download_volume_factor.as_deref(), Some("0"));
    assert_eq!(full.upload_volume_factor.as_deref(), Some("2"));
    assert_eq!(full.imdb_id.as_deref(), Some("tt1234567"));
    assert_eq!(full.tmdb_id, Some(98765));
    assert_eq!(full.tvdb_id, Some(654_321));
    assert_eq!(full.files, Some(3));
    assert_eq!(full.minimum_seed_time, Some(172_800));
    assert_eq!(full.minimum_ratio.as_deref(), Some("1.5"));

    let minimal = &releases[1];
    assert_eq!(minimal.title, "Minimal.Release.2026");
    assert_eq!(minimal.publish_date.as_deref(), Some("2026-09-07T00:00:00+00:00"));
    assert_eq!(minimal.details_url, None);
    assert_eq!(minimal.download_url, None);
    assert_eq!(minimal.size, None);
    assert_eq!(minimal.seeders, None);
    assert_eq!(minimal.leechers, None);
    assert!(minimal.categories.is_empty());
    assert_eq!(minimal.download_volume_factor, None);
}

#[test]
fn parses_newznab_feed_with_attr_variant_and_size_element() {
    let r = one(NEWZNAB_FEED);
    assert_eq!(r.title, "Some.Movie.2026.1080p.BluRay");
    assert_eq!(r.size, Some(987_654_321));
    assert_eq!(r.seeders, Some(0));
    assert_eq!(r.leechers, Some(0));
    assert_eq!(r.grabs, Some(15));
    assert_eq!(r.details_url.as_deref(), Some("https://example.org/details/nzb-1"));
    assert_eq!(r.download_url.as_deref(), Some("https://example.org/download/nzb-1.nzb"));
    assert_eq!(r.publish_date.as_deref(), Some("2026-09-08T08:00:00+00:00"));
    assert_eq!(r.categories, vec![2040]);
    assert_eq!(r.download_volume_factor.as_deref(), Some("0.5"));
    assert_eq!(r.upload_volume_factor.as_deref(), Some("3"));
    assert_eq!(r.imdb_id.as_deref(), Some("1234567"));
}

#[test]
fn empty_channel_yields_no_releases() {
    let xml = b"<?xml version=\"1.0\"?><rss version=\"2.0\"><channel><title>Empty</title></channel></rss>";
    assert!(parse_feed(xml).unwrap().is_empty());
}

#[test]
fn malformed_xml_is_a_parse_error_naming_the_byte_offset() {
    let xml = b"<?xml version=\"1.0\"?><rss><channel><item><title>Broken</titel></item></channel></rss>";
    let message = parse_feed(xml).unwrap_err();
    assert!(message.starts_with("malformed XML at byte "), "got: {message}");
    assert!(message.contains("byte"));
}

#[test]
fn feed_without_rss_channel_is_a_parse_error() {
    let xml = b"<?xml version=\"1.0\"?><not-a-feed>hello</not-a-feed>";
    let message = parse_feed(xml).unwrap_err();
    assert!(message.contains("channel"), "got: {message}");
}

#[test]
fn a_feed_that_is_not_utf8_is_refused() {
    let message = parse_feed(b"<rss>\xff</rss>").unwrap_err();
    assert!(message.starts_with("feed is not valid UTF-8: "), "got: {message}");
}

#[test]
fn leechers_floors_at_zero_when_seeders_exceed_peers() {
    let xml: &[u8] = br#"<?xml version="1.0"?>
<rss version="2.0" xmlns:torznab="http://torznab.com/schemas/2015/feed">
  <channel>
    <item>
      <title>Overseeded.Release</title>
      <guid>overseeded-guid</guid>
      <torznab:attr name="seeders" value="10" />
      <torznab:attr name="peers" value="3" />
    </item>
  </channel>
</rss>"#;
    let r = one(xml);
    assert_eq!(r.seeders, Some(10));
    assert_eq!(r.leechers, Some(0));
}

#[test]
fn cdata_title_and_guid_are_captured_literally() {
    let xml: &[u8] = br#"<?xml version="1.0"?>
<rss version="2.0">
  <channel>
    <item>
      <title><![CDATA[Some.Show <Director's Cut>]]></title>
      <guid><![CDATA[https://example.org/details/cdata-1]]></guid>
    </item>
  </channel>
</rss>"#;
    let r = one(xml);
    assert_eq!(r.title, "Some.Show <Director's Cut>");
    assert_eq!(r.details_url.as_deref(), Some("https://example.org/details/cdata-1"));
}

#[test]
fn bare_magnet_link_without_magneturl_attr_routes_to_magnet_url() {
    let xml: &[u8] = br#"<?xml version="1.0"?>
<rss version="2.0">
  <channel>
    <item>
      <title>Magnet.Only.Release</title>
      <guid>magnet-only-guid</guid>
      <link>magnet:?xt=urn:btih:0123456789ABCDEF0123456789ABCDEF01234567&amp;dn=Magnet.Only</link>
    </item>
  </channel>
</rss>"#;
    let r = one(xml);
    assert_eq!(
        r.magnet_url.as_deref(),
        Some("magnet:?xt=urn:btih:0123456789ABCDEF0123456789ABCDEF01234567&dn=Magnet.Only")
    );
    assert_eq!(r.download_url, None);
}

#[test]
fn size_attr_overrides_enclosure_length_when_no_size_element() {
    let xml: &[u8] = br#"<?xml version="1.0"?>
<rss version="2.0" xmlns:torznab="http://torznab.com/schemas/2015/feed">
  <channel>
    <item>
      <title>Size.Attr.Release</title>
      <guid>size-attr-guid</guid>
      <enclosure url="https://example.org/download/size-attr.torrent" length="1000" />
      <torznab:attr name="size" value="2048" />
    </item>
  </channel>
</rss>"#;
    assert_eq!(one(xml).size, Some(2048));
}

#[test]
fn non_numeric_category_attr_is_silently_dropped() {
    let xml: &[u8] = br#"<?xml version="1.0"?>
<rss version="2.0" xmlns:torznab="http://torznab.com/schemas/2015/feed">
  <channel>
    <item>
      <title>Category.Release</title>
      <guid>category-guid</guid>
      <torznab:attr name="category" value="not-a-number" />
      <torznab:attr name="category" value="5000" />
    </item>
  </channel>
</rss>"#;
    assert_eq!(one(xml).categories, vec![5000]);
}

#[test]
fn unresolvable_named_entity_degrades_to_literal_text_without_erroring() {
    let xml: &[u8] = br#"<?xml version="1.0"?>
<rss version="2.0">
  <channel>
    <item>
      <title>Scraped&nbsp;Title</title>
      <guid>nbsp-guid</guid>
    </item>
    <item>
      <title>Second.Release</title>
      <guid>second-guid</guid>
    </item>
  </channel>
</rss>"#;
    let releases = parse_feed(xml).unwrap();
    assert_eq!(releases.len(), 2);
    assert_eq!(releases[0].title, "Scraped&nbsp;Title");
    assert_eq!(releases[1].title, "Second.Release");
}

#[test]
fn entity_in_title_resolves_ampersand() {
    let xml: &[u8] = br#"<?xml version="1.0"?>
<rss version="2.0">
  <channel>
    <item>
      <title>Fast &amp; Furious</title>
      <guid>fast-furious-guid</guid>
    </item>
  </channel>
</rss>"#;
    assert_eq!(one(xml).title, "Fast & Furious");
}

#[test]
fn pretty_printed_whitespace_is_trimmed_once_at_element_close() {
    let xml: &[u8] = br#"<?xml version="1.0"?>
<rss version="2.0">
  <channel>
    <item>
      <title>
        Fast &amp; Furious
      </title>
      <guid>
        https://example.org/details/pretty-1
      </guid>
      <pubDate>
        Sun, 06 Sep 2026 12:34:56 +0000
      </pubDate>
      <size>
        123456789
      </size>
    </item>
  </channel>
</rss>"#;
    let r = one(xml);
    assert_eq!(r.title, "Fast & Furious");
    assert_eq!(r.details_url.as_deref(), Some("https://example.org/details/pretty-1"));
    assert_eq!(r.publish_date.as_deref(), Some("2026-09-06T12:34:56+00:00"));
    assert_eq!(r.size, Some(123_456_789));
}

#[test]
fn an_attribute_value_with_an_unknown_entity_fails_only_when_read() {
    let ok: &[u8] = br#"<rss><channel><item><title>T</title><enclosure foo="&bogus;" url="https://e.org/x" /></item></channel></rss>"#;
    assert_eq!(one(ok).download_url.as_deref(), Some("https://e.org/x"));
    let bad: &[u8] = br#"<rss><channel><item><title>T</title><enclosure url="&bogus;" /></item></channel></rss>"#;
    assert!(parse_feed(bad).unwrap_err().starts_with("invalid attribute value: "));
}
