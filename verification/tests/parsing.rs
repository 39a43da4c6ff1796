use dipper::date::normalize_date;
use dipper::feed::{parse_rss, ParseError};

fn feed_doc(items: &str) -> String {
    format!(
        "<?xml version=\"1.0\"?><rss version=\"2.0\"><channel>\
         <title>Test Cast</title>\
         <description>A show about tests</description>\
         <link>https://example.org/</link>\
         <language>en</language>\
         <pubDate>Mon, 02 Oct 2023 10:00:00 GMT</pubDate>\
         <lastBuildDate>Tue, 03 Oct 2023 11:30:00 GMT</lastBuildDate>\
         {}\
         </channel></rss>",
        items
    )
}

fn item(guid: &str, title: &str, desc: &str) -> String {
    format!(
        "<item><guid>{}</guid><title>{}</title><description>{}</description></item>",
        guid, title, desc
    )
}

#[test]
fn parse_carries_source_url_and_channel_fields() {
    let doc = feed_doc("");
    let pod = parse_rss("https://feeds.example.org/cast.xml", &doc).unwrap();
    assert_eq!(pod.rss_url, "https://feeds.example.org/cast.xml");
    assert_eq!(pod.title, "Test Cast");
    assert_eq!(pod.description, "A show about tests");
    assert_eq!(pod.link.as_deref(), Some("https://example.org/"));
    assert_eq!(pod.language.as_deref(), Some("en"));
    assert_eq!(pod.pub_date.as_deref(), Some("2023-10-02"));
    assert_eq!(pod.last_build_date.as_deref(), Some("2023-10-03"));
    assert_eq!(pod.id, -1);
    assert!(pod.episodes.is_empty());
}

#[test]
fn tolerant_parsing_skips_item_missing_guid() {
    // Five items, one of them without a guid: the parse succeeds and
    // yields exactly the four complete episodes, in feed order.
    let items = format!(
        "{}{}{}{}{}",
        item("g1", "one", "d1"),
        item("g2", "two", "d2"),
        "<item><title>broken</title><description>no guid</description></item>",
        item("g4", "four", "d4"),
        item("g5", "five", "d5"),
    );
    let doc = feed_doc(&items);
    let pod = parse_rss("u", &doc).unwrap();
    assert_eq!(pod.episodes.len(), 4);
    let guids: Vec<&str> = pod.episodes.iter().map(|e| e.guid.as_str()).collect();
    assert_eq!(guids, vec!["g1", "g2", "g4", "g5"]);
}

#[test]
fn tolerant_parsing_skips_item_missing_title_or_description() {
    let items = format!(
        "{}{}{}",
        "<item><guid>gx</guid><description>no title</description></item>",
        "<item><guid>gy</guid><title>no description</title></item>",
        item("gz", "ok", "fine"),
    );
    let doc = feed_doc(&items);
    let pod = parse_rss("u", &doc).unwrap();
    assert_eq!(pod.episodes.len(), 1);
    assert_eq!(pod.episodes[0].guid, "gz");
}

#[test]
fn episode_fields_are_normalized() {
    let items = "<item><guid>g1</guid><title>one</title><description>d1</description>\
         <pubDate>Fri, 01 Dec 2023 00:30:00 GMT</pubDate>\
         <link>https://example.org/ep1</link>\
         <enclosure url=\"https://cdn.example.org/ep1.mp3\" length=\"12345\" type=\"audio/mpeg\"/>\
         </item>";
    let doc = feed_doc(items);
    let pod = parse_rss("u", &doc).unwrap();
    assert_eq!(pod.episodes.len(), 1);
    let ep = &pod.episodes[0];
    assert_eq!(ep.title, "one");
    assert_eq!(ep.guid, "g1");
    assert_eq!(ep.description, "d1");
    assert_eq!(ep.pub_date.as_deref(), Some("2023-12-01"));
    assert_eq!(ep.link.as_deref(), Some("https://example.org/ep1"));
    let enc = ep.enclosure.as_ref().unwrap();
    assert_eq!(enc.url, "https://cdn.example.org/ep1.mp3");
    assert_eq!(enc.length.as_deref(), Some("12345"));
    assert_eq!(enc.mime_type.as_deref(), Some("audio/mpeg"));
}

#[test]
fn malformed_episode_date_degrades_to_absent() {
    let items = "<item><guid>g1</guid><title>one</title><description>d1</description>\
         <pubDate>not a date at all</pubDate></item>";
    let doc = feed_doc(items);
    let pod = parse_rss("u", &doc).unwrap();
    assert_eq!(pod.episodes[0].pub_date, None);
}

#[test]
fn unparseable_document_is_rejected() {
    let r = parse_rss("u", "this is not xml");
    assert_eq!(r.unwrap_err(), ParseError::Document);
}

#[test]
fn channel_without_title_is_rejected() {
    let doc = "<?xml version=\"1.0\"?><rss version=\"2.0\"><channel>\
         <description>d</description></channel></rss>";
    let r = parse_rss("u", doc);
    assert_eq!(r.unwrap_err(), ParseError::MissingTitle);
}

#[test]
fn channel_without_description_is_rejected() {
    let doc = "<?xml version=\"1.0\"?><rss version=\"2.0\"><channel>\
         <title>t</title></channel></rss>";
    let r = parse_rss("u", doc);
    assert_eq!(r.unwrap_err(), ParseError::MissingDescription);
}

#[test]
fn date_normalization_rfc2822() {
    let r = normalize_date(Some("Mon, 02 Oct 2023 10:00:00 GMT"));
    assert_eq!(r.as_deref(), Some("2023-10-02"));
}

#[test]
fn date_with_contradictory_weekday_degrades_to_absent() {
    // 2023-10-02 was a Monday; a timestamp claiming it was a Wednesday is
    // self-contradictory and degrades to an absent field, not an error.
    let r = normalize_date(Some("Wed, 02 Oct 2023 10:00:00 GMT"));
    assert_eq!(r, None);
}

#[test]
fn date_normalization_absent_and_malformed() {
    assert_eq!(normalize_date(None), None);
    assert_eq!(normalize_date(Some("yesterday-ish")), None);
}

#[test]
fn date_normalization_pads_fields() {
    let r = normalize_date(Some("Mon, 5 Feb 2024 01:02:03 +0000"));
    assert_eq!(r.as_deref(), Some("2024-02-05"));
}
