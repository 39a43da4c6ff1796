//! Feed parsing and normalization. A raw feed document is read into a
//! record of plain values, then normalized into the canonical podcast
//! model: required channel fields are checked, dates are normalized, and
//! incomplete items are skipped without failing the channel parse.

use crate::date::spec_normalize_date;
use crate::date::normalize_date;
use crate::podcast::Enclosure;
use crate::podcast::EnclosureModel;
use crate::podcast::Episode;
use crate::podcast::EpisodeModel;
use crate::podcast::Podcast;
use crate::podcast::PodcastModel;
use crate::podcast::NO_ID;
use vstd::prelude::*;

verus! {

/// The enclosure of a feed item, exactly as the document carries it.
pub struct RawEnclosure {
    pub url: String,
    pub length: String,
    pub mime_type: String,
}

/// Mathematical model of a raw enclosure.
#[verifier::ext_equal]
pub struct RawEnclosureModel {
    pub url: Seq<char>,
    pub length: Seq<char>,
    pub mime_type: Seq<char>,
}

impl View for RawEnclosure {
    type V = RawEnclosureModel;

    open spec fn view(&self) -> RawEnclosureModel {
        RawEnclosureModel { url: self.url@, length: self.length@, mime_type: self.mime_type@ }
    }
}

impl DeepView for RawEnclosure {
    type V = RawEnclosureModel;

    open spec fn deep_view(&self) -> RawEnclosureModel {
        self.view()
    }
}

/// One item of a feed document, fields exactly as sourced; any of them may
/// be absent.
pub struct RawItem {
    pub title: Option<String>,
    pub guid: Option<String>,
    pub description: Option<String>,
    pub pub_date: Option<String>,
    pub link: Option<String>,
    pub enclosure: Option<RawEnclosure>,
}

/// Mathematical model of a raw item.
#[verifier::ext_equal]
pub struct RawItemModel {
    pub title: Option<Seq<char>>,
    pub guid: Option<Seq<char>>,
    pub description: Option<Seq<char>>,
    pub pub_date: Option<Seq<char>>,
    pub link: Option<Seq<char>>,
    pub enclosure: Option<RawEnclosureModel>,
}

impl View for RawItem {
    type V = RawItemModel;

    open spec fn view(&self) -> RawItemModel {
        RawItemModel {
            title: self.title.deep_view(),
            guid: self.guid.deep_view(),
            description: self.description.deep_view(),
            pub_date: self.pub_date.deep_view(),
            link: self.link.deep_view(),
            enclosure: self.enclosure.deep_view(),
        }
    }
}

impl DeepView for RawItem {
    type V = RawItemModel;

    open spec fn deep_view(&self) -> RawItemModel {
        self.view()
    }
}

/// A feed document read into plain values: the channel fields the library
/// uses and the item list. Channel title, description and link default to
/// the empty string where the document has none.
pub struct RawFeed {
    pub title: String,
    pub description: String,
    pub link: String,
    pub language: Option<String>,
    pub pub_date: Option<String>,
    pub last_build_date: Option<String>,
    pub items: Vec<RawItem>,
}

/// Mathematical model of a raw feed.
#[verifier::ext_equal]
pub struct RawFeedModel {
    pub title: Seq<char>,
    pub description: Seq<char>,
    pub link: Seq<char>,
    pub language: Option<Seq<char>>,
    pub pub_date: Option<Seq<char>>,
    pub last_build_date: Option<Seq<char>>,
    pub items: Seq<RawItemModel>,
}

impl View for RawFeed {
    type V = RawFeedModel;

    open spec fn view(&self) -> RawFeedModel {
        RawFeedModel {
            title: self.title@,
            description: self.description@,
            link: self.link@,
            language: self.language.deep_view(),
            pub_date: self.pub_date.deep_view(),
            last_build_date: self.last_build_date.deep_view(),
            items: self.items.deep_view(),
        }
    }
}

impl DeepView for RawFeed {
    type V = RawFeedModel;

    open spec fn deep_view(&self) -> RawFeedModel {
        self.view()
    }
}

/// The raw feed that `doc` denotes as an RSS document, or `None` where it
/// is not one. Determined by the characters of `doc` alone; its value is
/// fixed by the feed reader relied on below.
pub uninterp spec fn feed_of(doc: Seq<char>) -> Option<RawFeedModel>;

#[verifier::external_type_specification]
#[verifier::external_body]
pub struct ExRssItem(rss::Item);

/// Relies on the public fields of rss::Item, rss::Guid and rss::Enclosure:
/// moves each field the library reads into its record of plain values.
#[verifier::external_body]
fn raw_item(i: rss::Item) -> (r: RawItem)
{
    let enclosure = i.enclosure.map(|e| RawEnclosure {
        url: e.url,
        length: e.length,
        mime_type: e.mime_type,
    });
    RawItem {
        title: i.title,
        guid: i.guid.map(|g| g.value),
        description: i.description,
        pub_date: i.pub_date,
        link: i.link,
        enclosure,
    }
}

/// Relies on rss::Channel::read_from: whether a byte sequence parses as an
/// RSS channel, and every field extracted from it, depend on the bytes
/// alone. The body only moves the crate's public fields into the library's
/// record of plain values.
#[verifier::external_body]
fn read_feed(doc: &str) -> (r: Option<RawFeed>)
    ensures
        r matches Some(f) ==> feed_of(doc@) == Some(f@),
        r is None ==> feed_of(doc@) is None,
{
    let c = match rss::Channel::read_from(doc.as_bytes()) {
        Ok(c) => c,
        Err(_) => return None,
    };
    let items = c.items.into_iter().map(raw_item).collect();
    Some(RawFeed {
        title: c.title,
        description: c.description,
        link: c.link,
        language: c.language,
        pub_date: c.pub_date,
        last_build_date: c.last_build_date,
        items,
    })
}

/// Why a feed document was rejected as a whole.
#[derive(Clone, Copy, Debug, PartialEq, Eq, Structural)]
pub enum ParseError {
    /// The document is not a well-formed feed.
    Document,
    /// The channel has no title.
    MissingTitle,
    /// The channel has no description.
    MissingDescription,
}

/// An item carries everything a stored episode requires.
pub open spec fn item_complete(i: RawItemModel) -> bool {
    i.guid is Some && i.title is Some && i.description is Some
}

/// The episode a complete item normalizes to: required fields as sourced,
/// publication date normalized, enclosure captured verbatim.
pub open spec fn episode_of_item(i: RawItemModel) -> EpisodeModel {
    EpisodeModel {
        title: i.title.unwrap(),
        guid: i.guid.unwrap(),
        description: i.description.unwrap(),
        pub_date: spec_normalize_date(i.pub_date),
        link: i.link,
        enclosure: match i.enclosure {
            None => None,
            Some(e) => Some(
                EnclosureModel {
                    url: e.url,
                    length: Some(e.length),
                    mime_type: Some(e.mime_type),
                },
            ),
        },
        id: NO_ID as int,
    }
}

/// The episodes a parse yields: the complete items, in feed order, each
/// normalized; incomplete items are skipped.
pub open spec fn episodes_of_items(items: Seq<RawItemModel>) -> Seq<EpisodeModel> {
    items.filter(|i: RawItemModel| item_complete(i)).map_values(
        |i: RawItemModel| episode_of_item(i),
    )
}

/// The podcast a feed normalizes to, or the error that rejects it. The
/// result always carries `url` as its feed identity, whatever URL the
/// document itself embeds.
pub open spec fn spec_parse(url: Seq<char>, f: Option<RawFeedModel>) -> Result<
    PodcastModel,
    ParseError,
> {
    match f {
        None => Err(ParseError::Document),
        Some(c) => if c.title.len() == 0 {
            Err(ParseError::MissingTitle)
        } else if c.description.len() == 0 {
            Err(ParseError::MissingDescription)
        } else {
            Ok(
                PodcastModel {
                    title: c.title,
                    description: c.description,
                    rss_url: url,
                    link: Some(c.link),
                    language: c.language,
                    pub_date: spec_normalize_date(c.pub_date),
                    last_build_date: spec_normalize_date(c.last_build_date),
                    episodes: episodes_of_items(c.items),
                    id: NO_ID as int,
                },
            )
        },
    }
}

/// The model of a parse result.
pub open spec fn parse_result_model(r: Result<Podcast, ParseError>) -> Result<
    PodcastModel,
    ParseError,
> {
    match r {
        Ok(p) => Ok(p@),
        Err(e) => Err(e),
    }
}

/// Appending one item extends the episode list by its normalization
/// exactly when the item is complete.
proof fn lemma_episodes_push(items: Seq<RawItemModel>, x: RawItemModel)
    ensures
        episodes_of_items(items.push(x)) == if item_complete(x) {
            episodes_of_items(items) + seq![episode_of_item(x)]
        } else {
            episodes_of_items(items)
        },
{
    reveal(Seq::filter);
    let pred = |i: RawItemModel| item_complete(i);
    let f = |i: RawItemModel| episode_of_item(i);
    assert(items.push(x).drop_last() =~= items);
    assert(items.push(x).last() == x);
    if item_complete(x) {
        assert(items.push(x).filter(pred) == items.filter(pred).push(x));
        assert(items.filter(pred).push(x).map_values(f) =~= items.filter(pred).map_values(f)
            + seq![episode_of_item(x)]);
    } else {
        assert(items.push(x).filter(pred) == items.filter(pred));
    }
}

/// Copy an optional field out of a feed, absence kept distinct from the
/// empty string.
pub fn extract_podfield(field: Option<&str>) -> (r: Option<String>)
    ensures
        r.deep_view() == field.deep_view(),
{
    match field {
        Some(s) => Some(s.to_owned()),
        None => None,
    }
}

/// Borrow an optional owned string as an optional slice.
fn opt_str(o: &Option<String>) -> (r: Option<&str>)
    ensures
        r.deep_view() == o.deep_view(),
{
    match o {
        Some(s) => Some(s.as_str()),
        None => None,
    }
}

/// Normalize one item, or report that it is incomplete.
fn parse_item(item: &RawItem) -> (r: Option<Episode>)
    ensures
        r is Some <==> item_complete(item@),
        r matches Some(e) ==> e@ == episode_of_item(item@),
{
    let guid = match &item.guid {
        Some(g) => g.clone(),
        None => {
            return None;
        },
    };
    let title = match &item.title {
        Some(t) => t.clone(),
        None => {
            return None;
        },
    };
    let description = match &item.description {
        Some(d) => d.clone(),
        None => {
            return None;
        },
    };
    let mut episode = Episode::new(title, guid, description);
    episode.pub_date = normalize_date(opt_str(&item.pub_date));
    episode.link = extract_podfield(opt_str(&item.link));
    episode.enclosure = match &item.enclosure {
        Some(e) => Some(
            Enclosure {
                url: e.url.clone(),
                length: Some(e.length.clone()),
                mime_type: Some(e.mime_type.clone()),
            },
        ),
        None => None,
    };
    Some(episode)
}

/// Parse a feed document fetched from `url` into a podcast: the channel
/// must be well formed with a non-empty title and description; items
/// missing a guid, title or description are skipped silently; date fields
/// that fail to parse degrade to absent.
#[verifier::loop_isolation(false)]
pub fn parse_rss(url: &str, rss: &str) -> (r: Result<Podcast, ParseError>)
    ensures
        parse_result_model(r) == spec_parse(url@, feed_of(rss@)),
{
    let feed = match read_feed(rss) {
        Some(f) => f,
        None => {
            return Err(ParseError::Document);
        },
    };
    let RawFeed { title, description, link, language, pub_date, last_build_date, items } = feed;
    if title.as_str().is_empty() {
        return Err(ParseError::MissingTitle);
    }
    if description.as_str().is_empty() {
        return Err(ParseError::MissingDescription);
    }
    let mut podcast = Podcast::new(title, description, url.to_owned());
    podcast.link = Some(link);
    podcast.language = language;
    podcast.pub_date = normalize_date(opt_str(&pub_date));
    podcast.last_build_date = normalize_date(opt_str(&last_build_date));
    let ghost items_model = items.deep_view();
    let ghost base = podcast@;
    let mut k: usize = 0;
    while k < items.len()
        invariant
            items.deep_view() == items_model,
            k <= items_model.len(),
            podcast@ == (PodcastModel { episodes: podcast@.episodes, ..base }),
            podcast.episodes.deep_view() == episodes_of_items(items_model.take(k as int)),
        decreases items_model.len() - k,
    {
        proof {
            assert(items_model.take(k + 1 as int) =~= items_model.take(k as int).push(
                items_model[k as int],
            ));
            lemma_episodes_push(items_model.take(k as int), items_model[k as int]);
            assert(items[k as int].deep_view() == items_model[k as int]);
        }
        if let Some(ep) = parse_item(&items[k]) {
            podcast.episodes.push(ep);
            proof {
                assert(podcast.episodes.deep_view() =~= episodes_of_items(
                    items_model.take(k + 1 as int),
                ));
            }
        } else {
            proof {
                assert(podcast.episodes.deep_view() =~= episodes_of_items(
                    items_model.take(k + 1 as int),
                ));
            }
        }
        k = k + 1;
    }
    proof {
        assert(items_model.take(items_model.len() as int) =~= items_model);
        assert(parse_result_model(Ok(podcast)) == spec_parse(url@, feed_of(rss@)));
    }
    Ok(podcast)
}

} // verus!
