//! The canonical record model: a podcast owns its episodes, an episode owns
//! at most one enclosure. Records carry a store-assigned id, `NO_ID` before
//! they are first persisted.

use crate::text::dec_int;
use crate::text::i64_to_string;
use std::io::Write;
use vstd::prelude::*;
use vstd::string::StringExecFns;

verus! {

/// Sentinel id carried by records that have not been persisted yet.
pub const NO_ID: i64 = -1;

/// The downloadable media attachment referenced by an episode.
#[derive(Debug, Clone)]
pub struct Enclosure {
    pub url: String,
    pub length: Option<String>,
    pub mime_type: Option<String>,
}

/// Mathematical model of an enclosure.
#[verifier::ext_equal]
pub struct EnclosureModel {
    pub url: Seq<char>,
    pub length: Option<Seq<char>>,
    pub mime_type: Option<Seq<char>>,
}

impl View for Enclosure {
    type V = EnclosureModel;

    open spec fn view(&self) -> EnclosureModel {
        EnclosureModel {
            url: self.url@,
            length: self.length.deep_view(),
            mime_type: self.mime_type.deep_view(),
        }
    }
}

impl DeepView for Enclosure {
    type V = EnclosureModel;

    open spec fn deep_view(&self) -> EnclosureModel {
        self.view()
    }
}

/// One entry of a feed. The guid is the feed-provided stable identifier and
/// the store-wide dedup key.
#[derive(Debug, Clone)]
pub struct Episode {
    pub title: String,
    pub guid: String,
    pub description: String,
    pub pub_date: Option<String>,
    pub link: Option<String>,
    pub enclosure: Option<Enclosure>,
    pub id: i64,
}

/// Mathematical model of an episode.
#[verifier::ext_equal]
pub struct EpisodeModel {
    pub title: Seq<char>,
    pub guid: Seq<char>,
    pub description: Seq<char>,
    pub pub_date: Option<Seq<char>>,
    pub link: Option<Seq<char>>,
    pub enclosure: Option<EnclosureModel>,
    pub id: int,
}

impl View for Episode {
    type V = EpisodeModel;

    open spec fn view(&self) -> EpisodeModel {
        EpisodeModel {
            title: self.title@,
            guid: self.guid@,
            description: self.description@,
            pub_date: self.pub_date.deep_view(),
            link: self.link.deep_view(),
            enclosure: self.enclosure.deep_view(),
            id: self.id as int,
        }
    }
}

impl DeepView for Episode {
    type V = EpisodeModel;

    open spec fn deep_view(&self) -> EpisodeModel {
        self.view()
    }
}

/// A subscribed feed together with the episodes parsed or loaded for it.
/// The `rss_url` is the feed's external identity and is unique in the store.
#[derive(Debug)]
pub struct Podcast {
    pub title: String,
    pub description: String,
    pub rss_url: String,
    pub link: Option<String>,
    pub language: Option<String>,
    pub pub_date: Option<String>,
    pub last_build_date: Option<String>,
    pub episodes: Vec<Episode>,
    pub id: i64,
}

/// Mathematical model of a podcast.
#[verifier::ext_equal]
pub struct PodcastModel {
    pub title: Seq<char>,
    pub description: Seq<char>,
    pub rss_url: Seq<char>,
    pub link: Option<Seq<char>>,
    pub language: Option<Seq<char>>,
    pub pub_date: Option<Seq<char>>,
    pub last_build_date: Option<Seq<char>>,
    pub episodes: Seq<EpisodeModel>,
    pub id: int,
}

impl View for Podcast {
    type V = PodcastModel;

    open spec fn view(&self) -> PodcastModel {
        PodcastModel {
            title: self.title@,
            description: self.description@,
            rss_url: self.rss_url@,
            link: self.link.deep_view(),
            language: self.language.deep_view(),
            pub_date: self.pub_date.deep_view(),
            last_build_date: self.last_build_date.deep_view(),
            episodes: self.episodes.deep_view(),
            id: self.id as int,
        }
    }
}

impl DeepView for Podcast {
    type V = PodcastModel;

    open spec fn deep_view(&self) -> PodcastModel {
        self.view()
    }
}

/// The one-line rendering of a record: `<id> => <title>`.
pub open spec fn summary_line(id: int, title: Seq<char>) -> Seq<char> {
    dec_int(id) + " => "@ + title
}

/// The detailed rendering: the summary line and a description line.
pub open spec fn detail_lines(id: int, title: Seq<char>, description: Seq<char>) -> Seq<char> {
    summary_line(id, title) + "\nDescription: "@ + description + "\n"@
}

/// Build `<id> => <title>`.
fn render_summary(id: i64, title: &String) -> (r: String)
    ensures
        r@ == summary_line(id as int, title@),
{
    let r = i64_to_string(id).concat(" => ").concat(title.as_str());
    proof {
        assert(r@ =~= summary_line(id as int, title@));
    }
    r
}

/// Build the detailed rendering.
fn render_detail(id: i64, title: &String, description: &String) -> (r: String)
    ensures
        r@ == detail_lines(id as int, title@, description@),
{
    let r = render_summary(id, title).concat("\nDescription: ").concat(
        description.as_str(),
    ).concat("\n");
    proof {
        assert(r@ =~= detail_lines(id as int, title@, description@));
    }
    r
}

/// Relies on std::io::Stdout and the write macros: prints one line to
/// standard output and ignores write errors, as a console sink does.
#[verifier::external_body]
fn emit_line(s: &str) {
    let mut out = std::io::stdout();
    let _ = writeln!(out, "{}", s);
}

impl Podcast {
    /// A fresh, unpersisted podcast with only the required fields set.
    pub fn new(title: String, description: String, rss_url: String) -> (r: Podcast)
        ensures
            r@ == (PodcastModel {
                title: title@,
                description: description@,
                rss_url: rss_url@,
                link: None,
                language: None,
                pub_date: None,
                last_build_date: None,
                episodes: Seq::<EpisodeModel>::empty(),
                id: NO_ID as int,
            }),
    {
        let r = Podcast {
            title,
            description,
            rss_url,
            link: None,
            language: None,
            pub_date: None,
            last_build_date: None,
            episodes: Vec::new(),
            id: NO_ID,
        };
        proof {
            assert(r.episodes.deep_view() =~= Seq::<EpisodeModel>::empty());
        }
        r
    }

    /// The summary or detailed rendering of this podcast.
    pub fn str(&self, detailed: bool) -> (r: String)
        ensures
            !detailed ==> r@ == summary_line(self@.id, self@.title),
            detailed ==> r@ == detail_lines(self@.id, self@.title, self@.description),
    {
        if !detailed {
            render_summary(self.id, &self.title)
        } else {
            render_detail(self.id, &self.title, &self.description)
        }
    }

    /// Print the rendering of this podcast to standard output.
    pub fn print(&self, detailed: bool) {
        let line = self.str(detailed);
        emit_line(line.as_str());
    }
}

impl Episode {
    /// A fresh, unpersisted episode with only the required fields set.
    pub fn new(title: String, guid: String, description: String) -> (r: Episode)
        ensures
            r@ == (EpisodeModel {
                title: title@,
                guid: guid@,
                description: description@,
                pub_date: None,
                link: None,
                enclosure: None,
                id: NO_ID as int,
            }),
    {
        Episode {
            title,
            guid,
            description,
            pub_date: None,
            link: None,
            enclosure: None,
            id: NO_ID,
        }
    }

    /// The summary or detailed rendering of this episode.
    pub fn str(&self, detailed: bool) -> (r: String)
        ensures
            !detailed ==> r@ == summary_line(self@.id, self@.title),
            detailed ==> r@ == detail_lines(self@.id, self@.title, self@.description),
    {
        if !detailed {
            render_summary(self.id, &self.title)
        } else {
            render_detail(self.id, &self.title, &self.description)
        }
    }

    /// Print the rendering of this episode to standard output.
    pub fn print(&self, detailed: bool) {
        let line = self.str(detailed);
        emit_line(line.as_str());
    }
}

} // verus!
