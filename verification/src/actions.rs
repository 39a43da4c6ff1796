//! The catalog's commands, as data plus a verified `run` against a store:
//! listing, adding a fetched feed, listing episodes, and removal. Updating
//! runs through `Store::update_podcast` and `Store::update_all`, with the
//! fetch loop owned by the caller.

use crate::feed::ParseError;
use crate::feed::feed_of;
use crate::feed::parse_rss;
use crate::feed::spec_parse;
use crate::podcast::PodcastModel;
use crate::podcast::detail_lines;
use crate::podcast::summary_line;
use crate::store::Store;
use crate::store::StoreError;
use crate::store::episodes_for;
use crate::store::has_pod_id;
use crate::store::merge_podcast;
use crate::store::pod_by_id;
use crate::store::podcast_fits;
use crate::store::remove_pod;
use crate::store::store_wf;
use crate::text::dec_int;
use crate::text::i64_to_string;
use crate::podcast::EpisodeModel;
use vstd::prelude::*;
use vstd::string::StringExecFns;

verus! {

/// Why a command failed: the feed document was rejected, or the store
/// refused the operation.
#[derive(Clone, Copy, Debug, PartialEq, Eq, Structural)]
pub enum ActionError {
    Parse(ParseError),
    Store(StoreError),
}

/// The rendering of one podcast row, summary or detailed.
pub open spec fn podcast_line(p: PodcastModel, detailed: bool) -> Seq<char> {
    if detailed {
        detail_lines(p.id, p.title, p.description)
    } else {
        summary_line(p.id, p.title)
    }
}

/// The rendering of one episode, summary or detailed.
pub open spec fn episode_line(e: EpisodeModel, detailed: bool) -> Seq<char> {
    if detailed {
        detail_lines(e.id, e.title, e.description)
    } else {
        summary_line(e.id, e.title)
    }
}

/// How many entries a listing shows: a positive limit caps the count,
/// any other limit shows everything.
pub open spec fn list_count(limit: Option<int>, len: nat) -> nat {
    match limit {
        Some(l) => if 0 < l < len {
            l as nat
        } else {
            len
        },
        None => len,
    }
}

/// How many episodes the episode listing shows: a non-negative limit caps
/// the count (zero shows none), a negative one shows everything.
pub open spec fn episode_count(limit: Option<int>, len: nat) -> nat {
    match limit {
        Some(l) => if l < 0 {
            len
        } else if l < len {
            l as nat
        } else {
            len
        },
        None => len,
    }
}

/// The line of the add command.
pub open spec fn added_line(title: Seq<char>) -> Seq<char> {
    "Added "@ + title + "."@
}

/// The line of a successful removal.
pub open spec fn removed_line(title: Seq<char>) -> Seq<char> {
    "Removed "@ + title + "."@
}

/// The line of a removal whose id is absent.
pub open spec fn no_podcast_line(id: int) -> Seq<char> {
    "No podcast with id "@ + dec_int(id) + "."@
}

/// List podcasts: one stored podcast by id, or all of them, each rendered
/// on one line, up to a limit.
pub struct List {
    pub id: Option<i64>,
    pub detailed: bool,
    pub limit: Option<i64>,
}

/// Add a feed by URL: its fetched document is parsed and merged.
pub struct Add {
    pub url: String,
}

/// List the episodes stored for one podcast, up to a limit.
pub struct Episodes {
    pub id: i64,
    pub detailed: bool,
    pub limit: Option<i64>,
}

/// Update stored podcasts: one by id, or every one. The fetch loop is the
/// caller's; the decisions run through `Store::update_podcast` and
/// `Store::update_all`.
pub struct Update {
    pub id: Option<i64>,
}

/// Remove a podcast and its episodes by id.
pub struct Remove {
    pub id: i64,
}

/// The model of an optional limit.
pub open spec fn limit_model(limit: Option<i64>) -> Option<int> {
    match limit {
        Some(l) => Some(l as int),
        None => None,
    }
}

impl List {
    /// One line per listed podcast: the podcast with the selected id, or
    /// the first `limit` stored podcasts (all of them without a positive
    /// limit). A selected id that is absent is an error.
    pub fn run(&self, store: &Store) -> (r: Result<Vec<String>, StoreError>)
        requires
            store_wf(store@),
        ensures
            match self.id {
                Some(id) => {
                    &&& has_pod_id(store@.podcasts, id as int) ==> (r matches Ok(lines)
                        && lines.deep_view() == seq![
                        podcast_line(pod_by_id(store@.podcasts, id as int), self.detailed),
                    ])
                    &&& !has_pod_id(store@.podcasts, id as int) ==> r == Err::<
                        Vec<String>,
                        StoreError,
                    >(StoreError::NotFound)
                },
                None => r matches Ok(lines) && lines.deep_view() == Seq::new(
                    list_count(limit_model(self.limit), store@.podcasts.len()),
                    |i: int| podcast_line(store@.podcasts[i], self.detailed),
                ),
            },
    {
        let mut lines: Vec<String> = Vec::new();
        if let Some(id) = self.id {
            let pod = match store.fetch_podcast(id) {
                Ok(p) => p,
                Err(e) => {
                    return Err(e);
                },
            };
            lines.push(pod.str(self.detailed));
            proof {
                assert(lines.deep_view() =~= seq![
                    podcast_line(pod_by_id(store@.podcasts, id as int), self.detailed),
                ]);
            }
            return Ok(lines);
        }
        let pods = store.fetch_all_podcasts();
        let len = pods.len();
        let count: usize = match self.limit {
            Some(l) => if 0 < l && (l as u64) < (len as u64) {
                proof {
                    assert((l as u64) as nat == l as nat);
                }
                (l as u64) as usize
            } else {
                len
            },
            None => len,
        };
        proof {
            assert(count as nat == list_count(limit_model(self.limit), store@.podcasts.len()));
        }
        let mut i: usize = 0;
        while i < count
            invariant
                count <= pods@.len(),
                pods.deep_view() == store@.podcasts,
                i <= count,
                lines.deep_view() == Seq::new(
                    i as nat,
                    |j: int| podcast_line(store@.podcasts[j], self.detailed),
                ),
            decreases count - i,
        {
            let line = pods[i].str(self.detailed);
            proof {
                assert(pods@[i as int]@ == store@.podcasts[i as int]);
                assert(line@ == podcast_line(store@.podcasts[i as int], self.detailed));
            }
            let ghost prev = lines.deep_view();
            lines.push(line);
            i = i + 1;
            proof {
                assert(lines.deep_view() =~= prev.push(line@));
                assert(prev.push(line@) =~= Seq::new(
                    i as nat,
                    |j: int| podcast_line(store@.podcasts[j], self.detailed),
                ));
            }
        }
        Ok(lines)
    }
}

impl Add {
    /// Parse the document fetched for this action's URL and merge the
    /// result: a rejected document or a full store is an error and leaves
    /// the store unchanged; otherwise the podcast is merged and one
    /// `Added` line names its parsed title.
    pub fn run(&self, store: &mut Store, doc: &str) -> (r: Result<Vec<String>, ActionError>)
        requires
            store_wf(old(store)@),
        ensures
            store_wf(final(store)@),
            ({
                let parsed = spec_parse(self.url@, feed_of(doc@));
                match parsed {
                    Err(e) => r == Err::<Vec<String>, ActionError>(ActionError::Parse(e))
                        && final(store)@ == old(store)@,
                    Ok(pm) => {
                        &&& podcast_fits(old(store)@, pm) ==> (r matches Ok(lines)
                            && lines.deep_view() == seq![added_line(pm.title)] && final(store)@
                            == merge_podcast(old(store)@, pm))
                        &&& !podcast_fits(old(store)@, pm) ==> r == Err::<Vec<String>, ActionError>(
                            ActionError::Store(StoreError::Full),
                        ) && final(store)@ == old(store)@
                    },
                }
            }),
    {
        let pod = match parse_rss(self.url.as_str(), doc) {
            Ok(p) => p,
            Err(e) => {
                return Err(ActionError::Parse(e));
            },
        };
        match store.insert_podcast(&pod) {
            Ok(_) => {},
            Err(e) => {
                return Err(ActionError::Store(e));
            },
        }
        let mut lines: Vec<String> = Vec::new();
        let mut line = "Added ".to_owned();
        line.append(pod.title.as_str());
        line.append(".");
        proof {
            assert(line@ =~= added_line(pod@.title));
        }
        lines.push(line);
        proof {
            assert(lines.deep_view() =~= seq![
                added_line((spec_parse(self.url@, feed_of(doc@)) ->Ok_0).title),
            ]);
        }
        Ok(lines)
    }
}

impl Episodes {
    /// One line per stored episode of the selected podcast, in store
    /// order, up to the limit (a negative limit shows everything). An
    /// absent podcast id is an error.
    pub fn run(&self, store: &Store) -> (r: Result<Vec<String>, StoreError>)
        requires
            store_wf(store@),
        ensures
            has_pod_id(store@.podcasts, self.id as int) ==> (r matches Ok(lines)
                && lines.deep_view() == Seq::new(
                episode_count(
                    limit_model(self.limit),
                    episodes_for(store@.episodes, self.id as int).len(),
                ),
                |i: int| episode_line(episodes_for(store@.episodes, self.id as int)[i], self.detailed),
            )),
            !has_pod_id(store@.podcasts, self.id as int) ==> r == Err::<Vec<String>, StoreError>(
                StoreError::NotFound,
            ),
    {
        let pod = match store.fetch_podcast_and_episodes(self.id) {
            Ok(p) => p,
            Err(e) => {
                return Err(e);
            },
        };
        let ghost eps_m = episodes_for(store@.episodes, self.id as int);
        let elen = pod.episodes.len();
        let count: usize = match self.limit {
            Some(l) => if l < 0 {
                elen
            } else if (l as u64) < (elen as u64) {
                proof {
                    assert((l as u64) as nat == l as nat);
                }
                (l as u64) as usize
            } else {
                elen
            },
            None => elen,
        };
        proof {
            assert(pod.episodes.deep_view() == eps_m);
            assert(count as nat == episode_count(limit_model(self.limit), eps_m.len()));
        }
        let mut lines: Vec<String> = Vec::new();
        let mut i: usize = 0;
        while i < count
            invariant
                count <= pod.episodes@.len(),
                pod.episodes.deep_view() == eps_m,
                i <= count,
                lines.deep_view() == Seq::new(
                    i as nat,
                    |j: int| episode_line(eps_m[j], self.detailed),
                ),
            decreases count - i,
        {
            let line = pod.episodes[i].str(self.detailed);
            proof {
                assert(pod.episodes@[i as int]@ == eps_m[i as int]);
                assert(line@ == episode_line(eps_m[i as int], self.detailed));
            }
            let ghost prev = lines.deep_view();
            lines.push(line);
            i = i + 1;
            proof {
                assert(lines.deep_view() =~= prev.push(line@));
                assert(prev.push(line@) =~= Seq::new(
                    i as nat,
                    |j: int| episode_line(eps_m[j], self.detailed),
                ));
            }
        }
        Ok(lines)
    }
}

impl Remove {
    /// Remove the selected podcast and its episodes, reporting `Removed`
    /// with its title; an absent id changes nothing and reports that no
    /// such podcast exists.
    pub fn run(&self, store: &mut Store) -> (r: Vec<String>)
        requires
            store_wf(old(store)@),
        ensures
            store_wf(final(store)@),
            has_pod_id(old(store)@.podcasts, self.id as int) ==> final(store)@ == remove_pod(
                old(store)@,
                self.id as int,
            ) && r.deep_view() == seq![
                removed_line(pod_by_id(old(store)@.podcasts, self.id as int).title),
            ],
            !has_pod_id(old(store)@.podcasts, self.id as int) ==> final(store)@ == old(store)@
                && r.deep_view() == seq![no_podcast_line(self.id as int)],
    {
        let mut lines: Vec<String> = Vec::new();
        match store.fetch_podcast(self.id) {
            Ok(pod) => {
                store.remove_podcast(self.id);
                let mut line = "Removed ".to_owned();
                line.append(pod.title.as_str());
                line.append(".");
                proof {
                    assert(line@ =~= removed_line(
                        pod_by_id(old(store)@.podcasts, self.id as int).title,
                    ));
                }
                lines.push(line);
                proof {
                    assert(lines.deep_view() =~= seq![
                        removed_line(pod_by_id(old(store)@.podcasts, self.id as int).title),
                    ]);
                }
            },
            Err(_) => {
                let mut line = "No podcast with id ".to_owned();
                line.append(i64_to_string(self.id).as_str());
                line.append(".");
                proof {
                    assert(line@ =~= no_podcast_line(self.id as int));
                }
                lines.push(line);
                proof {
                    assert(lines.deep_view() =~= seq![no_podcast_line(self.id as int)]);
                }
            },
        }
        lines
    }
}

} // verus!
