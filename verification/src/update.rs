//! The batch update orchestrator: synchronize one stored podcast, or every
//! stored podcast, from fetched feed documents. A document that failed to
//! arrive or to parse marks its podcast failed without stopping the batch;
//! one status line per podcast is produced, in iteration order.

use crate::feed::feed_of;
use crate::feed::parse_rss;
use crate::feed::spec_parse;
use crate::podcast::Podcast;
use crate::podcast::PodcastModel;
use crate::podcast::EpisodeModel;
use crate::store::StoreModel;
use crate::store::Store;
use crate::store::StoreError;
use crate::store::has_pod_id;
use crate::store::pod_by_id;
use crate::store::merge_episodes;
use crate::store::lemma_merge_episodes_frame;
use crate::store::lemma_merge_episodes_snoc;
use crate::store::store_wf;
use vstd::prelude::*;
use vstd::string::StringExecFns;

verus! {

/// Why a targeted update failed: the podcast is absent, its document did
/// not parse, or the store can assign no further episode id.
#[derive(Clone, Copy, Debug, PartialEq, Eq, Structural)]
pub enum UpdateError {
    NotFound,
    Parse,
    Full,
}

/// The status line for a podcast whose update succeeded.
pub open spec fn updated_line(title: Seq<char>) -> Seq<char> {
    "Updated "@ + title + "."@
}

/// The status line for a podcast whose update failed.
pub open spec fn failed_line(title: Seq<char>) -> Seq<char> {
    "Failed to update podcast "@ + title + "."@
}

/// Whether the fetched document for this podcast parses as a feed. A
/// missing document (a transport failure) never parses.
pub open spec fn doc_parses(p: PodcastModel, doc: Option<Seq<char>>) -> bool {
    match doc {
        Some(d) => spec_parse(p.rss_url, feed_of(d)) is Ok,
        None => false,
    }
}

/// The episodes the fetched document yields (meaningful when it parses).
pub open spec fn parsed_episodes(p: PodcastModel, doc: Option<Seq<char>>) -> Seq<EpisodeModel> {
    match doc {
        Some(d) => (spec_parse(p.rss_url, feed_of(d)) ->Ok_0).episodes,
        None => Seq::empty(),
    }
}

/// How many episode ids this podcast's update may consume.
pub open spec fn new_eps_count(p: PodcastModel, doc: Option<Seq<char>>) -> nat {
    if doc_parses(p, doc) {
        parsed_episodes(p, doc).len()
    } else {
        0
    }
}

/// How many episode ids the first `k` podcasts of the batch may consume.
pub open spec fn eps_needed(
    pods: Seq<PodcastModel>,
    docs: Seq<Option<Seq<char>>>,
    k: int,
) -> nat
    decreases k,
{
    if k <= 0 {
        0
    } else {
        eps_needed(pods, docs, k - 1) + new_eps_count(pods[k - 1], docs[k - 1])
    }
}

/// The conservative capacity condition under which a full update is
/// accepted, as if no episode were ignored.
pub open spec fn update_fits(s: StoreModel, docs: Seq<Option<Seq<char>>>) -> bool {
    s.next_episode_id + eps_needed(s.podcasts, docs, docs.len() as int) <= i64::MAX
}

/// The store after one podcast's document is applied: its parsed episodes
/// merged under its stored id, or nothing when the document failed.
pub open spec fn apply_update(s: StoreModel, p: PodcastModel, doc: Option<Seq<char>>) -> StoreModel {
    if doc_parses(p, doc) {
        merge_episodes(s, p.id, parsed_episodes(p, doc))
    } else {
        s
    }
}

/// The store after the first `k` podcasts of the batch are applied, in
/// iteration order.
pub open spec fn update_prefix(
    s: StoreModel,
    pods: Seq<PodcastModel>,
    docs: Seq<Option<Seq<char>>>,
    k: int,
) -> StoreModel
    decreases k,
{
    if k <= 0 {
        s
    } else {
        apply_update(update_prefix(s, pods, docs, k - 1), pods[k - 1], docs[k - 1])
    }
}

/// The store after a full update from these documents.
pub open spec fn spec_update_all(s: StoreModel, docs: Seq<Option<Seq<char>>>) -> StoreModel {
    update_prefix(s, s.podcasts, docs, docs.len() as int)
}

/// The status line of each podcast of the batch, in iteration order.
pub open spec fn update_status(p: PodcastModel, doc: Option<Seq<char>>) -> Seq<char> {
    if doc_parses(p, doc) {
        updated_line(p.title)
    } else {
        failed_line(p.title)
    }
}

/// The status lines of a full update, one per stored podcast, in order.
pub open spec fn update_statuses(
    pods: Seq<PodcastModel>,
    docs: Seq<Option<Seq<char>>>,
) -> Seq<Seq<char>> {
    Seq::new(docs.len(), |i: int| update_status(pods[i], docs[i]))
}

/// The episode need of a prefix never exceeds that of a longer prefix.
proof fn lemma_eps_needed_mono(
    pods: Seq<PodcastModel>,
    docs: Seq<Option<Seq<char>>>,
    a: int,
    b: int,
)
    requires
        a <= b,
    ensures
        eps_needed(pods, docs, a) <= eps_needed(pods, docs, b),
    decreases b - a,
{
    if a < b {
        lemma_eps_needed_mono(pods, docs, a, b - 1);
    }
}

/// Applying one document never touches the podcast relation and consumes
/// at most its episode count of ids.
proof fn lemma_apply_update_frame(s: StoreModel, p: PodcastModel, doc: Option<Seq<char>>)
    ensures
        apply_update(s, p, doc).podcasts == s.podcasts,
        apply_update(s, p, doc).next_podcast_id == s.next_podcast_id,
        s.next_episode_id <= apply_update(s, p, doc).next_episode_id <= s.next_episode_id
            + new_eps_count(p, doc),
{
    if doc_parses(p, doc) {
        lemma_merge_episodes_frame(s, p.id, parsed_episodes(p, doc));
    }
}

/// The same frame conditions for a prefix of the batch.
proof fn lemma_update_prefix_frame(
    s: StoreModel,
    pods: Seq<PodcastModel>,
    docs: Seq<Option<Seq<char>>>,
    k: int,
)
    ensures
        update_prefix(s, pods, docs, k).podcasts == s.podcasts,
        update_prefix(s, pods, docs, k).next_podcast_id == s.next_podcast_id,
        s.next_episode_id <= update_prefix(s, pods, docs, k).next_episode_id
            <= s.next_episode_id + eps_needed(pods, docs, k),
    decreases k,
{
    if k > 0 {
        lemma_update_prefix_frame(s, pods, docs, k - 1);
        lemma_apply_update_frame(update_prefix(s, pods, docs, k - 1), pods[k - 1], docs[k - 1]);
    }
}

/// Build the success status line.
fn make_updated_line(title: &String) -> (r: String)
    ensures
        r@ == updated_line(title@),
{
    let mut s = "Updated ".to_owned();
    s.append(title.as_str());
    s.append(".");
    proof {
        assert(s@ =~= updated_line(title@));
    }
    s
}

/// Build the failure status line.
fn make_failed_line(title: &String) -> (r: String)
    ensures
        r@ == failed_line(title@),
{
    let mut s = "Failed to update podcast ".to_owned();
    s.append(title.as_str());
    s.append(".");
    proof {
        assert(s@ =~= failed_line(title@));
    }
    s
}

impl Store {
    /// Targeted update: merge the episodes that `doc` — fetched for the
    /// stored podcast with this id — parses to, under that id. A missing
    /// podcast, an unparseable document, or an exhausted store each fail
    /// without changing anything; failures here are hard errors for the
    /// caller.
    #[verifier::loop_isolation(false)]
    pub fn update_podcast(&mut self, id: i64, doc: &str) -> (r: Result<String, UpdateError>)
        requires
            store_wf(old(self)@),
        ensures
            store_wf(final(self)@),
            !has_pod_id(old(self)@.podcasts, id as int) ==> r == Err::<String, UpdateError>(
                UpdateError::NotFound,
            ) && final(self)@ == old(self)@,
            has_pod_id(old(self)@.podcasts, id as int) && !doc_parses(
                pod_by_id(old(self)@.podcasts, id as int),
                Some(doc@),
            ) ==> r == Err::<String, UpdateError>(UpdateError::Parse) && final(self)@ == old(
                self,
            )@,
            ({
                let pod = pod_by_id(old(self)@.podcasts, id as int);
                has_pod_id(old(self)@.podcasts, id as int) && doc_parses(pod, Some(doc@))
                    && old(self)@.next_episode_id + parsed_episodes(pod, Some(doc@)).len()
                    <= i64::MAX
            }) ==> (r matches Ok(line) && line@ == updated_line(
                pod_by_id(old(self)@.podcasts, id as int).title,
            ) && final(self)@ == merge_episodes(
                old(self)@,
                id as int,
                parsed_episodes(pod_by_id(old(self)@.podcasts, id as int), Some(doc@)),
            )),
            ({
                let pod = pod_by_id(old(self)@.podcasts, id as int);
                has_pod_id(old(self)@.podcasts, id as int) && doc_parses(pod, Some(doc@))
                    && old(self)@.next_episode_id + parsed_episodes(pod, Some(doc@)).len()
                    > i64::MAX
            }) ==> r == Err::<String, UpdateError>(UpdateError::Full) && final(self)@ == old(
                self,
            )@,
    {
        let ghost s0 = self@;
        let pod = match self.fetch_podcast(id) {
            Ok(p) => p,
            Err(_) => {
                return Err(UpdateError::NotFound);
            },
        };
        let parsed = match parse_rss(pod.rss_url.as_str(), doc) {
            Ok(p) => p,
            Err(_) => {
                return Err(UpdateError::Parse);
            },
        };
        let ghost eps_m = parsed_episodes(pod_by_id(s0.podcasts, id as int), Some(doc@));
        proof {
            assert(parsed.episodes.deep_view() == eps_m);
        }
        let need: u64 = parsed.episodes.len() as u64;
        if need > self.episode_headroom() {
            return Err(UpdateError::Full);
        }
        let mut u: usize = 0;
        while u < parsed.episodes.len()
            invariant
                store_wf(self@),
                u <= eps_m.len(),
                self@ == merge_episodes(s0, id as int, eps_m.take(u as int)),
                self@.podcasts == s0.podcasts,
                self@.next_episode_id <= s0.next_episode_id + u,
            decreases eps_m.len() - u,
        {
            let ghost before = self@;
            proof {
                assert(has_pod_id(before.podcasts, id as int));
                assert(parsed.episodes@[u as int]@ == eps_m[u as int]);
            }
            let res = self.insert_episode(&parsed.episodes[u], id);
            proof {
                assert(res is Ok);
                lemma_merge_episodes_snoc(s0, id as int, eps_m.take(u as int), eps_m[u as int]);
                assert(eps_m.take(u as int).push(eps_m[u as int]) =~= eps_m.take(u + 1 as int));
                crate::store::lemma_merge_episode_frame(before, id as int, eps_m[u as int]);
            }
            u = u + 1;
        }
        proof {
            assert(eps_m.take(eps_m.len() as int) =~= eps_m);
        }
        Ok(make_updated_line(&pod.title))
    }

    /// Full update: given one fetched document (or none, after a transport
    /// failure) per stored podcast, in store order, merge each podcast's
    /// parsed episodes under its id. One podcast's failure never stops the
    /// batch: it yields its failure status line and the batch goes on.
    /// Returns one status line per podcast, in order. A batch that could
    /// exhaust the store's ids is refused whole, leaving the store
    /// unchanged.
    #[verifier::loop_isolation(false)]
    pub fn update_all(&mut self, docs: &Vec<Option<String>>) -> (r: Result<Vec<String>, StoreError>)
        requires
            store_wf(old(self)@),
            docs@.len() == old(self)@.podcasts.len(),
        ensures
            store_wf(final(self)@),
            update_fits(old(self)@, docs.deep_view()) ==> (r matches Ok(lines)
                && lines.deep_view() == update_statuses(old(self)@.podcasts, docs.deep_view())
                && final(self)@ == spec_update_all(old(self)@, docs.deep_view())),
            !update_fits(old(self)@, docs.deep_view()) ==> r == Err::<Vec<String>, StoreError>(
                StoreError::Full,
            ) && final(self)@ == old(self)@,
    {
        let ghost s0 = self@;
        let ghost docs_m = docs.deep_view();
        let pods = self.fetch_all_podcasts();
        let mut parsed: Vec<Option<Podcast>> = Vec::new();
        let mut i: usize = 0;
        while i < docs.len()
            invariant
                i <= docs_m.len(),
                parsed@.len() == i,
                forall|j: int|
                    0 <= j < i ==> match #[trigger] parsed@[j] {
                        Some(pp) => doc_parses(s0.podcasts[j], docs_m[j]) && pp@.episodes
                            == parsed_episodes(s0.podcasts[j], docs_m[j]),
                        None => !doc_parses(s0.podcasts[j], docs_m[j]),
                    },
            decreases docs_m.len() - i,
        {
            let entry: Option<Podcast> = match &docs[i] {
                None => None,
                Some(d) => match parse_rss(pods[i].rss_url.as_str(), d.as_str()) {
                    Ok(p) => Some(p),
                    Err(_) => None,
                },
            };
            proof {
                assert(docs@[i as int].deep_view() == docs_m[i as int]);
                assert(pods@[i as int]@ == s0.podcasts[i as int]);
            }
            parsed.push(entry);
            i = i + 1;
        }
        let ghost headroom0 = i64::MAX - s0.next_episode_id;
        let mut remaining: u64 = self.episode_headroom();
        let mut k: usize = 0;
        while k < parsed.len()
            invariant
                k <= docs_m.len(),
                remaining as int == headroom0 - eps_needed(s0.podcasts, docs_m, k as int),
                eps_needed(s0.podcasts, docs_m, k as int) <= headroom0,
            decreases docs_m.len() - k,
        {
            match &parsed[k] {
                Some(p) => {
                    let l: u64 = p.episodes.len() as u64;
                    proof {
                        assert(l as nat == new_eps_count(s0.podcasts[k as int], docs_m[k as int]));
                    }
                    if l > remaining {
                        proof {
                            lemma_eps_needed_mono(s0.podcasts, docs_m, k + 1 as int, docs_m.len() as int);
                        }
                        return Err(StoreError::Full);
                    }
                    remaining = remaining - l;
                },
                None => {
                    proof {
                        assert(new_eps_count(s0.podcasts[k as int], docs_m[k as int]) == 0);
                    }
                },
            }
            k = k + 1;
        }
        assert(update_fits(s0, docs_m));
        let mut lines: Vec<String> = Vec::new();
        let mut t: usize = 0;
        while t < parsed.len()
            invariant
                store_wf(self@),
                t <= docs_m.len(),
                self@ == update_prefix(s0, s0.podcasts, docs_m, t as int),
                self@.podcasts == s0.podcasts,
                lines.deep_view() == update_statuses(s0.podcasts, docs_m).take(t as int),
            decreases docs_m.len() - t,
        {
            let ghost s_prev = self@;
            proof {
                lemma_update_prefix_frame(s0, s0.podcasts, docs_m, t as int);
            }
            match &parsed[t] {
                None => {
                    lines.push(make_failed_line(&pods[t].title));
                    proof {
                        assert(pods@[t as int]@.title == s0.podcasts[t as int].title);
                        assert(self@ == update_prefix(s0, s0.podcasts, docs_m, t + 1 as int));
                        assert(lines.deep_view() =~= update_statuses(s0.podcasts, docs_m).take(
                            t + 1 as int,
                        ));
                    }
                },
                Some(p) => {
                    let pid = pods[t].id;
                    let ghost eps_m = parsed_episodes(s0.podcasts[t as int], docs_m[t as int]);
                    proof {
                        assert(pid as int == s0.podcasts[t as int].id);
                        assert(p@.episodes == eps_m);
                        assert(has_pod_id(s0.podcasts, pid as int)) by {
                            assert(s0.podcasts[t as int].id == pid as int);
                        }
                        lemma_eps_needed_mono(s0.podcasts, docs_m, t + 1 as int, docs_m.len() as int);
                        assert(s_prev.next_episode_id + eps_m.len() <= i64::MAX);
                    }
                    let mut u: usize = 0;
                    while u < p.episodes.len()
                        invariant
                            store_wf(self@),
                            u <= eps_m.len(),
                            self@ == merge_episodes(s_prev, pid as int, eps_m.take(u as int)),
                            self@.podcasts == s_prev.podcasts,
                            self@.next_episode_id <= s_prev.next_episode_id + u,
                        decreases eps_m.len() - u,
                    {
                        let ghost before = self@;
                        proof {
                            assert(has_pod_id(before.podcasts, pid as int));
                            assert(p.episodes@[u as int]@ == eps_m[u as int]);
                        }
                        let res = self.insert_episode(&p.episodes[u], pid);
                        proof {
                            assert(res is Ok);
                            lemma_merge_episodes_snoc(
                                s_prev,
                                pid as int,
                                eps_m.take(u as int),
                                eps_m[u as int],
                            );
                            assert(eps_m.take(u as int).push(eps_m[u as int]) =~= eps_m.take(
                                u + 1 as int,
                            ));
                            crate::store::lemma_merge_episode_frame(
                                before,
                                pid as int,
                                eps_m[u as int],
                            );
                        }
                        u = u + 1;
                    }
                    lines.push(make_updated_line(&pods[t].title));
                    proof {
                        assert(eps_m.take(eps_m.len() as int) =~= eps_m);
                        assert(self@ == apply_update(s_prev, s0.podcasts[t as int], docs_m[t as int]));
                        assert(self@ == update_prefix(s0, s0.podcasts, docs_m, t + 1 as int));
                        assert(pods@[t as int]@.title == s0.podcasts[t as int].title);
                        assert(lines.deep_view() =~= update_statuses(s0.podcasts, docs_m).take(
                            t + 1 as int,
                        ));
                    }
                },
            }
            t = t + 1;
        }
        proof {
            assert(update_statuses(s0.podcasts, docs_m).take(docs_m.len() as int)
                =~= update_statuses(s0.podcasts, docs_m));
        }
        Ok(lines)
    }
}

} // verus!
