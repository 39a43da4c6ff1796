//! The persistent store: two relations, podcasts and episodes, with the
//! uniqueness guarantees the catalog relies on. Podcast rows are unique by
//! `rss_url` and id; episode rows are unique by guid, id, and enclosure URL
//! where one is present; every episode row belongs to a stored podcast.
//! Merging is insert-or-ignore on those keys, which makes repeated
//! synchronization idempotent.

use crate::podcast::Episode;
use crate::podcast::EpisodeModel;
use crate::podcast::Podcast;
use crate::podcast::PodcastModel;
use vstd::prelude::*;

verus! {

/// One row of the episode relation: an episode filed under its podcast.
#[derive(Debug)]
pub struct EpisodeRow {
    pub podcast_id: i64,
    pub episode: Episode,
}

/// Mathematical model of an episode row.
#[verifier::ext_equal]
pub struct EpisodeRowModel {
    pub podcast_id: int,
    pub episode: EpisodeModel,
}

impl View for EpisodeRow {
    type V = EpisodeRowModel;

    open spec fn view(&self) -> EpisodeRowModel {
        EpisodeRowModel { podcast_id: self.podcast_id as int, episode: self.episode@ }
    }
}

impl DeepView for EpisodeRow {
    type V = EpisodeRowModel;

    open spec fn deep_view(&self) -> EpisodeRowModel {
        self.view()
    }
}

/// Mathematical model of the store: the two relations in insertion order
/// and the next id each relation will assign.
#[verifier::ext_equal]
pub struct StoreModel {
    pub podcasts: Seq<PodcastModel>,
    pub episodes: Seq<EpisodeRowModel>,
    pub next_podcast_id: int,
    pub next_episode_id: int,
}

/// Why a store operation failed: the requested row is absent, or the store
/// can assign no further id.
#[derive(Clone, Copy, Debug, PartialEq, Eq, Structural)]
pub enum StoreError {
    /// The requested row is absent.
    NotFound,
    /// The store can assign no further id.
    Full,
    /// Rows offered for loading break a uniqueness or integrity guarantee.
    Corrupt,
}

/// Some stored podcast has this feed URL.
pub open spec fn has_url(ps: Seq<PodcastModel>, url: Seq<char>) -> bool {
    exists|i: int| 0 <= i < ps.len() && (#[trigger] ps[i]).rss_url == url
}

/// The index of the podcast with this feed URL (meaningful when `has_url`).
pub open spec fn url_index(ps: Seq<PodcastModel>, url: Seq<char>) -> int {
    choose|i: int| 0 <= i < ps.len() && (#[trigger] ps[i]).rss_url == url
}

/// The id of the podcast with this feed URL (meaningful when `has_url`).
pub open spec fn url_id(ps: Seq<PodcastModel>, url: Seq<char>) -> int {
    ps[url_index(ps, url)].id
}

/// Some stored podcast has this id.
pub open spec fn has_pod_id(ps: Seq<PodcastModel>, id: int) -> bool {
    exists|i: int| 0 <= i < ps.len() && (#[trigger] ps[i]).id == id
}

/// Some episode row carries this guid.
pub open spec fn has_guid(es: Seq<EpisodeRowModel>, guid: Seq<char>) -> bool {
    exists|i: int| 0 <= i < es.len() && (#[trigger] es[i]).episode.guid == guid
}

/// Some episode row carries an enclosure with this URL.
pub open spec fn has_enclosure_url(es: Seq<EpisodeRowModel>, url: Seq<char>) -> bool {
    exists|i: int|
        {
            &&& 0 <= i < es.len()
            &&& match (#[trigger] es[i]).episode.enclosure {
                Some(e) => e.url == url,
                None => false,
            }
        }
}

/// Some episode row has this id.
pub open spec fn has_ep_id(es: Seq<EpisodeRowModel>, id: int) -> bool {
    exists|i: int| 0 <= i < es.len() && (#[trigger] es[i]).episode.id == id
}

/// An insert of this episode is ignored: its guid is already stored, or it
/// carries an enclosure whose URL is already stored.
pub open spec fn episode_blocked(es: Seq<EpisodeRowModel>, e: EpisodeModel) -> bool {
    has_guid(es, e.guid) || match e.enclosure {
        Some(enc) => has_enclosure_url(es, enc.url),
        None => false,
    }
}

/// A podcast row is well formed: id assigned and below the next free one,
/// and no episodes carried inline.
pub open spec fn pod_row_ok(p: PodcastModel, next: int) -> bool {
    1 <= p.id < next && p.episodes.len() == 0
}

/// Two podcast rows do not collide: distinct feed URLs and distinct ids.
pub open spec fn pod_rows_distinct(a: PodcastModel, b: PodcastModel) -> bool {
    a.rss_url != b.rss_url && a.id != b.id
}

/// An episode row is well formed: id assigned and below the next free one.
pub open spec fn ep_row_ok(r: EpisodeRowModel, next: int) -> bool {
    1 <= r.episode.id < next
}

/// Two episode rows do not collide: distinct guids, distinct ids, and
/// distinct enclosure URLs where both rows have one.
pub open spec fn ep_rows_distinct(a: EpisodeRowModel, b: EpisodeRowModel) -> bool {
    &&& a.episode.guid != b.episode.guid
    &&& a.episode.id != b.episode.id
    &&& match (a.episode.enclosure, b.episode.enclosure) {
        (Some(x), Some(y)) => x.url != y.url,
        _ => true,
    }
}

/// No two podcast rows collide on feed URL or id.
pub open spec fn pods_distinct_wf(ps: Seq<PodcastModel>) -> bool {
    forall|i: int, j: int| #![trigger ps[i], ps[j]]
        0 <= i < j < ps.len() ==> pod_rows_distinct(ps[i], ps[j])
}

/// Every podcast row is well formed for the given id bound.
pub open spec fn pods_ranged_wf(ps: Seq<PodcastModel>, next: int) -> bool {
    forall|i: int| 0 <= i < ps.len() ==> pod_row_ok(#[trigger] ps[i], next)
}

/// No two episode rows collide on guid, id, or enclosure URL.
pub open spec fn eps_distinct_wf(es: Seq<EpisodeRowModel>) -> bool {
    forall|i: int, j: int| #![trigger es[i], es[j]]
        0 <= i < j < es.len() ==> ep_rows_distinct(es[i], es[j])
}

/// Every episode row is well formed for the given id bound.
pub open spec fn eps_ranged_wf(es: Seq<EpisodeRowModel>, next: int) -> bool {
    forall|i: int| 0 <= i < es.len() ==> ep_row_ok(#[trigger] es[i], next)
}

/// Every episode row is filed under a stored podcast.
pub open spec fn fk_wf(ps: Seq<PodcastModel>, es: Seq<EpisodeRowModel>) -> bool {
    forall|i: int| 0 <= i < es.len() ==> has_pod_id(ps, (#[trigger] es[i]).podcast_id)
}

/// Well-formedness of the store: every uniqueness guarantee of the two
/// relations, plus referential integrity of episode rows.
pub open spec fn store_wf(s: StoreModel) -> bool {
    &&& 1 <= s.next_podcast_id <= i64::MAX
    &&& 1 <= s.next_episode_id <= i64::MAX
    &&& pods_distinct_wf(s.podcasts)
    &&& pods_ranged_wf(s.podcasts, s.next_podcast_id)
    &&& eps_distinct_wf(s.episodes)
    &&& eps_ranged_wf(s.episodes, s.next_episode_id)
    &&& fk_wf(s.podcasts, s.episodes)
}

/// The model of the empty store.
pub open spec fn empty_store() -> StoreModel {
    StoreModel {
        podcasts: Seq::empty(),
        episodes: Seq::empty(),
        next_podcast_id: 1,
        next_episode_id: 1,
    }
}

/// Insert-or-ignore of one episode under podcast `pid`: a blocked episode
/// leaves the store unchanged; otherwise the row is appended under the next
/// episode id.
pub open spec fn merge_episode(s: StoreModel, pid: int, e: EpisodeModel) -> StoreModel {
    if episode_blocked(s.episodes, e) {
        s
    } else {
        StoreModel {
            episodes: s.episodes.push(
                EpisodeRowModel {
                    podcast_id: pid,
                    episode: EpisodeModel { id: s.next_episode_id, ..e },
                },
            ),
            next_episode_id: s.next_episode_id + 1,
            ..s
        }
    }
}

/// Insert-or-ignore of a sequence of episodes, first to last.
pub open spec fn merge_episodes(s: StoreModel, pid: int, eps: Seq<EpisodeModel>) -> StoreModel
    decreases eps.len(),
{
    if eps.len() == 0 {
        s
    } else {
        merge_episodes(merge_episode(s, pid, eps[0]), pid, eps.skip(1))
    }
}

/// The row stored for a podcast: its channel fields, the given id, and no
/// inline episodes.
pub open spec fn podcast_row(p: PodcastModel, id: int) -> PodcastModel {
    PodcastModel { id: id, episodes: Seq::empty(), ..p }
}

/// The id under which this podcast's episodes are filed: the id of the
/// stored row with the same feed URL, or the next free id when the URL is
/// new.
pub open spec fn resolved_pod_id(s: StoreModel, p: PodcastModel) -> int {
    if has_url(s.podcasts, p.rss_url) {
        url_id(s.podcasts, p.rss_url)
    } else {
        s.next_podcast_id
    }
}

/// Insert-or-ignore of a whole podcast: the podcast row is appended only
/// when its feed URL is new, then each of its episodes is merged under the
/// resolved id.
pub open spec fn merge_podcast(s: StoreModel, p: PodcastModel) -> StoreModel {
    let s1 = if has_url(s.podcasts, p.rss_url) {
        s
    } else {
        StoreModel {
            podcasts: s.podcasts.push(podcast_row(p, s.next_podcast_id)),
            next_podcast_id: s.next_podcast_id + 1,
            ..s
        }
    };
    merge_episodes(s1, resolved_pod_id(s, p), p.episodes)
}

/// The conservative capacity condition under which a merge is accepted:
/// one podcast id and one episode id per parsed episode must be free, as
/// if nothing were ignored.
pub open spec fn podcast_fits(s: StoreModel, p: PodcastModel) -> bool {
    s.next_podcast_id < i64::MAX && s.next_episode_id + p.episodes.len() <= i64::MAX
}

/// Merging one episode never touches the podcast relation, the next
/// podcast id, or existing episode rows, and consumes at most one id.
pub proof fn lemma_merge_episode_frame(s: StoreModel, pid: int, e: EpisodeModel)
    ensures
        merge_episode(s, pid, e).podcasts == s.podcasts,
        merge_episode(s, pid, e).next_podcast_id == s.next_podcast_id,
        s.next_episode_id <= merge_episode(s, pid, e).next_episode_id <= s.next_episode_id + 1,
        s.episodes.is_prefix_of(merge_episode(s, pid, e).episodes),
{
    if !episode_blocked(s.episodes, e) {
        assert(s.episodes.is_prefix_of(merge_episode(s, pid, e).episodes)) by {
            assert(merge_episode(s, pid, e).episodes.take(s.episodes.len() as int)
                =~= s.episodes);
        }
    }
}

/// The same frame conditions for a whole sequence of episodes.
pub proof fn lemma_merge_episodes_frame(s: StoreModel, pid: int, eps: Seq<EpisodeModel>)
    ensures
        merge_episodes(s, pid, eps).podcasts == s.podcasts,
        merge_episodes(s, pid, eps).next_podcast_id == s.next_podcast_id,
        s.next_episode_id <= merge_episodes(s, pid, eps).next_episode_id <= s.next_episode_id
            + eps.len(),
        s.episodes.is_prefix_of(merge_episodes(s, pid, eps).episodes),
    decreases eps.len(),
{
    if eps.len() == 0 {
        assert(s.episodes.is_prefix_of(s.episodes)) by {
            assert(s.episodes.take(s.episodes.len() as int) =~= s.episodes);
        }
    } else {
        lemma_merge_episode_frame(s, pid, eps[0]);
        lemma_merge_episodes_frame(merge_episode(s, pid, eps[0]), pid, eps.skip(1));
        let s1 = merge_episode(s, pid, eps[0]);
        let s2 = merge_episodes(s1, pid, eps.skip(1));
        assert(s.episodes.is_prefix_of(s2.episodes)) by {
            assert(s1.episodes.take(s.episodes.len() as int) =~= s.episodes);
            assert(s2.episodes.take(s1.episodes.len() as int) =~= s1.episodes);
            assert(s2.episodes.take(s.episodes.len() as int) =~= s.episodes);
        }
    }
}

/// Folding one more episode at the right end.
pub proof fn lemma_merge_episodes_snoc(
    s: StoreModel,
    pid: int,
    eps: Seq<EpisodeModel>,
    e: EpisodeModel,
)
    ensures
        merge_episodes(s, pid, eps.push(e)) == merge_episode(merge_episodes(s, pid, eps), pid, e),
    decreases eps.len(),
{
    if eps.len() == 0 {
        assert(eps.push(e)[0] == e);
        assert(eps.push(e).skip(1) =~= Seq::<EpisodeModel>::empty());
        assert(merge_episodes(s, pid, eps.push(e)) == merge_episodes(
            merge_episode(s, pid, e),
            pid,
            Seq::<EpisodeModel>::empty(),
        ));
        assert(merge_episodes(merge_episode(s, pid, e), pid, Seq::<EpisodeModel>::empty())
            == merge_episode(s, pid, e));
        assert(merge_episodes(s, pid, eps) == s);
    } else {
        assert(eps.push(e)[0] == eps[0]);
        assert(eps.push(e).skip(1) =~= eps.skip(1).push(e));
        let s1 = merge_episode(s, pid, eps[0]);
        lemma_merge_episodes_snoc(s1, pid, eps.skip(1), e);
        assert(merge_episodes(s, pid, eps.push(e)) == merge_episodes(s1, pid, eps.skip(1).push(e)));
        assert(merge_episodes(s, pid, eps) == merge_episodes(s1, pid, eps.skip(1)));
    }
}

/// Merging one episode preserves well-formedness, provided the podcast it
/// is filed under exists.
pub proof fn lemma_merge_episode_wf(s: StoreModel, pid: int, e: EpisodeModel)
    requires
        store_wf(s),
        has_pod_id(s.podcasts, pid),
        s.next_episode_id < i64::MAX || episode_blocked(s.episodes, e),
    ensures
        store_wf(merge_episode(s, pid, e)),
{
    if !episode_blocked(s.episodes, e) {
        let s2 = merge_episode(s, pid, e);
        let n = s.episodes.len() as int;
        assert(forall|i: int| 0 <= i < n ==> s2.episodes[i] == s.episodes[i]);
        assert(forall|i: int, j: int| #![trigger s2.episodes[i], s2.episodes[j]]
            0 <= i < j < s2.episodes.len() ==> ep_rows_distinct(s2.episodes[i], s2.episodes[j]))
            by {
            assert forall|i: int, j: int|
                0 <= i < j < s2.episodes.len() implies ep_rows_distinct(
                #[trigger] s2.episodes[i],
                #[trigger] s2.episodes[j],
            ) by {
                if j < n {
                    assert(ep_rows_distinct(s.episodes[i], s.episodes[j]));
                } else {
                    assert(s2.episodes[i] == s.episodes[i]);
                    assert(!has_guid(s.episodes, e.guid));
                    assert(s.episodes[i].episode.guid != e.guid);
                    assert(ep_row_ok(s.episodes[i], s.next_episode_id));
                    match (s.episodes[i].episode.enclosure, e.enclosure) {
                        (Some(x), Some(y)) => {
                            assert(!has_enclosure_url(s.episodes, y.url));
                            assert(x.url != y.url);
                        },
                        _ => {},
                    }
                }
            }
        }
        assert(forall|i: int|
            0 <= i < s2.episodes.len() ==> ep_row_ok(#[trigger] s2.episodes[i], s2.next_episode_id)
                && has_pod_id(s2.podcasts, s2.episodes[i].podcast_id)) by {
            assert forall|i: int| 0 <= i < s2.episodes.len() implies ep_row_ok(
                #[trigger] s2.episodes[i],
                s2.next_episode_id,
            ) && has_pod_id(s2.podcasts, s2.episodes[i].podcast_id) by {
                if i < n {
                    assert(ep_row_ok(s.episodes[i], s.next_episode_id));
                    assert(has_pod_id(s.podcasts, s.episodes[i].podcast_id));
                } else {
                    assert(s2.episodes[i].episode.id == s.next_episode_id);
                }
            }
        }
    }
}

/// The index of the podcast with this id (meaningful when `has_pod_id`).
pub open spec fn pod_index(ps: Seq<PodcastModel>, id: int) -> int {
    choose|i: int| 0 <= i < ps.len() && (#[trigger] ps[i]).id == id
}

/// The stored podcast row with this id (meaningful when `has_pod_id`).
pub open spec fn pod_by_id(ps: Seq<PodcastModel>, id: int) -> PodcastModel {
    ps[pod_index(ps, id)]
}

/// The index of the episode row with this id (meaningful when `has_ep_id`).
pub open spec fn ep_index(es: Seq<EpisodeRowModel>, id: int) -> int {
    choose|i: int| 0 <= i < es.len() && (#[trigger] es[i]).episode.id == id
}

/// The stored episode with this id (meaningful when `has_ep_id`).
pub open spec fn ep_by_id(es: Seq<EpisodeRowModel>, id: int) -> EpisodeModel {
    es[ep_index(es, id)].episode
}

/// The episodes filed under podcast `pid`, in insertion order.
pub open spec fn episodes_for(es: Seq<EpisodeRowModel>, pid: int) -> Seq<EpisodeModel> {
    es.filter(|r: EpisodeRowModel| r.podcast_id == pid).map_values(|r: EpisodeRowModel| r.episode)
}

/// A podcast matches a search term when its title or description contains
/// the term, case-insensitively.
pub open spec fn pod_matches(p: PodcastModel, term: Seq<char>) -> bool {
    crate::text::contains_ci(p.title, term) || crate::text::contains_ci(p.description, term)
}

/// The stored podcasts matching a search term, in insertion order.
pub open spec fn searched_podcasts(ps: Seq<PodcastModel>, term: Seq<char>) -> Seq<PodcastModel> {
    ps.filter(|p: PodcastModel| pod_matches(p, term))
}

/// An episode row matches a search when its title or description contains
/// the term case-insensitively, or when a podcast is selected (a non-zero
/// `arg`) and the row is filed under it.
pub open spec fn ep_matches(r: EpisodeRowModel, term: Seq<char>, arg: int) -> bool {
    ||| crate::text::contains_ci(r.episode.title, term)
    ||| crate::text::contains_ci(r.episode.description, term)
    ||| (arg != 0 && r.podcast_id == arg)
}

/// The stored episodes matching a search, in insertion order.
pub open spec fn searched_episodes(es: Seq<EpisodeRowModel>, term: Seq<char>, arg: int) -> Seq<
    EpisodeModel,
> {
    es.filter(|r: EpisodeRowModel| ep_matches(r, term, arg)).map_values(
        |r: EpisodeRowModel| r.episode,
    )
}

/// The store after a podcast and everything filed under it are removed.
/// Removing an absent id changes nothing.
pub open spec fn remove_pod(s: StoreModel, id: int) -> StoreModel {
    StoreModel {
        podcasts: s.podcasts.filter(|p: PodcastModel| p.id != id),
        episodes: s.episodes.filter(|r: EpisodeRowModel| r.podcast_id != id),
        ..s
    }
}

/// Filtering distributes over appending one element.
proof fn lemma_filter_push<A>(s: Seq<A>, pred: spec_fn(A) -> bool, x: A)
    ensures
        s.push(x).filter(pred) == if pred(x) {
            s.filter(pred).push(x)
        } else {
            s.filter(pred)
        },
{
    reveal(Seq::filter);
    assert(s.push(x).drop_last() =~= s);
    assert(s.push(x).last() == x);
    if pred(x) {
        assert(s.push(x).filter(pred) =~= s.filter(pred).push(x));
    }
}

/// Every element of a filtered sequence comes from the sequence.
proof fn lemma_filter_elem_from<A>(s: Seq<A>, pred: spec_fn(A) -> bool, m: int)
    requires
        0 <= m < s.filter(pred).len(),
    ensures
        exists|k: int| 0 <= k < s.len() && #[trigger] s[k] == s.filter(pred)[m],
    decreases s.len(),
{
    reveal(Seq::filter);
    let f = s.filter(pred);
    let fd = s.drop_last().filter(pred);
    if m < fd.len() {
        lemma_filter_elem_from(s.drop_last(), pred, m);
        let k = choose|k: int|
            0 <= k < s.drop_last().len() && #[trigger] s.drop_last()[k] == fd[m];
        assert(s[k] == f[m]);
    } else {
        assert(s[s.len() - 1] == f[m]);
    }
}

/// Two elements of a filtered sequence, in order, come from the sequence
/// in the same order.
proof fn lemma_filter_pair_from<A>(s: Seq<A>, pred: spec_fn(A) -> bool, i: int, j: int)
    requires
        0 <= i < j < s.filter(pred).len(),
    ensures
        exists|k1: int, k2: int|
            0 <= k1 < k2 < s.len() && #[trigger] s[k1] == s.filter(pred)[i] && #[trigger] s[k2]
                == s.filter(pred)[j],
    decreases s.len(),
{
    reveal(Seq::filter);
    let f = s.filter(pred);
    let fd = s.drop_last().filter(pred);
    if j < fd.len() {
        lemma_filter_pair_from(s.drop_last(), pred, i, j);
        let (k1, k2) = choose|k1: int, k2: int|
            0 <= k1 < k2 < s.drop_last().len() && #[trigger] s.drop_last()[k1] == fd[i] && #[trigger] s.drop_last()[k2] == fd[j];
        assert(s[k1] == f[i] && s[k2] == f[j]);
    } else {
        lemma_filter_elem_from(s.drop_last(), pred, i);
        let k1 = choose|k: int|
            0 <= k < s.drop_last().len() && #[trigger] s.drop_last()[k] == fd[i];
        assert(s[k1] == f[i]);
        assert(s[s.len() - 1] == f[j]);
    }
}

/// Removing a podcast preserves well-formedness.
pub proof fn lemma_remove_wf(s: StoreModel, id: int)
    requires
        store_wf(s),
    ensures
        store_wf(remove_pod(s, id)),
{
    let s2 = remove_pod(s, id);
    let ppred = |p: PodcastModel| p.id != id;
    let epred = |r: EpisodeRowModel| r.podcast_id != id;
    assert forall|i: int, j: int|
        0 <= i < j < s2.podcasts.len() implies pod_rows_distinct(
        #[trigger] s2.podcasts[i],
        #[trigger] s2.podcasts[j],
    ) by {
        lemma_filter_pair_from(s.podcasts, ppred, i, j);
        let (k1, k2) = choose|k1: int, k2: int|
            0 <= k1 < k2 < s.podcasts.len() && #[trigger] s.podcasts[k1] == s2.podcasts[i]
                && #[trigger] s.podcasts[k2] == s2.podcasts[j];
        assert(pod_rows_distinct(s.podcasts[k1], s.podcasts[k2]));
    }
    assert forall|i: int| 0 <= i < s2.podcasts.len() implies pod_row_ok(
        #[trigger] s2.podcasts[i],
        s2.next_podcast_id,
    ) by {
        lemma_filter_elem_from(s.podcasts, ppred, i);
        let k = choose|k: int|
            0 <= k < s.podcasts.len() && #[trigger] s.podcasts[k] == s2.podcasts[i];
        assert(pod_row_ok(s.podcasts[k], s.next_podcast_id));
    }
    assert forall|i: int, j: int|
        0 <= i < j < s2.episodes.len() implies ep_rows_distinct(
        #[trigger] s2.episodes[i],
        #[trigger] s2.episodes[j],
    ) by {
        lemma_filter_pair_from(s.episodes, epred, i, j);
        let (k1, k2) = choose|k1: int, k2: int|
            0 <= k1 < k2 < s.episodes.len() && #[trigger] s.episodes[k1] == s2.episodes[i]
                && #[trigger] s.episodes[k2] == s2.episodes[j];
        assert(ep_rows_distinct(s.episodes[k1], s.episodes[k2]));
    }
    assert forall|i: int| 0 <= i < s2.episodes.len() implies ep_row_ok(
        #[trigger] s2.episodes[i],
        s2.next_episode_id,
    ) && has_pod_id(s2.podcasts, s2.episodes[i].podcast_id) by {
        lemma_filter_elem_from(s.episodes, epred, i);
        let k = choose|k: int|
            0 <= k < s.episodes.len() && #[trigger] s.episodes[k] == s2.episodes[i];
        assert(ep_row_ok(s.episodes[k], s.next_episode_id));
        assert(has_pod_id(s.podcasts, s.episodes[k].podcast_id));
        assert(s.episodes.filter(epred).contains(s.episodes[k]));
        assert(epred(s.episodes[k]));
        let w = choose|w: int|
            0 <= w < s.podcasts.len() && (#[trigger] s.podcasts[w]).id
                == s.episodes[k].podcast_id;
        assert(ppred(s.podcasts[w]));
        s.podcasts.lemma_filter_contains(ppred, w);
        assert(s2.podcasts.contains(s.podcasts[w]));
        let v = choose|v: int|
            0 <= v < s2.podcasts.len() && #[trigger] s2.podcasts[v] == s.podcasts[w];
        assert(s2.podcasts[v].id == s2.episodes[i].podcast_id);
    }
}


/// Appending one row extends the episodes filed under `pid` exactly when
/// the row is filed there.
proof fn lemma_episodes_for_push(es: Seq<EpisodeRowModel>, pid: int, x: EpisodeRowModel)
    ensures
        episodes_for(es.push(x), pid) == if x.podcast_id == pid {
            episodes_for(es, pid).push(x.episode)
        } else {
            episodes_for(es, pid)
        },
{
    let pred = |r: EpisodeRowModel| r.podcast_id == pid;
    let g = |r: EpisodeRowModel| r.episode;
    lemma_filter_push(es, pred, x);
    if x.podcast_id == pid {
        assert(es.filter(pred).push(x).map_values(g) =~= es.filter(pred).map_values(g).push(
            x.episode,
        ));
    }
}

/// Appending one row extends a search result exactly when the row matches.
proof fn lemma_searched_episodes_push(
    es: Seq<EpisodeRowModel>,
    term: Seq<char>,
    arg: int,
    x: EpisodeRowModel,
)
    ensures
        searched_episodes(es.push(x), term, arg) == if ep_matches(x, term, arg) {
            searched_episodes(es, term, arg).push(x.episode)
        } else {
            searched_episodes(es, term, arg)
        },
{
    let pred = |r: EpisodeRowModel| ep_matches(r, term, arg);
    let g = |r: EpisodeRowModel| r.episode;
    lemma_filter_push(es, pred, x);
    if ep_matches(x, term, arg) {
        assert(es.filter(pred).push(x).map_values(g) =~= es.filter(pred).map_values(g).push(
            x.episode,
        ));
    }
}

/// Copy an optional owned string.
fn clone_opt_string(o: &Option<String>) -> (r: Option<String>)
    ensures
        r.deep_view() == o.deep_view(),
{
    match o {
        Some(s) => Some(s.clone()),
        None => None,
    }
}

/// Copy an episode, giving the copy the id under which it is stored.
fn clone_episode_with_id(e: &Episode, id: i64) -> (r: Episode)
    ensures
        r@ == (EpisodeModel { id: id as int, ..e@ }),
{
    Episode {
        title: e.title.clone(),
        guid: e.guid.clone(),
        description: e.description.clone(),
        pub_date: clone_opt_string(&e.pub_date),
        link: clone_opt_string(&e.link),
        enclosure: match &e.enclosure {
            Some(enc) => Some(
                crate::podcast::Enclosure {
                    url: enc.url.clone(),
                    length: clone_opt_string(&enc.length),
                    mime_type: clone_opt_string(&enc.mime_type),
                },
            ),
            None => None,
        },
        id,
    }
}

/// Copy a podcast into the row stored for it: channel fields kept, the
/// given id, no inline episodes.
fn clone_podcast_row(p: &Podcast, id: i64) -> (r: Podcast)
    ensures
        r@ == podcast_row(p@, id as int),
{
    let r = Podcast {
        title: p.title.clone(),
        description: p.description.clone(),
        rss_url: p.rss_url.clone(),
        link: clone_opt_string(&p.link),
        language: clone_opt_string(&p.language),
        pub_date: clone_opt_string(&p.pub_date),
        last_build_date: clone_opt_string(&p.last_build_date),
        episodes: Vec::new(),
        id,
    };
    proof {
        assert(r.episodes.deep_view() =~= Seq::<EpisodeModel>::empty());
        assert(r@ =~= podcast_row(p@, id as int));
    }
    r
}

/// The store itself: the two relations in insertion order and the next id
/// each will assign.
#[derive(Debug)]
pub struct Store {
    podcasts: Vec<Podcast>,
    episodes: Vec<EpisodeRow>,
    next_podcast_id: i64,
    next_episode_id: i64,
}

impl View for Store {
    type V = StoreModel;

    closed spec fn view(&self) -> StoreModel {
        StoreModel {
            podcasts: self.podcasts.deep_view(),
            episodes: self.episodes.deep_view(),
            next_podcast_id: self.next_podcast_id as int,
            next_episode_id: self.next_episode_id as int,
        }
    }
}

impl Store {
    /// An empty store.
    pub fn new() -> (r: Store)
        ensures
            r@ == empty_store(),
            store_wf(r@),
    {
        let r = Store {
            podcasts: Vec::new(),
            episodes: Vec::new(),
            next_podcast_id: 1,
            next_episode_id: 1,
        };
        proof {
            assert(r.podcasts.deep_view() =~= Seq::<PodcastModel>::empty());
            assert(r.episodes.deep_view() =~= Seq::<EpisodeRowModel>::empty());
            assert(r@ =~= empty_store());
        }
        r
    }

    /// The index of the first stored podcast with this feed URL.
    fn find_by_url(&self, url: &String) -> (r: Option<usize>)
        ensures
            match r {
                Some(i) => 0 <= i < self@.podcasts.len() && self@.podcasts[i as int].rss_url
                    == url@,
                None => !has_url(self@.podcasts, url@),
            },
    {
        let mut i: usize = 0;
        while i < self.podcasts.len()
            invariant
                i <= self@.podcasts.len(),
                self@.podcasts.len() == self.podcasts@.len(),
                forall|j: int| 0 <= j < i ==> (#[trigger] self@.podcasts[j]).rss_url != url@,
            decreases self@.podcasts.len() - i,
        {
            if self.podcasts[i].rss_url.eq(url) {
                return Some(i);
            }
            i = i + 1;
        }
        None
    }

    /// Whether some stored podcast has this id.
    fn has_pod_id_exec(&self, id: i64) -> (r: bool)
        ensures
            r == has_pod_id(self@.podcasts, id as int),
    {
        let mut i: usize = 0;
        while i < self.podcasts.len()
            invariant
                i <= self@.podcasts.len(),
                self@.podcasts.len() == self.podcasts@.len(),
                forall|j: int| 0 <= j < i ==> (#[trigger] self@.podcasts[j]).id != id as int,
            decreases self@.podcasts.len() - i,
        {
            if self.podcasts[i].id == id {
                proof {
                    assert(self@.podcasts[i as int].id == id as int);
                }
                return true;
            }
            i = i + 1;
        }
        false
    }

    /// Whether some episode row carries this guid.
    fn has_guid_exec(&self, guid: &String) -> (r: bool)
        ensures
            r == has_guid(self@.episodes, guid@),
    {
        let mut i: usize = 0;
        while i < self.episodes.len()
            invariant
                i <= self@.episodes.len(),
                self@.episodes.len() == self.episodes@.len(),
                forall|j: int| 0 <= j < i ==> (#[trigger] self@.episodes[j]).episode.guid != guid@,
            decreases self@.episodes.len() - i,
        {
            if self.episodes[i].episode.guid.eq(guid) {
                proof {
                    assert(self@.episodes[i as int].episode.guid == guid@);
                }
                return true;
            }
            i = i + 1;
        }
        false
    }

    /// Whether some episode row carries an enclosure with this URL.
    fn has_enclosure_url_exec(&self, url: &String) -> (r: bool)
        ensures
            r == has_enclosure_url(self@.episodes, url@),
    {
        let mut i: usize = 0;
        while i < self.episodes.len()
            invariant
                i <= self@.episodes.len(),
                self@.episodes.len() == self.episodes@.len(),
                forall|j: int|
                    0 <= j < i ==> !(match (#[trigger] self@.episodes[j]).episode.enclosure {
                        Some(e) => e.url == url@,
                        None => false,
                    }),
            decreases self@.episodes.len() - i,
        {
            let hit = match &self.episodes[i].episode.enclosure {
                Some(enc) => enc.url.eq(url),
                None => false,
            };
            if hit {
                proof {
                    assert(match self@.episodes[i as int].episode.enclosure {
                        Some(e) => e.url == url@,
                        None => false,
                    });
                }
                return true;
            }
            i = i + 1;
        }
        false
    }

    /// Whether an insert of this episode would be ignored.
    fn episode_blocked_exec(&self, episode: &Episode) -> (r: bool)
        ensures
            r == episode_blocked(self@.episodes, episode@),
    {
        if self.has_guid_exec(&episode.guid) {
            return true;
        }
        match &episode.enclosure {
            Some(enc) => self.has_enclosure_url_exec(&enc.url),
            None => false,
        }
    }

    /// Insert-or-ignore one episode under the podcast with id `podcast_id`.
    /// An episode whose guid or enclosure URL is already stored is ignored
    /// silently; a missing podcast is an error; a store whose episode ids
    /// are exhausted reports itself full and stays unchanged.
    pub fn insert_episode(&mut self, episode: &Episode, podcast_id: i64) -> (r: Result<
        (),
        StoreError,
    >)
        requires
            store_wf(old(self)@),
        ensures
            store_wf(final(self)@),
            !has_pod_id(old(self)@.podcasts, podcast_id as int) ==> r == Err::<(), StoreError>(
                StoreError::NotFound,
            ) && final(self)@ == old(self)@,
            has_pod_id(old(self)@.podcasts, podcast_id as int) && (episode_blocked(
                old(self)@.episodes,
                episode@,
            ) || old(self)@.next_episode_id < i64::MAX) ==> r is Ok && final(self)@ == merge_episode(
                old(self)@,
                podcast_id as int,
                episode@,
            ),
            has_pod_id(old(self)@.podcasts, podcast_id as int) && !episode_blocked(
                old(self)@.episodes,
                episode@,
            ) && old(self)@.next_episode_id == i64::MAX ==> r == Err::<(), StoreError>(
                StoreError::Full,
            ) && final(self)@ == old(self)@,
    {
        if !self.has_pod_id_exec(podcast_id) {
            return Err(StoreError::NotFound);
        }
        if self.episode_blocked_exec(episode) {
            return Ok(());
        }
        if self.next_episode_id == i64::MAX {
            return Err(StoreError::Full);
        }
        let row = EpisodeRow {
            podcast_id,
            episode: clone_episode_with_id(episode, self.next_episode_id),
        };
        self.episodes.push(row);
        self.next_episode_id = self.next_episode_id + 1;
        proof {
            assert(self.episodes.deep_view() =~= old(self).episodes.deep_view().push(
                EpisodeRowModel {
                    podcast_id: podcast_id as int,
                    episode: EpisodeModel { id: old(self)@.next_episode_id, ..episode@ },
                },
            ));
            assert(self@ =~= merge_episode(old(self)@, podcast_id as int, episode@));
            lemma_merge_episode_wf(old(self)@, podcast_id as int, episode@);
        }
        Ok(())
    }

    /// Insert-or-ignore a whole podcast: the podcast row is added only when
    /// its feed URL is new, the effective id is re-resolved from the stored
    /// row, and every parsed episode is merged under that id. Returns the
    /// effective id. A merge that could exhaust the store's ids is refused
    /// whole, leaving the store unchanged.
    pub fn insert_podcast(&mut self, podcast: &Podcast) -> (r: Result<i64, StoreError>)
        requires
            store_wf(old(self)@),
        ensures
            store_wf(final(self)@),
            podcast_fits(old(self)@, podcast@) ==> (r matches Ok(id) && final(self)@ == merge_podcast(
                old(self)@,
                podcast@,
            ) && id as int == resolved_pod_id(old(self)@, podcast@)),
            !podcast_fits(old(self)@, podcast@) ==> r == Err::<i64, StoreError>(StoreError::Full)
                && final(self)@ == old(self)@,
    {
        let ghost s0 = self@;
        let ghost pm = podcast@;
        let headroom: u64 = (i64::MAX - self.next_episode_id) as u64;
        if !(self.next_podcast_id < i64::MAX && podcast.episodes.len() as u64 <= headroom) {
            assert(!podcast_fits(s0, pm));
            return Err(StoreError::Full);
        }
        assert(podcast_fits(s0, pm));
        let id: i64 = match self.find_by_url(&podcast.rss_url) {
            Some(i) => {
                let id = self.podcasts[i].id;
                proof {
                    let k = url_index(s0.podcasts, pm.rss_url);
                    assert(0 <= k < s0.podcasts.len() && s0.podcasts[k].rss_url == pm.rss_url);
                    if k != i as int {
                        assert(pod_rows_distinct(
                            s0.podcasts[if k < i as int { k } else { i as int }],
                            s0.podcasts[if k < i as int { i as int } else { k }],
                        ));
                    }
                    assert(id as int == resolved_pod_id(s0, pm));
                }
                id
            },
            None => {
                let id = self.next_podcast_id;
                let row = clone_podcast_row(podcast, id);
                self.podcasts.push(row);
                self.next_podcast_id = self.next_podcast_id + 1;
                proof {
                    assert(self.podcasts.deep_view() =~= s0.podcasts.push(podcast_row(pm, id as int)));
                    assert(id as int == resolved_pod_id(s0, pm));
                }
                id
            },
        };
        let ghost s1 = self@;
        proof {
            assert(s1 =~= if has_url(s0.podcasts, pm.rss_url) {
                s0
            } else {
                StoreModel {
                    podcasts: s0.podcasts.push(podcast_row(pm, s0.next_podcast_id)),
                    next_podcast_id: s0.next_podcast_id + 1,
                    ..s0
                }
            });
            if has_url(s0.podcasts, pm.rss_url) {
                let k = url_index(s0.podcasts, pm.rss_url);
                assert(has_pod_id(s1.podcasts, id as int)) by {
                    assert(s1.podcasts[k].id == id as int);
                }
                assert(store_wf(s1));
            } else {
                assert(has_pod_id(s1.podcasts, id as int)) by {
                    assert(s1.podcasts[s0.podcasts.len() as int].id == id as int);
                }
                assert(store_wf(s1)) by {
                    assert(forall|i: int, j: int| #![trigger s1.podcasts[i], s1.podcasts[j]]
                        0 <= i < j < s1.podcasts.len() ==> pod_rows_distinct(
                            s1.podcasts[i],
                            s1.podcasts[j],
                        )) by {
                        assert forall|i: int, j: int|
                            0 <= i < j < s1.podcasts.len() implies pod_rows_distinct(
                            #[trigger] s1.podcasts[i],
                            #[trigger] s1.podcasts[j],
                        ) by {
                            if j < s0.podcasts.len() {
                                assert(pod_rows_distinct(s0.podcasts[i], s0.podcasts[j]));
                            } else {
                                assert(pod_row_ok(s0.podcasts[i], s0.next_podcast_id));
                                assert(!has_url(s0.podcasts, pm.rss_url));
                                assert(s0.podcasts[i].rss_url != pm.rss_url);
                            }
                        }
                    }
                    assert forall|i: int| 0 <= i < s1.podcasts.len() implies pod_row_ok(
                        #[trigger] s1.podcasts[i],
                        s1.next_podcast_id,
                    ) by {
                        if i < s0.podcasts.len() {
                            assert(pod_row_ok(s0.podcasts[i], s0.next_podcast_id));
                        }
                    }
                    assert forall|i: int| 0 <= i < s1.episodes.len() implies ep_row_ok(
                        #[trigger] s1.episodes[i],
                        s1.next_episode_id,
                    ) && has_pod_id(s1.podcasts, s1.episodes[i].podcast_id) by {
                        assert(ep_row_ok(s0.episodes[i], s0.next_episode_id));
                        assert(has_pod_id(s0.podcasts, s0.episodes[i].podcast_id));
                        let w = choose|w: int|
                            0 <= w < s0.podcasts.len() && (#[trigger] s0.podcasts[w]).id
                                == s0.episodes[i].podcast_id;
                        assert(s1.podcasts[w].id == s0.episodes[i].podcast_id);
                    }
                }
            }
        }
        let mut k: usize = 0;
        while k < podcast.episodes.len()
            invariant
                store_wf(self@),
                podcast.episodes.deep_view() == pm.episodes,
                podcast.episodes@.len() == pm.episodes.len(),
                k <= pm.episodes.len(),
                self@ == merge_episodes(s1, id as int, pm.episodes.take(k as int)),
                self@.podcasts == s1.podcasts,
                self@.next_episode_id <= s1.next_episode_id + k,
                has_pod_id(s1.podcasts, id as int),
                s1.next_episode_id == s0.next_episode_id,
                s1.next_episode_id + pm.episodes.len() <= i64::MAX,
            decreases pm.episodes.len() - k,
        {
            let ghost before = self@;
            proof {
                assert(podcast.episodes@[k as int]@ == pm.episodes[k as int]);
                assert(has_pod_id(before.podcasts, id as int));
            }
            let res = self.insert_episode(&podcast.episodes[k], id);
            proof {
                assert(before.next_episode_id < i64::MAX);
                assert(res is Ok);
                assert(self@ == merge_episode(before, id as int, pm.episodes[k as int]));
                lemma_merge_episodes_snoc(s1, id as int, pm.episodes.take(k as int), pm.episodes[k as int]);
                assert(pm.episodes.take(k as int).push(pm.episodes[k as int]) =~= pm.episodes.take(
                    k + 1 as int,
                ));
                lemma_merge_episode_frame(before, id as int, pm.episodes[k as int]);
            }
            k = k + 1;
        }
        proof {
            assert(pm.episodes.take(pm.episodes.len() as int) =~= pm.episodes);
            assert(self@ == merge_podcast(s0, pm));
        }
        Ok(id)
    }

    /// Rebuild a store from persisted rows and id counters, for example
    /// when they are read back from durable storage. The offered rows are
    /// accepted exactly when they satisfy every store guarantee; anything
    /// else is rejected as corrupt.
    pub fn load(
        podcasts: Vec<Podcast>,
        episodes: Vec<EpisodeRow>,
        next_podcast_id: i64,
        next_episode_id: i64,
    ) -> (r: Result<Store, StoreError>)
        ensures
            ({
                let cand = StoreModel {
                    podcasts: podcasts.deep_view(),
                    episodes: episodes.deep_view(),
                    next_podcast_id: next_podcast_id as int,
                    next_episode_id: next_episode_id as int,
                };
                &&& store_wf(cand) ==> (r matches Ok(s) && s@ == cand)
                &&& !store_wf(cand) ==> r == Err::<Store, StoreError>(StoreError::Corrupt)
            }),
    {
        let ghost cand = StoreModel {
            podcasts: podcasts.deep_view(),
            episodes: episodes.deep_view(),
            next_podcast_id: next_podcast_id as int,
            next_episode_id: next_episode_id as int,
        };
        let counters_ok = next_podcast_id >= 1 && next_episode_id >= 1;
        let pods_distinct = pods_pairwise_ok(&podcasts);
        let pods_ranged = pods_rows_ok(&podcasts, next_podcast_id);
        let eps_distinct = eps_pairwise_ok(&episodes);
        let eps_ranged = eps_rows_ok(&episodes, next_episode_id);
        let refs_ok = fk_ok(&podcasts, &episodes);
        let ok = counters_ok && pods_distinct && pods_ranged && eps_distinct && eps_ranged
            && refs_ok;
        if !ok {
            proof {
                assert(!store_wf(cand));
            }
            return Err(StoreError::Corrupt);
        }
        proof {
            assert(store_wf(cand));
        }
        let r = Store { podcasts, episodes, next_podcast_id, next_episode_id };
        proof {
            assert(r@ =~= cand);
        }
        Ok(r)
    }

    /// Every stored episode row, in insertion order.
    pub fn all_episode_rows(&self) -> (r: Vec<EpisodeRow>)
        ensures
            r.deep_view() == self@.episodes,
    {
        let mut out: Vec<EpisodeRow> = Vec::new();
        let mut i: usize = 0;
        while i < self.episodes.len()
            invariant
                i <= self@.episodes.len(),
                self@.episodes.len() == self.episodes@.len(),
                out.deep_view() == self@.episodes.take(i as int),
            decreases self@.episodes.len() - i,
        {
            let row = EpisodeRow {
                podcast_id: self.episodes[i].podcast_id,
                episode: clone_episode_with_id(
                    &self.episodes[i].episode,
                    self.episodes[i].episode.id,
                ),
            };
            proof {
                assert(row@ =~= self@.episodes[i as int]);
            }
            let ghost prev = out.deep_view();
            out.push(row);
            i = i + 1;
            proof {
                assert(out.deep_view() =~= prev.push(row@));
                assert(out.deep_view() =~= self@.episodes.take(i as int));
            }
        }
        proof {
            assert(self@.episodes.take(self@.episodes.len() as int) =~= self@.episodes);
        }
        out
    }

    /// The next podcast id and the next episode id the store will assign.
    pub fn counters(&self) -> (r: (i64, i64))
        ensures
            r.0 as int == self@.next_podcast_id,
            r.1 as int == self@.next_episode_id,
    {
        (self.next_podcast_id, self.next_episode_id)
    }

    /// How many episode ids the store can still assign.
    pub fn episode_headroom(&self) -> (r: u64)
        requires
            store_wf(self@),
        ensures
            r as int == i64::MAX - self@.next_episode_id,
    {
        (i64::MAX - self.next_episode_id) as u64
    }

    /// The stored podcast with this id, without its episodes, or NotFound.
    pub fn fetch_podcast(&self, id: i64) -> (r: Result<Podcast, StoreError>)
        requires
            store_wf(self@),
        ensures
            has_pod_id(self@.podcasts, id as int) ==> (r matches Ok(p) && p@ == pod_by_id(
                self@.podcasts,
                id as int,
            )),
            !has_pod_id(self@.podcasts, id as int) ==> r == Err::<Podcast, StoreError>(
                StoreError::NotFound,
            ),
    {
        let mut i: usize = 0;
        while i < self.podcasts.len()
            invariant
                store_wf(self@),
                i <= self@.podcasts.len(),
                self@.podcasts.len() == self.podcasts@.len(),
                forall|j: int| 0 <= j < i ==> (#[trigger] self@.podcasts[j]).id != id as int,
            decreases self@.podcasts.len() - i,
        {
            if self.podcasts[i].id == id {
                let row = clone_podcast_row(&self.podcasts[i], id);
                proof {
                    assert(self@.podcasts[i as int].id == id as int);
                    let k = pod_index(self@.podcasts, id as int);
                    assert(0 <= k < self@.podcasts.len() && self@.podcasts[k].id == id as int);
                    if k != i as int {
                        assert(pod_rows_distinct(
                            self@.podcasts[if k < i as int { k } else { i as int }],
                            self@.podcasts[if k < i as int { i as int } else { k }],
                        ));
                    }
                    assert(pod_row_ok(self@.podcasts[i as int], self@.next_podcast_id));
                    assert(row@ =~= pod_by_id(self@.podcasts, id as int));
                }
                return Ok(row);
            }
            i = i + 1;
        }
        Err(StoreError::NotFound)
    }

    /// Every stored podcast row, in insertion order, without episodes.
    pub fn fetch_all_podcasts(&self) -> (r: Vec<Podcast>)
        requires
            store_wf(self@),
        ensures
            r.deep_view() == self@.podcasts,
    {
        let mut out: Vec<Podcast> = Vec::new();
        let mut i: usize = 0;
        while i < self.podcasts.len()
            invariant
                store_wf(self@),
                i <= self@.podcasts.len(),
                self@.podcasts.len() == self.podcasts@.len(),
                out.deep_view() == self@.podcasts.take(i as int),
            decreases self@.podcasts.len() - i,
        {
            let row = clone_podcast_row(&self.podcasts[i], self.podcasts[i].id);
            proof {
                assert(pod_row_ok(self@.podcasts[i as int], self@.next_podcast_id));
                assert(row@ =~= self@.podcasts[i as int]);
            }
            out.push(row);
            i = i + 1;
            proof {
                assert(self@.podcasts.take(i as int) =~= self@.podcasts.take(i - 1).push(
                    self@.podcasts[i - 1],
                ));
                assert(out.deep_view() =~~= self@.podcasts.take(i as int));
            }
        }
        proof {
            assert(self@.podcasts.take(self@.podcasts.len() as int) =~= self@.podcasts);
        }
        out
    }

    /// The episodes filed under podcast `id`, in insertion order.
    pub fn fetch_episodes(&self, id: i64) -> (r: Vec<Episode>)
        ensures
            r.deep_view() == episodes_for(self@.episodes, id as int),
    {
        let mut out: Vec<Episode> = Vec::new();
        let mut i: usize = 0;
        while i < self.episodes.len()
            invariant
                i <= self@.episodes.len(),
                self@.episodes.len() == self.episodes@.len(),
                out.deep_view() == episodes_for(self@.episodes.take(i as int), id as int),
            decreases self@.episodes.len() - i,
        {
            proof {
                assert(self@.episodes.take(i + 1 as int) =~= self@.episodes.take(i as int).push(
                    self@.episodes[i as int],
                ));
                lemma_episodes_for_push(
                    self@.episodes.take(i as int),
                    id as int,
                    self@.episodes[i as int],
                );
            }
            if self.episodes[i].podcast_id == id {
                let ep = clone_episode_with_id(&self.episodes[i].episode, self.episodes[i].episode.id);
                proof {
                    assert(ep@ =~= self@.episodes[i as int].episode);
                }
                out.push(ep);
            }
            proof {
                assert(out.deep_view() =~~= episodes_for(
                    self@.episodes.take(i + 1 as int),
                    id as int,
                ));
            }
            i = i + 1;
        }
        proof {
            assert(self@.episodes.take(self@.episodes.len() as int) =~= self@.episodes);
        }
        out
    }

    /// The stored episode with this id, or NotFound.
    pub fn fetch_episode(&self, id: i64) -> (r: Result<Episode, StoreError>)
        requires
            store_wf(self@),
        ensures
            has_ep_id(self@.episodes, id as int) ==> (r matches Ok(e) && e@ == ep_by_id(
                self@.episodes,
                id as int,
            )),
            !has_ep_id(self@.episodes, id as int) ==> r == Err::<Episode, StoreError>(
                StoreError::NotFound,
            ),
    {
        let mut i: usize = 0;
        while i < self.episodes.len()
            invariant
                store_wf(self@),
                i <= self@.episodes.len(),
                self@.episodes.len() == self.episodes@.len(),
                forall|j: int| 0 <= j < i ==> (#[trigger] self@.episodes[j]).episode.id != id as int,
            decreases self@.episodes.len() - i,
        {
            if self.episodes[i].episode.id == id {
                let ep = clone_episode_with_id(&self.episodes[i].episode, id);
                proof {
                    assert(self@.episodes[i as int].episode.id == id as int);
                    let k = ep_index(self@.episodes, id as int);
                    assert(0 <= k < self@.episodes.len() && self@.episodes[k].episode.id
                        == id as int);
                    if k != i as int {
                        assert(ep_rows_distinct(
                            self@.episodes[if k < i as int { k } else { i as int }],
                            self@.episodes[if k < i as int { i as int } else { k }],
                        ));
                    }
                    assert(ep@ =~= ep_by_id(self@.episodes, id as int));
                }
                return Ok(ep);
            }
            i = i + 1;
        }
        Err(StoreError::NotFound)
    }

    /// The stored podcast with this id together with its episodes, or
    /// NotFound.
    pub fn fetch_podcast_and_episodes(&self, id: i64) -> (r: Result<Podcast, StoreError>)
        requires
            store_wf(self@),
        ensures
            has_pod_id(self@.podcasts, id as int) ==> (r matches Ok(p) && p@ == (PodcastModel {
                episodes: episodes_for(self@.episodes, id as int),
                ..pod_by_id(self@.podcasts, id as int)
            })),
            !has_pod_id(self@.podcasts, id as int) ==> r == Err::<Podcast, StoreError>(
                StoreError::NotFound,
            ),
    {
        let mut pod = match self.fetch_podcast(id) {
            Ok(p) => p,
            Err(e) => {
                return Err(e);
            },
        };
        pod.episodes = self.fetch_episodes(id);
        proof {
            assert(pod@ =~= (PodcastModel {
                episodes: episodes_for(self@.episodes, id as int),
                ..pod_by_id(self@.podcasts, id as int)
            }));
        }
        Ok(pod)
    }

    /// Remove the podcast with this id and every episode filed under it;
    /// removing an absent id changes nothing.
    pub fn remove_podcast(&mut self, id: i64)
        requires
            store_wf(old(self)@),
        ensures
            store_wf(final(self)@),
            final(self)@ == remove_pod(old(self)@, id as int),
    {
        let ghost s0 = self@;
        let mut pods: Vec<Podcast> = Vec::new();
        let mut i: usize = 0;
        while i < self.podcasts.len()
            invariant
                store_wf(self@),
                self@ == s0,
                i <= self@.podcasts.len(),
                self@.podcasts.len() == self.podcasts@.len(),
                pods.deep_view() == s0.podcasts.take(i as int).filter(
                    |p: PodcastModel| p.id != id as int,
                ),
            decreases self@.podcasts.len() - i,
        {
            proof {
                assert(s0.podcasts.take(i + 1 as int) =~= s0.podcasts.take(i as int).push(
                    s0.podcasts[i as int],
                ));
                lemma_filter_push(
                    s0.podcasts.take(i as int),
                    |p: PodcastModel| p.id != id as int,
                    s0.podcasts[i as int],
                );
            }
            if self.podcasts[i].id != id {
                let row = clone_podcast_row(&self.podcasts[i], self.podcasts[i].id);
                proof {
                    assert(pod_row_ok(s0.podcasts[i as int], s0.next_podcast_id));
                    assert(row@ =~= s0.podcasts[i as int]);
                }
                pods.push(row);
            }
            proof {
                assert(pods.deep_view() =~= s0.podcasts.take(i + 1 as int).filter(
                    |p: PodcastModel| p.id != id as int,
                ));
            }
            i = i + 1;
        }
        let mut eps: Vec<EpisodeRow> = Vec::new();
        let mut k: usize = 0;
        while k < self.episodes.len()
            invariant
                self@ == s0,
                k <= self@.episodes.len(),
                self@.episodes.len() == self.episodes@.len(),
                eps.deep_view() == s0.episodes.take(k as int).filter(
                    |r: EpisodeRowModel| r.podcast_id != id as int,
                ),
            decreases self@.episodes.len() - k,
        {
            proof {
                assert(s0.episodes.take(k + 1 as int) =~= s0.episodes.take(k as int).push(
                    s0.episodes[k as int],
                ));
                lemma_filter_push(
                    s0.episodes.take(k as int),
                    |r: EpisodeRowModel| r.podcast_id != id as int,
                    s0.episodes[k as int],
                );
            }
            if self.episodes[k].podcast_id != id {
                let row = EpisodeRow {
                    podcast_id: self.episodes[k].podcast_id,
                    episode: clone_episode_with_id(
                        &self.episodes[k].episode,
                        self.episodes[k].episode.id,
                    ),
                };
                proof {
                    assert(row@ =~= s0.episodes[k as int]);
                }
                eps.push(row);
            }
            proof {
                assert(eps.deep_view() =~= s0.episodes.take(k + 1 as int).filter(
                    |r: EpisodeRowModel| r.podcast_id != id as int,
                ));
            }
            k = k + 1;
        }
        self.podcasts = pods;
        self.episodes = eps;
        proof {
            assert(s0.podcasts.take(s0.podcasts.len() as int) =~= s0.podcasts);
            assert(s0.episodes.take(s0.episodes.len() as int) =~= s0.episodes);
            assert(self@ =~= remove_pod(s0, id as int));
            lemma_remove_wf(s0, id as int);
        }
    }

    /// The stored podcasts whose title or description contains the term,
    /// case-insensitively, in insertion order.
    pub fn search_podcasts(&self, term: &str) -> (r: Vec<Podcast>)
        requires
            store_wf(self@),
        ensures
            r.deep_view() == searched_podcasts(self@.podcasts, term@),
    {
        let mut out: Vec<Podcast> = Vec::new();
        let mut i: usize = 0;
        while i < self.podcasts.len()
            invariant
                store_wf(self@),
                i <= self@.podcasts.len(),
                self@.podcasts.len() == self.podcasts@.len(),
                out.deep_view() == searched_podcasts(self@.podcasts.take(i as int), term@),
            decreases self@.podcasts.len() - i,
        {
            proof {
                assert(self@.podcasts.take(i + 1 as int) =~= self@.podcasts.take(i as int).push(
                    self@.podcasts[i as int],
                ));
                lemma_filter_push(
                    self@.podcasts.take(i as int),
                    |p: PodcastModel| pod_matches(p, term@),
                    self@.podcasts[i as int],
                );
            }
            let hit = crate::text::contains_ci_str(self.podcasts[i].title.as_str(), term)
                || crate::text::contains_ci_str(self.podcasts[i].description.as_str(), term);
            if hit {
                let row = clone_podcast_row(&self.podcasts[i], self.podcasts[i].id);
                proof {
                    assert(pod_row_ok(self@.podcasts[i as int], self@.next_podcast_id));
                    assert(row@ =~= self@.podcasts[i as int]);
                }
                out.push(row);
            }
            proof {
                assert(out.deep_view() =~= searched_podcasts(
                    self@.podcasts.take(i + 1 as int),
                    term@,
                ));
            }
            i = i + 1;
        }
        proof {
            assert(self@.podcasts.take(self@.podcasts.len() as int) =~= self@.podcasts);
        }
        out
    }

    /// The stored episodes matching the term case-insensitively — or filed
    /// under the podcast `arg` when it is non-zero — in insertion order.
    pub fn search_episodes(&self, term: &str, arg: i64) -> (r: Vec<Episode>)
        ensures
            r.deep_view() == searched_episodes(self@.episodes, term@, arg as int),
    {
        let mut out: Vec<Episode> = Vec::new();
        let mut i: usize = 0;
        while i < self.episodes.len()
            invariant
                i <= self@.episodes.len(),
                self@.episodes.len() == self.episodes@.len(),
                out.deep_view() == searched_episodes(
                    self@.episodes.take(i as int),
                    term@,
                    arg as int,
                ),
            decreases self@.episodes.len() - i,
        {
            proof {
                assert(self@.episodes.take(i + 1 as int) =~= self@.episodes.take(i as int).push(
                    self@.episodes[i as int],
                ));
                lemma_searched_episodes_push(
                    self@.episodes.take(i as int),
                    term@,
                    arg as int,
                    self@.episodes[i as int],
                );
            }
            let hit = crate::text::contains_ci_str(self.episodes[i].episode.title.as_str(), term)
                || crate::text::contains_ci_str(
                self.episodes[i].episode.description.as_str(),
                term,
            ) || (arg != 0 && self.episodes[i].podcast_id == arg);
            if hit {
                let ep = clone_episode_with_id(
                    &self.episodes[i].episode,
                    self.episodes[i].episode.id,
                );
                proof {
                    assert(ep@ =~= self@.episodes[i as int].episode);
                }
                out.push(ep);
            }
            proof {
                assert(out.deep_view() =~~= searched_episodes(
                    self@.episodes.take(i + 1 as int),
                    term@,
                    arg as int,
                ));
            }
            i = i + 1;
        }
        proof {
            assert(self@.episodes.take(self@.episodes.len() as int) =~= self@.episodes);
        }
        out
    }
}

/// Whether some podcast in a row set has this id.
fn vec_has_pod_id(pods: &Vec<Podcast>, id: i64) -> (b: bool)
    ensures
        b == has_pod_id(pods.deep_view(), id as int),
{
    let mut i: usize = 0;
    while i < pods.len()
        invariant
            i <= pods.deep_view().len(),
            pods.deep_view().len() == pods@.len(),
            forall|j: int| 0 <= j < i ==> (#[trigger] pods.deep_view()[j]).id != id as int,
        decreases pods.deep_view().len() - i,
    {
        if pods[i].id == id {
            proof {
                assert(pods.deep_view()[i as int].id == id as int);
            }
            return true;
        }
        i = i + 1;
    }
    false
}

/// Whether no two podcast rows collide on feed URL or id.
fn pods_pairwise_ok(pods: &Vec<Podcast>) -> (b: bool)
    ensures
        b == pods_distinct_wf(pods.deep_view()),
{
    let ghost ps = pods.deep_view();
    let n = pods.len();
    let mut j: usize = 1;
    if n == 0 {
        return true;
    }
    while j < n
        invariant
            ps == pods.deep_view(),
            n == ps.len(),
            n == pods@.len(),
            1 <= j <= n,
            forall|a: int, b2: int| #![trigger ps[a], ps[b2]]
                0 <= a < b2 < j ==> pod_rows_distinct(ps[a], ps[b2]),
        decreases n - j,
    {
        let mut a: usize = 0;
        while a < j
            invariant
                ps == pods.deep_view(),
                n == ps.len(),
                n == pods@.len(),
                j < n,
                a <= j,
                forall|a0: int|
                    0 <= a0 < a ==> pod_rows_distinct(#[trigger] ps[a0], ps[j as int]),
            decreases j - a,
        {
            let url_eq = pods[a].rss_url.eq(&pods[j].rss_url);
            let id_eq = pods[a].id == pods[j].id;
            if url_eq || id_eq {
                proof {
                    assert(!pod_rows_distinct(ps[a as int], ps[j as int]));
                }
                return false;
            }
            a = a + 1;
        }
        j = j + 1;
    }
    true
}

/// Whether no two episode rows collide on guid, id, or enclosure URL.
fn eps_pairwise_ok(rows: &Vec<EpisodeRow>) -> (b: bool)
    ensures
        b == eps_distinct_wf(rows.deep_view()),
{
    let ghost es = rows.deep_view();
    let n = rows.len();
    let mut j: usize = 1;
    if n == 0 {
        return true;
    }
    while j < n
        invariant
            es == rows.deep_view(),
            n == es.len(),
            n == rows@.len(),
            1 <= j <= n,
            forall|a: int, b2: int| #![trigger es[a], es[b2]]
                0 <= a < b2 < j ==> ep_rows_distinct(es[a], es[b2]),
        decreases n - j,
    {
        let mut a: usize = 0;
        while a < j
            invariant
                es == rows.deep_view(),
                n == es.len(),
                n == rows@.len(),
                j < n,
                a <= j,
                forall|a0: int|
                    0 <= a0 < a ==> ep_rows_distinct(#[trigger] es[a0], es[j as int]),
            decreases j - a,
        {
            let guid_eq = rows[a].episode.guid.eq(&rows[j].episode.guid);
            let id_eq = rows[a].episode.id == rows[j].episode.id;
            let enc_eq = match (&rows[a].episode.enclosure, &rows[j].episode.enclosure) {
                (Some(x), Some(y)) => x.url.eq(&y.url),
                _ => false,
            };
            if guid_eq || id_eq || enc_eq {
                proof {
                    assert(!ep_rows_distinct(es[a as int], es[j as int]));
                }
                return false;
            }
            a = a + 1;
        }
        j = j + 1;
    }
    true
}

/// Whether every podcast row is well formed for the given id bound.
fn pods_rows_ok(pods: &Vec<Podcast>, next: i64) -> (b: bool)
    ensures
        b == pods_ranged_wf(pods.deep_view(), next as int),
{
    let mut i: usize = 0;
    while i < pods.len()
        invariant
            i <= pods.deep_view().len(),
            pods.deep_view().len() == pods@.len(),
            forall|j: int|
                0 <= j < i ==> pod_row_ok(#[trigger] pods.deep_view()[j], next as int),
        decreases pods.deep_view().len() - i,
    {
        let ok = 1 <= pods[i].id && pods[i].id < next && pods[i].episodes.len() == 0;
        if !ok {
            proof {
                assert(!pod_row_ok(pods.deep_view()[i as int], next as int));
            }
            return false;
        }
        i = i + 1;
    }
    true
}

/// Whether every episode row is well formed for the given id bound.
fn eps_rows_ok(rows: &Vec<EpisodeRow>, next: i64) -> (b: bool)
    ensures
        b == eps_ranged_wf(rows.deep_view(), next as int),
{
    let mut i: usize = 0;
    while i < rows.len()
        invariant
            i <= rows.deep_view().len(),
            rows.deep_view().len() == rows@.len(),
            forall|j: int| 0 <= j < i ==> ep_row_ok(#[trigger] rows.deep_view()[j], next as int),
        decreases rows.deep_view().len() - i,
    {
        let ok = 1 <= rows[i].episode.id && rows[i].episode.id < next;
        if !ok {
            proof {
                assert(!ep_row_ok(rows.deep_view()[i as int], next as int));
            }
            return false;
        }
        i = i + 1;
    }
    true
}

/// Whether every episode row is filed under some offered podcast.
fn fk_ok(pods: &Vec<Podcast>, rows: &Vec<EpisodeRow>) -> (b: bool)
    ensures
        b == fk_wf(pods.deep_view(), rows.deep_view()),
{
    let mut i: usize = 0;
    while i < rows.len()
        invariant
            i <= rows.deep_view().len(),
            rows.deep_view().len() == rows@.len(),
            forall|j: int|
                0 <= j < i ==> has_pod_id(
                    pods.deep_view(),
                    (#[trigger] rows.deep_view()[j]).podcast_id,
                ),
        decreases rows.deep_view().len() - i,
    {
        if !vec_has_pod_id(pods, rows[i].podcast_id) {
            proof {
                assert(!has_pod_id(pods.deep_view(), rows.deep_view()[i as int].podcast_id));
            }
            return false;
        }
        i = i + 1;
    }
    true
}

} // verus!
