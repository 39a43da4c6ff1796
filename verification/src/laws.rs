//! The store's synchronization laws: merging is idempotent, it only ever
//! appends rows, and a feed URL is stored at most once however often it is
//! added.

use crate::podcast::EpisodeModel;
use crate::podcast::PodcastModel;
use crate::store::EpisodeRowModel;
use crate::store::StoreModel;
use crate::store::episode_blocked;
use crate::store::has_guid;
use crate::store::has_enclosure_url;
use crate::store::has_url;
use crate::store::lemma_merge_episodes_frame;
use crate::store::merge_episode;
use crate::store::merge_episodes;
use crate::store::merge_podcast;
use crate::store::podcast_row;
use crate::store::resolved_pod_id;
use vstd::prelude::*;

verus! {

/// A blocked episode stays blocked as rows are appended.
proof fn lemma_blocked_monotone(
    es: Seq<EpisodeRowModel>,
    es2: Seq<EpisodeRowModel>,
    e: EpisodeModel,
)
    requires
        es.is_prefix_of(es2),
        episode_blocked(es, e),
    ensures
        episode_blocked(es2, e),
{
    if has_guid(es, e.guid) {
        let i = choose|i: int| 0 <= i < es.len() && (#[trigger] es[i]).episode.guid == e.guid;
        assert(es2[i] == es[i]);
        assert(has_guid(es2, e.guid));
    } else {
        match e.enclosure {
            Some(enc) => {
                let i = choose|i: int|
                    {
                        &&& 0 <= i < es.len()
                        &&& match (#[trigger] es[i]).episode.enclosure {
                            Some(x) => x.url == enc.url,
                            None => false,
                        }
                    };
                assert(es2[i] == es[i]);
                assert(has_enclosure_url(es2, enc.url));
            },
            None => {},
        }
    }
}

/// After one episode is merged, a second insert of it is blocked.
proof fn lemma_merge_episode_blocks_self(s: StoreModel, pid: int, e: EpisodeModel)
    ensures
        episode_blocked(merge_episode(s, pid, e).episodes, e),
{
    if !episode_blocked(s.episodes, e) {
        let es2 = merge_episode(s, pid, e).episodes;
        assert(es2[s.episodes.len() as int].episode.guid == e.guid);
        assert(has_guid(es2, e.guid));
    }
}

/// After a sequence of episodes is merged, a second insert of any of them
/// is blocked.
proof fn lemma_merge_episodes_block_all(s: StoreModel, pid: int, eps: Seq<EpisodeModel>)
    ensures
        forall|k: int|
            0 <= k < eps.len() ==> episode_blocked(
                merge_episodes(s, pid, eps).episodes,
                #[trigger] eps[k],
            ),
    decreases eps.len(),
{
    if eps.len() > 0 {
        let s1 = merge_episode(s, pid, eps[0]);
        let r = merge_episodes(s1, pid, eps.skip(1));
        lemma_merge_episode_blocks_self(s, pid, eps[0]);
        lemma_merge_episodes_frame(s1, pid, eps.skip(1));
        lemma_blocked_monotone(s1.episodes, r.episodes, eps[0]);
        lemma_merge_episodes_block_all(s1, pid, eps.skip(1));
        assert forall|k: int| 0 <= k < eps.len() implies episode_blocked(
            merge_episodes(s, pid, eps).episodes,
            #[trigger] eps[k],
        ) by {
            if k > 0 {
                assert(eps.skip(1)[k - 1] == eps[k]);
            }
        }
    }
}

/// Merging episodes that are all blocked changes nothing.
proof fn lemma_merge_episodes_noop(s: StoreModel, pid: int, eps: Seq<EpisodeModel>)
    requires
        forall|k: int| 0 <= k < eps.len() ==> episode_blocked(s.episodes, #[trigger] eps[k]),
    ensures
        merge_episodes(s, pid, eps) == s,
    decreases eps.len(),
{
    if eps.len() > 0 {
        assert(episode_blocked(s.episodes, eps[0]));
        assert(merge_episode(s, pid, eps[0]) == s);
        assert forall|k: int|
            0 <= k < eps.skip(1).len() implies episode_blocked(
            s.episodes,
            #[trigger] eps.skip(1)[k],
        ) by {
            assert(eps.skip(1)[k] == eps[k + 1]);
        }
        lemma_merge_episodes_noop(s, pid, eps.skip(1));
    }
}

/// After a podcast is merged, its feed URL is stored.
proof fn lemma_merge_has_url(s: StoreModel, p: PodcastModel)
    ensures
        has_url(merge_podcast(s, p).podcasts, p.rss_url),
{
    let s1 = if has_url(s.podcasts, p.rss_url) {
        s
    } else {
        StoreModel {
            podcasts: s.podcasts.push(podcast_row(p, s.next_podcast_id)),
            next_podcast_id: s.next_podcast_id + 1,
            ..s
        }
    };
    lemma_merge_episodes_frame(s1, resolved_pod_id(s, p), p.episodes);
    if has_url(s.podcasts, p.rss_url) {
        let i = choose|i: int|
            0 <= i < s.podcasts.len() && (#[trigger] s.podcasts[i]).rss_url == p.rss_url;
        assert(merge_podcast(s, p).podcasts[i].rss_url == p.rss_url);
    } else {
        assert(merge_podcast(s, p).podcasts[s.podcasts.len() as int].rss_url == p.rss_url);
    }
}

/// Law (idempotent merge): merging the same parsed podcast into the store
/// twice yields exactly the store that merging it once yields — the second
/// merge adds no podcast row, no episode row, and changes nothing at all.
pub proof fn lemma_merge_idempotent(s: StoreModel, p: PodcastModel)
    ensures
        merge_podcast(merge_podcast(s, p), p) == merge_podcast(s, p),
{
    let s1 = if has_url(s.podcasts, p.rss_url) {
        s
    } else {
        StoreModel {
            podcasts: s.podcasts.push(podcast_row(p, s.next_podcast_id)),
            next_podcast_id: s.next_podcast_id + 1,
            ..s
        }
    };
    let rid = resolved_pod_id(s, p);
    let sa = merge_podcast(s, p);
    assert(sa == merge_episodes(s1, rid, p.episodes));
    lemma_merge_has_url(s, p);
    lemma_merge_episodes_block_all(s1, rid, p.episodes);
    lemma_merge_episodes_noop(sa, resolved_pod_id(sa, p), p.episodes);
    assert(merge_podcast(sa, p) == sa);
}

/// Law (rows are never mutated): synchronization only appends. Every row
/// present before a merge is still present, unchanged and in place, after
/// it: an episode is created on the first appearance of its guid and never
/// altered by later synchronization runs.
pub proof fn lemma_merge_appends_only(s: StoreModel, p: PodcastModel)
    ensures
        s.podcasts.is_prefix_of(merge_podcast(s, p).podcasts),
        s.episodes.is_prefix_of(merge_podcast(s, p).episodes),
{
    let s1 = if has_url(s.podcasts, p.rss_url) {
        s
    } else {
        StoreModel {
            podcasts: s.podcasts.push(podcast_row(p, s.next_podcast_id)),
            next_podcast_id: s.next_podcast_id + 1,
            ..s
        }
    };
    lemma_merge_episodes_frame(s1, resolved_pod_id(s, p), p.episodes);
    assert(s.podcasts.is_prefix_of(s1.podcasts)) by {
        assert(s1.podcasts.take(s.podcasts.len() as int) =~= s.podcasts);
    }
    assert(s.episodes.is_prefix_of(merge_podcast(s, p).episodes)) by {
        assert(s1.episodes.take(s.episodes.len() as int) =~= s.episodes);
    }
}

/// Law (dedup on add): adding a podcast with an already-stored feed URL —
/// in particular, adding the same feed twice — leaves the podcast relation
/// exactly as it was: one row per feed URL, however often it is added.
pub proof fn lemma_dedup_on_add(s: StoreModel, p1: PodcastModel, p2: PodcastModel)
    requires
        p2.rss_url == p1.rss_url,
    ensures
        merge_podcast(merge_podcast(s, p1), p2).podcasts == merge_podcast(s, p1).podcasts,
{
    let sa = merge_podcast(s, p1);
    lemma_merge_has_url(s, p1);
    assert(has_url(sa.podcasts, p2.rss_url));
    lemma_merge_episodes_frame(sa, resolved_pod_id(sa, p2), p2.episodes);
    assert(merge_podcast(sa, p2).podcasts == sa.podcasts);
}

} // verus!
