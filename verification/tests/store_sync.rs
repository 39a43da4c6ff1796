use dipper::feed::parse_rss;
use dipper::podcast::{Episode, Podcast};
use dipper::store::{Store, StoreError};

fn doc(title: &str, items: &str) -> String {
    format!(
        "<?xml version=\"1.0\"?><rss version=\"2.0\"><channel>\
         <title>{}</title><description>about {}</description>{}\
         </channel></rss>",
        title, title, items
    )
}

fn item(guid: &str, title: &str) -> String {
    format!(
        "<item><guid>{}</guid><title>{}</title><description>d</description></item>",
        guid, title
    )
}

fn item_with_enclosure(guid: &str, title: &str, url: &str) -> String {
    format!(
        "<item><guid>{}</guid><title>{}</title><description>d</description>\
         <enclosure url=\"{}\" length=\"1\" type=\"audio/mpeg\"/></item>",
        guid, title, url
    )
}

fn snapshot(store: &Store) -> (Vec<(i64, String, String)>, Vec<(i64, String, String)>) {
    let pods: Vec<(i64, String, String)> = store
        .fetch_all_podcasts()
        .into_iter()
        .map(|p| (p.id, p.rss_url, p.title))
        .collect();
    let mut eps: Vec<(i64, String, String)> = Vec::new();
    for (id, _, _) in &pods {
        for e in store.fetch_episodes(*id) {
            eps.push((e.id, e.guid, e.title));
        }
    }
    (pods, eps)
}

#[test]
fn merge_assigns_ids_and_stores_episodes() {
    let mut store = Store::new();
    let d = doc("Cast", &format!("{}{}", item("g1", "one"), item("g2", "two")));
    let pod = parse_rss("https://example.org/f", &d).unwrap();
    let id = store.insert_podcast(&pod).unwrap();
    assert_eq!(id, 1);
    let stored = store.fetch_podcast(id).unwrap();
    assert_eq!(stored.title, "Cast");
    assert_eq!(stored.id, 1);
    let eps = store.fetch_episodes(id);
    assert_eq!(eps.len(), 2);
    assert_eq!(eps[0].guid, "g1");
    assert_eq!(eps[0].id, 1);
    assert_eq!(eps[1].guid, "g2");
    assert_eq!(eps[1].id, 2);
}

#[test]
fn merge_twice_is_idempotent() {
    // Merging the same parsed feed twice yields the same row set as once.
    let mut store = Store::new();
    let d = doc("Cast", &format!("{}{}", item("g1", "one"), item("g2", "two")));
    let pod = parse_rss("https://example.org/f", &d).unwrap();
    store.insert_podcast(&pod).unwrap();
    let before = snapshot(&store);
    let id2 = store.insert_podcast(&pod).unwrap();
    let after = snapshot(&store);
    assert_eq!(before, after);
    assert_eq!(id2, 1);
}

#[test]
fn merge_adds_only_new_episodes() {
    let mut store = Store::new();
    let d1 = doc("Cast", &item("g1", "one"));
    let pod1 = parse_rss("u", &d1).unwrap();
    store.insert_podcast(&pod1).unwrap();
    let d2 = doc("Cast", &format!("{}{}", item("g1", "one"), item("g2", "two")));
    let pod2 = parse_rss("u", &d2).unwrap();
    let id = store.insert_podcast(&pod2).unwrap();
    assert_eq!(id, 1);
    let eps = store.fetch_episodes(1);
    assert_eq!(eps.len(), 2);
    assert_eq!(eps[0].guid, "g1");
    assert_eq!(eps[1].guid, "g2");
}

#[test]
fn episode_is_never_mutated_after_first_ingestion() {
    // Re-ingesting the same guid with changed content is a no-op.
    let mut store = Store::new();
    let d1 = doc("Cast", &item("g1", "original title"));
    store.insert_podcast(&parse_rss("u", &d1).unwrap()).unwrap();
    let d2 = doc("Cast", &item("g1", "rewritten title"));
    store.insert_podcast(&parse_rss("u", &d2).unwrap()).unwrap();
    let eps = store.fetch_episodes(1);
    assert_eq!(eps.len(), 1);
    assert_eq!(eps[0].title, "original title");
}

#[test]
fn dedup_on_add() {
    // Adding the same rss_url twice leaves exactly one podcast row.
    let mut store = Store::new();
    let d = doc("Cast", "");
    let pod = parse_rss("https://example.org/f", &d).unwrap();
    store.insert_podcast(&pod).unwrap();
    store.insert_podcast(&pod).unwrap();
    let pods = store.fetch_all_podcasts();
    assert_eq!(pods.len(), 1);
    assert_eq!(pods[0].rss_url, "https://example.org/f");
}

#[test]
fn enclosure_url_collision_is_ignored_store_wide() {
    // Enclosure URLs are unique across the whole store: a second episode
    // carrying an already-stored enclosure URL is dropped silently.
    let mut store = Store::new();
    let d1 = doc("A", &item_with_enclosure("g1", "one", "https://cdn/x.mp3"));
    store.insert_podcast(&parse_rss("u1", &d1).unwrap()).unwrap();
    let d2 = doc(
        "B",
        &format!(
            "{}{}",
            item_with_enclosure("g2", "two", "https://cdn/x.mp3"),
            item("g3", "three")
        ),
    );
    store.insert_podcast(&parse_rss("u2", &d2).unwrap()).unwrap();
    assert_eq!(store.fetch_episodes(1).len(), 1);
    let eps2 = store.fetch_episodes(2);
    assert_eq!(eps2.len(), 1);
    assert_eq!(eps2[0].guid, "g3");
}

#[test]
fn fetch_podcast_not_found_is_distinct() {
    let store = Store::new();
    assert_eq!(store.fetch_podcast(7).unwrap_err(), StoreError::NotFound);
    assert_eq!(store.fetch_episode(7).unwrap_err(), StoreError::NotFound);
}

#[test]
fn insert_episode_requires_existing_podcast() {
    let mut store = Store::new();
    let ep = Episode::new("t".to_string(), "g".to_string(), "d".to_string());
    assert_eq!(
        store.insert_episode(&ep, 3).unwrap_err(),
        StoreError::NotFound
    );
}

#[test]
fn fetch_podcast_and_episodes_attaches_episodes() {
    let mut store = Store::new();
    let d = doc("Cast", &format!("{}{}", item("g1", "one"), item("g2", "two")));
    store.insert_podcast(&parse_rss("u", &d).unwrap()).unwrap();
    let pod = store.fetch_podcast_and_episodes(1).unwrap();
    assert_eq!(pod.title, "Cast");
    assert_eq!(pod.episodes.len(), 2);
    // fetch_podcast alone leaves episodes unloaded
    assert!(store.fetch_podcast(1).unwrap().episodes.is_empty());
}

#[test]
fn fetch_episode_by_id() {
    let mut store = Store::new();
    let d = doc("Cast", &format!("{}{}", item("g1", "one"), item("g2", "two")));
    store.insert_podcast(&parse_rss("u", &d).unwrap()).unwrap();
    let e = store.fetch_episode(2).unwrap();
    assert_eq!(e.guid, "g2");
}

#[test]
fn remove_podcast_cascades_to_episodes() {
    let mut store = Store::new();
    let d1 = doc("A", &item("g1", "one"));
    let d2 = doc("B", &item("g2", "two"));
    store.insert_podcast(&parse_rss("u1", &d1).unwrap()).unwrap();
    store.insert_podcast(&parse_rss("u2", &d2).unwrap()).unwrap();
    store.remove_podcast(1);
    let pods = store.fetch_all_podcasts();
    assert_eq!(pods.len(), 1);
    assert_eq!(pods[0].title, "B");
    assert!(store.fetch_episodes(1).is_empty());
    assert_eq!(store.fetch_episodes(2).len(), 1);
    assert_eq!(store.fetch_episode(1).unwrap_err(), StoreError::NotFound);
}

#[test]
fn removed_id_is_not_reused() {
    let mut store = Store::new();
    let d1 = doc("A", "");
    let d2 = doc("B", "");
    store.insert_podcast(&parse_rss("u1", &d1).unwrap()).unwrap();
    store.remove_podcast(1);
    let id = store.insert_podcast(&parse_rss("u2", &d2).unwrap()).unwrap();
    assert_eq!(id, 2);
}

#[test]
fn search_podcasts_case_insensitive_substring() {
    let mut store = Store::new();
    let p1 = Podcast::new(
        "The Foobar Hour".to_string(),
        "talk".to_string(),
        "u1".to_string(),
    );
    let p2 = Podcast::new(
        "Quiet Show".to_string(),
        "All about FOO things".to_string(),
        "u2".to_string(),
    );
    let p3 = Podcast::new("Other".to_string(), "nothing here".to_string(), "u3".to_string());
    store.insert_podcast(&p1).unwrap();
    store.insert_podcast(&p2).unwrap();
    store.insert_podcast(&p3).unwrap();
    let hits = store.search_podcasts("foo");
    let titles: Vec<String> = hits.into_iter().map(|p| p.title).collect();
    assert_eq!(titles, vec!["The Foobar Hour", "Quiet Show"]);
    assert!(store.search_podcasts("zebra").is_empty());
    assert_eq!(store.search_podcasts("").len(), 3);
}

#[test]
fn search_episodes_matches_term_or_selected_podcast() {
    let mut store = Store::new();
    let d1 = doc("A", &format!("{}{}", item("g1", "Deep Dive"), item("g2", "other")));
    let d2 = doc("B", &item("g3", "more"));
    store.insert_podcast(&parse_rss("u1", &d1).unwrap()).unwrap();
    store.insert_podcast(&parse_rss("u2", &d2).unwrap()).unwrap();
    // term only
    let hits = store.search_episodes("deep", 0);
    assert_eq!(hits.len(), 1);
    assert_eq!(hits[0].guid, "g1");
    // scoped: matches by term or by podcast id
    let hits = store.search_episodes("deep", 2);
    let guids: Vec<String> = hits.into_iter().map(|e| e.guid).collect();
    assert_eq!(guids, vec!["g1", "g3"]);
}

#[test]
fn dump_and_load_round_trip() {
    let mut store = Store::new();
    let d1 = doc("A", &format!("{}{}", item("g1", "one"), item("g2", "two")));
    let d2 = doc("B", &item("g3", "three"));
    store.insert_podcast(&parse_rss("u1", &d1).unwrap()).unwrap();
    store.insert_podcast(&parse_rss("u2", &d2).unwrap()).unwrap();
    store.remove_podcast(1);
    let before = snapshot(&store);
    let pods = store.fetch_all_podcasts();
    let rows = store.all_episode_rows();
    let (next_pod, next_ep) = store.counters();
    let reloaded = Store::load(pods, rows, next_pod, next_ep).unwrap();
    assert_eq!(snapshot(&reloaded), before);
    assert_eq!(reloaded.counters(), (next_pod, next_ep));
}

#[test]
fn load_rejects_corrupt_rows() {
    let mut store = Store::new();
    let d = doc("A", &item("g1", "one"));
    store.insert_podcast(&parse_rss("u1", &d).unwrap()).unwrap();
    let pods = store.fetch_all_podcasts();
    let rows = store.all_episode_rows();
    let (next_pod, next_ep) = store.counters();

    // duplicated episode row (same guid and id)
    let mut dup = store.all_episode_rows();
    dup.push(dipper::store::EpisodeRow {
        podcast_id: 1,
        episode: store.fetch_episode(1).unwrap(),
    });
    assert_eq!(
        Store::load(store.fetch_all_podcasts(), dup, next_pod, next_ep).unwrap_err(),
        StoreError::Corrupt
    );

    // an episode filed under a podcast that is not offered
    let mut orphan = store.all_episode_rows();
    orphan[0].podcast_id = 9;
    assert_eq!(
        Store::load(store.fetch_all_podcasts(), orphan, next_pod, next_ep).unwrap_err(),
        StoreError::Corrupt
    );

    // an id at or above the counter
    assert_eq!(
        Store::load(pods, rows, 1, next_ep).unwrap_err(),
        StoreError::Corrupt
    );
}
