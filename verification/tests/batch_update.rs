use dipper::actions::{ActionError, Add, Episodes, List, Remove};
use dipper::feed::{parse_rss, ParseError};
use dipper::store::Store;
use dipper::update::UpdateError;

fn doc(title: &str, items: &str) -> String {
    format!(
        "<?xml version=\"1.0\"?><rss version=\"2.0\"><channel>\
         <title>{}</title><description>about {}</description>{}\
         </channel></rss>",
        title, title, items
    )
}

fn item(guid: &str, title: &str) -> String {
    format!(
        "<item><guid>{}</guid><title>{}</title><description>d</description></item>",
        guid, title
    )
}

fn seeded_store() -> Store {
    let mut store = Store::new();
    for (title, url) in [("Alpha", "u1"), ("Beta", "u2"), ("Gamma", "u3")] {
        let d = doc(title, "");
        store.insert_podcast(&parse_rss(url, &d).unwrap()).unwrap();
    }
    store
}

#[test]
fn batch_isolation_failed_fetch_does_not_stop_the_batch() {
    // Three stored podcasts; the second's fetch failed (no document).
    // All three are processed, in order, and only the second is failed.
    let mut store = seeded_store();
    let docs = vec![
        Some(doc("Alpha", &item("a1", "one"))),
        None,
        Some(doc("Gamma", &item("c1", "three"))),
    ];
    let lines = store.update_all(&docs).unwrap();
    assert_eq!(
        lines,
        vec![
            "Updated Alpha.".to_string(),
            "Failed to update podcast Beta.".to_string(),
            "Updated Gamma.".to_string(),
        ]
    );
    assert_eq!(store.fetch_episodes(1).len(), 1);
    assert_eq!(store.fetch_episodes(2).len(), 0);
    assert_eq!(store.fetch_episodes(3).len(), 1);
}

#[test]
fn batch_isolation_parse_failure_is_isolated_too() {
    let mut store = seeded_store();
    let docs = vec![
        Some(doc("Alpha", &item("a1", "one"))),
        Some("not a feed".to_string()),
        Some(doc("Gamma", &item("c1", "three"))),
    ];
    let lines = store.update_all(&docs).unwrap();
    assert_eq!(lines[1], "Failed to update podcast Beta.");
    assert_eq!(lines.len(), 3);
    assert_eq!(store.fetch_episodes(1).len(), 1);
    assert_eq!(store.fetch_episodes(3).len(), 1);
}

#[test]
fn full_update_twice_adds_nothing_new() {
    let mut store = seeded_store();
    let docs = vec![
        Some(doc("Alpha", &item("a1", "one"))),
        Some(doc("Beta", &item("b1", "two"))),
        Some(doc("Gamma", &item("c1", "three"))),
    ];
    let first = store.update_all(&docs).unwrap();
    let second = store.update_all(&docs).unwrap();
    assert_eq!(first, second);
    assert_eq!(store.fetch_episodes(1).len(), 1);
    assert_eq!(store.fetch_episodes(2).len(), 1);
    assert_eq!(store.fetch_episodes(3).len(), 1);
}

#[test]
fn targeted_update_merges_under_requested_id() {
    let mut store = seeded_store();
    let line = store
        .update_podcast(2, &doc("Beta", &item("b1", "two")))
        .unwrap();
    assert_eq!(line, "Updated Beta.");
    assert_eq!(store.fetch_episodes(2).len(), 1);
    assert_eq!(store.fetch_episodes(1).len(), 0);
}

#[test]
fn targeted_update_errors_are_hard() {
    let mut store = seeded_store();
    assert_eq!(
        store.update_podcast(9, "whatever").unwrap_err(),
        UpdateError::NotFound
    );
    assert_eq!(
        store.update_podcast(1, "not a feed").unwrap_err(),
        UpdateError::Parse
    );
    assert_eq!(store.fetch_episodes(1).len(), 0);
}

#[test]
fn add_action_reports_parsed_title() {
    let mut store = Store::new();
    let add = Add { url: "https://example.org/f".to_string() };
    let lines = add
        .run(&mut store, &doc("Fresh Cast", &item("g1", "one")))
        .unwrap();
    assert_eq!(lines, vec!["Added Fresh Cast.".to_string()]);
    assert_eq!(store.fetch_all_podcasts().len(), 1);
    assert_eq!(store.fetch_episodes(1).len(), 1);
}

#[test]
fn add_action_rejects_bad_document() {
    let mut store = Store::new();
    let add = Add { url: "u".to_string() };
    let err = add.run(&mut store, "junk").unwrap_err();
    assert_eq!(err, ActionError::Parse(ParseError::Document));
    assert!(store.fetch_all_podcasts().is_empty());
}

#[test]
fn list_action_lines_and_limit() {
    let store = seeded_store();
    let all = List { id: None, detailed: false, limit: None };
    assert_eq!(
        all.run(&store).unwrap(),
        vec!["1 => Alpha".to_string(), "2 => Beta".to_string(), "3 => Gamma".to_string()]
    );
    let two = List { id: None, detailed: false, limit: Some(2) };
    assert_eq!(two.run(&store).unwrap().len(), 2);
    let neg = List { id: None, detailed: false, limit: Some(-1) };
    assert_eq!(neg.run(&store).unwrap().len(), 3);
    let one = List { id: Some(2), detailed: false, limit: None };
    assert_eq!(one.run(&store).unwrap(), vec!["2 => Beta".to_string()]);
    let missing = List { id: Some(9), detailed: false, limit: None };
    assert!(missing.run(&store).is_err());
}

#[test]
fn episodes_action_lines_and_limit() {
    let mut store = seeded_store();
    let docs = vec![
        Some(doc("Alpha", &format!("{}{}", item("a1", "one"), item("a2", "two")))),
        None,
        None,
    ];
    store.update_all(&docs).unwrap();
    let all = Episodes { id: 1, detailed: false, limit: None };
    assert_eq!(
        all.run(&store).unwrap(),
        vec!["1 => one".to_string(), "2 => two".to_string()]
    );
    let zero = Episodes { id: 1, detailed: false, limit: Some(0) };
    assert!(zero.run(&store).unwrap().is_empty());
    let neg = Episodes { id: 1, detailed: false, limit: Some(-5) };
    assert_eq!(neg.run(&store).unwrap().len(), 2);
}

#[test]
fn remove_action_reports_title_or_absence() {
    let mut store = seeded_store();
    let rm = Remove { id: 2 };
    assert_eq!(rm.run(&mut store), vec!["Removed Beta.".to_string()]);
    assert_eq!(store.fetch_all_podcasts().len(), 2);
    let again = Remove { id: 2 };
    assert_eq!(again.run(&mut store), vec!["No podcast with id 2.".to_string()]);
}
