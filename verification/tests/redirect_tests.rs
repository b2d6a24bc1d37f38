use blog::redirect::{plan_article_writes, ArtifactWrite};
use blog::timeline::{publish_timestamp, rename_froms, TimelineEvent};

fn ev(rename_from: Option<&str>, label: Option<&str>, at: Option<&str>) -> TimelineEvent {
    TimelineEvent {
        rename_from: rename_from.map(String::from),
        label_name: label.map(String::from),
        created_at: at.map(String::from),
    }
}

#[test]
fn redirects_precede_canonical_and_target_it() {
    let history = vec![String::from("Old"), String::from("Mid")];
    let writes = plan_article_writes(&history, "New");
    assert_eq!(writes.len(), 3);
    match &writes[0] {
        ArtifactWrite::Redirect { at, target } => {
            assert_eq!(at, "old");
            assert_eq!(target, "new");
        }
        other => panic!("expected a redirect first, got {other:?}"),
    }
    match &writes[1] {
        ArtifactWrite::Redirect { at, target } => {
            assert_eq!(at, "mid");
            assert_eq!(target, "new");
        }
        other => panic!("expected a redirect second, got {other:?}"),
    }
    match &writes[2] {
        ArtifactWrite::Canonical { at } => assert_eq!(at, "new"),
        other => panic!("expected the canonical page last, got {other:?}"),
    }
}

#[test]
fn no_renames_yield_only_the_canonical_page() {
    let writes = plan_article_writes(&Vec::new(), "Hello, World! API v2");
    assert_eq!(writes.len(), 1);
    match &writes[0] {
        ArtifactWrite::Canonical { at } => assert_eq!(at, "hello-world-api-v2"),
        other => panic!("expected the canonical page, got {other:?}"),
    }
}

#[test]
fn rename_to_same_slug_needs_no_redirect() {
    let history = vec![String::from("Hello World"), String::from("Hello, world!")];
    let writes = plan_article_writes(&history, "Hello World");
    assert_eq!(writes.len(), 1);
    match &writes[0] {
        ArtifactWrite::Canonical { at } => assert_eq!(at, "hello-world"),
        other => panic!("expected the canonical page, got {other:?}"),
    }
}

#[test]
fn titles_sharing_a_slug_get_one_redirect() {
    let history = vec![
        String::from("Old Title"),
        String::from("old title"),
        String::from("OLD? Title!"),
    ];
    let writes = plan_article_writes(&history, "New Title");
    assert_eq!(writes.len(), 2);
    match &writes[0] {
        ArtifactWrite::Redirect { at, target } => {
            assert_eq!(at, "old-title");
            assert_eq!(target, "new-title");
        }
        other => panic!("expected a redirect, got {other:?}"),
    }
}

#[test]
fn renamed_record_gets_redirect_before_canonical() {
    let events = vec![ev(Some("Hello World"), None, Some("2024-01-01T00:00:00Z"))];
    let history = rename_froms(&events);
    assert_eq!(history, vec![String::from("Hello World")]);
    let writes = plan_article_writes(&history, "Hello, World! API v2");
    assert_eq!(writes.len(), 2);
    match &writes[0] {
        ArtifactWrite::Redirect { at, target } => {
            assert_eq!(at, "hello-world");
            assert_eq!(target, "hello-world-api-v2");
        }
        other => panic!("expected the redirect first, got {other:?}"),
    }
    match &writes[1] {
        ArtifactWrite::Canonical { at } => assert_eq!(at, "hello-world-api-v2"),
        other => panic!("expected the canonical page last, got {other:?}"),
    }
}

#[test]
fn rename_froms_keeps_timeline_order() {
    let events = vec![
        ev(None, Some("article"), Some("2024-01-05T00:00:00Z")),
        ev(Some("First"), None, None),
        ev(None, None, None),
        ev(Some("Second"), None, Some("2024-02-01T00:00:00Z")),
    ];
    assert_eq!(
        rename_froms(&events),
        vec![String::from("First"), String::from("Second")]
    );
}

#[test]
fn publish_date_prefers_the_last_labeling_event() {
    let events = vec![
        ev(None, Some("article"), Some("2024-01-05T00:00:00Z")),
        ev(Some("First"), None, Some("2024-01-06T00:00:00Z")),
        ev(None, Some("article"), Some("2024-03-09T00:00:00Z")),
        ev(None, Some("bug"), Some("2024-04-01T00:00:00Z")),
    ];
    assert_eq!(
        publish_timestamp(&events, "2023-12-31T00:00:00Z"),
        "2024-03-09T00:00:00Z"
    );
}

#[test]
fn publish_date_falls_back_to_creation() {
    let events = vec![ev(Some("Old"), None, Some("2024-01-06T00:00:00Z"))];
    assert_eq!(
        publish_timestamp(&events, "2023-12-31T00:00:00Z"),
        "2023-12-31T00:00:00Z"
    );
    assert_eq!(publish_timestamp(&Vec::new(), "2020-02-02T00:00:00Z"), "2020-02-02T00:00:00Z");
}

#[test]
fn labeling_event_without_timestamp_falls_back() {
    let events = vec![
        ev(None, Some("article"), Some("2024-03-09T00:00:00Z")),
        ev(None, Some("article"), None),
    ];
    assert_eq!(
        publish_timestamp(&events, "2023-12-31T00:00:00Z"),
        "2023-12-31T00:00:00Z"
    );
}
