use blog::date::format_publish_date;
use blog::guest_user;
use blog::reactions::{collect_reactions, ReactionContent};

#[test]
fn reactions_are_tallied_by_category() {
    let reactions = vec![
        ReactionContent::Heart,
        ReactionContent::PlusOne,
        ReactionContent::Heart,
        ReactionContent::Rocket,
        ReactionContent::Eyes,
        ReactionContent::Heart,
        ReactionContent::MinusOne,
    ];
    let counts = collect_reactions(&reactions);
    assert_eq!(counts.heart, 3);
    assert_eq!(counts.plus_one, 1);
    assert_eq!(counts.laugh, 0);
    assert_eq!(counts.confused, 0);
    assert_eq!(counts.hooray, 0);
    assert_eq!(counts.minus_one, 1);
    assert_eq!(counts.rocket, 1);
    assert_eq!(counts.eyes, 1);
}

#[test]
fn no_reactions_tally_to_zero() {
    let counts = collect_reactions(&Vec::new());
    assert_eq!(counts.heart, 0);
    assert_eq!(counts.eyes, 0);
}

#[test]
fn timestamps_format_as_display_dates() {
    assert_eq!(format_publish_date("2024-05-03T10:30:00Z"), "May 03, 2024");
    assert_eq!(format_publish_date("1999-12-31T23:59:59Z"), "December 31, 1999");
    assert_eq!(format_publish_date("2020-01-01"), "January 01, 2020");
}

#[test]
fn malformed_timestamps_are_shown_unchanged() {
    assert_eq!(format_publish_date("yesterday"), "yesterday");
    assert_eq!(format_publish_date("2024-13-01T00:00:00Z"), "2024-13-01T00:00:00Z");
}

#[test]
fn owner_is_no_guest_author() {
    assert_eq!(guest_user(String::from("Kerollmops"), "kerollmops"), None);
    assert_eq!(
        guest_user(String::from("irevoire"), "kerollmops"),
        Some(String::from("irevoire"))
    );
}

#[test]
fn published_record_end_to_end() {
    // A record titled "Hello, World! API v2", never renamed, one comment.
    let title = "Hello, World! API v2";
    assert_eq!(blog::slug::correct_dash_case(title), "hello-world-api-v2");
    let writes = blog::redirect::plan_article_writes(&Vec::new(), title);
    assert_eq!(writes.len(), 1);
    assert!(matches!(
        &writes[0],
        blog::redirect::ArtifactWrite::Canonical { at } if at == "hello-world-api-v2"
    ));
    assert_eq!(blog::layout::comments_text(1), "1 comment");
    assert!(matches!(blog::layout::cut_title(title), blog::layout::Spans::One(_)));
}

#[test]
fn month_zero_is_not_a_date() {
    assert_eq!(format_publish_date("2024-00-10T00:00:00Z"), "2024-00-10T00:00:00Z");
}
