use blog::slug::correct_dash_case;

#[test]
fn slug_of_ordinary_title() {
    assert_eq!(correct_dash_case("Hello, World! API v2"), "hello-world-api-v2");
}

#[test]
fn slug_is_idempotent() {
    let titles = [
        "Hello, World! API v2",
        "  ??Hello---World!! ",
        "Rust & the art of ASCII",
        "-- already -- dashed --",
        "2024 in review",
    ];
    for t in titles {
        let once = correct_dash_case(t);
        let twice = correct_dash_case(&once);
        assert_eq!(twice, once);
    }
}

#[test]
fn slug_has_no_stray_hyphens() {
    let slug = correct_dash_case("  ??Hello---World!! ");
    assert_eq!(slug, "hello-world");
    assert!(!slug.starts_with('-'));
    assert!(!slug.ends_with('-'));
    assert!(!slug.contains("--"));
}

#[test]
fn slug_lowercases_and_collapses() {
    assert_eq!(correct_dash_case("My GREAT Day"), "my-great-day");
    assert_eq!(correct_dash_case("a!b@c#d"), "a-b-c-d");
    assert_eq!(correct_dash_case("snake_case title"), "snake-case-title");
}

#[test]
fn slug_of_punctuation_only_title_is_empty() {
    assert_eq!(correct_dash_case("?!... --- !!"), "");
    assert_eq!(correct_dash_case(""), "");
}

#[test]
fn slug_treats_non_ascii_as_separator() {
    assert_eq!(correct_dash_case("héllo wörld"), "h-llo-w-rld");
}
