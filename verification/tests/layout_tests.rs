use blog::layout::{comments_text, cut_title, Spans};
use blog::{Preview, PreviewLayout};

#[test]
fn short_title_is_one_line() {
    let spans = cut_title("Hello, World! API v2");
    assert_eq!(spans, Spans::One(String::from("Hello, World! API v2")));
}

#[test]
fn medium_title_is_two_lines() {
    let spans = cut_title("The quick brown fox jumps over");
    assert_eq!(
        spans,
        Spans::Two(
            String::from("The quick brown fox jumps "),
            String::from("over"),
        )
    );
}

#[test]
fn long_title_is_three_lines() {
    // Three segments of exactly the line budget fill three lines; nothing
    // is dropped, so no ellipsis is appended.
    let a = "a".repeat(26);
    let b = "b".repeat(26);
    let c = "c".repeat(26);
    let title = format!("{a} {b} {c}");
    let spans = cut_title(&title);
    assert_eq!(spans, Spans::Three(a, format!(" {b}"), format!(" {c}")));
}

#[test]
fn overlong_title_drops_tail_and_marks_ellipsis() {
    let a = "a".repeat(26);
    let b = "b".repeat(26);
    let c = "c".repeat(26);
    let d = "d".repeat(26);
    let title = format!("{a} {b} {c} {d}");
    let spans = cut_title(&title);
    assert_eq!(spans, Spans::Three(a, format!(" {b}"), format!(" {c}...")));
}

#[test]
fn wrapping_drops_nothing_up_to_three_lines() {
    let title = "Writing a blog generator in Rust";
    match cut_title(title) {
        Spans::One(a) => assert_eq!(a, title),
        Spans::Two(a, b) => assert_eq!(format!("{a}{b}"), title),
        Spans::Three(a, b, c) => assert_eq!(format!("{a}{b}{c}"), title),
    }
}

#[test]
fn comment_phrase_pluralizes() {
    assert_eq!(comments_text(1), "1 comment");
    assert_eq!(comments_text(0), "0 comments");
    assert_eq!(comments_text(5), "5 comments");
    assert_eq!(comments_text(12345), "12345 comments");
}

#[test]
fn preview_layout_carries_every_field() {
    let preview = Preview {
        username: String::from("kerollmops"),
        publish_date: String::from("May 03, 2024"),
        title: String::from("Hello, World! API v2"),
        comment_count: 1,
    };
    let PreviewLayout { username, publish_date, title_spans, comments_text } = preview.layout();
    assert_eq!(username, "kerollmops");
    assert_eq!(publish_date, "May 03, 2024");
    assert_eq!(title_spans, Spans::One(String::from("Hello, World! API v2")));
    assert_eq!(comments_text, "1 comment");
}

#[test]
fn overlong_first_word_opens_with_an_empty_line() {
    let word = "w".repeat(27);
    let spans = cut_title(&word);
    assert_eq!(spans, Spans::Two(String::new(), word));
}
