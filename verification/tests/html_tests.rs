use blog::html::{insert_anchor_to_headers, insert_table_class_to_table, linkify_at_references, synopsis};

#[test]
fn bio_references_become_profile_links() {
    assert_eq!(
        linkify_at_references("by @kerollmops and @foo_bar!"),
        "by <a href=\"https://github.com/kerollmops\">@kerollmops</a> \
         and <a href=\"https://github.com/foo_bar\">@foo_bar</a>!"
    );
}

#[test]
fn lone_at_sign_is_kept() {
    assert_eq!(linkify_at_references("mail @ home"), "mail @ home");
    assert_eq!(linkify_at_references("trailing @"), "trailing @");
}

#[test]
fn tables_get_display_classes() {
    assert_eq!(
        insert_table_class_to_table("<table role=\"table\"><tr></tr></table>"),
        "<table class=\"table table-striped\" role=\"table\"><tr></tr></table>"
    );
    assert_eq!(insert_table_class_to_table("<table><tr></tr></table>"), "<table><tr></tr></table>");
}

#[test]
fn headers_get_anchors_with_the_text_slug() {
    assert_eq!(
        insert_anchor_to_headers("<h2 dir=\"auto\">Hello World</h2>"),
        "<h2 id=\"hello-world\" dir=\"auto\"><a href=\"#hello-world\">Hello World</a></h2>"
    );
}

#[test]
fn top_level_header_is_untouched() {
    assert_eq!(
        insert_anchor_to_headers("<h1 dir=\"auto\">Title</h1>"),
        "<h1 dir=\"auto\">Title</h1>"
    );
}

#[test]
fn mismatched_closing_tag_is_untouched() {
    assert_eq!(
        insert_anchor_to_headers("<h2 dir=\"auto\">oops</h3>"),
        "<h2 dir=\"auto\">oops</h3>"
    );
}

#[test]
fn synopsis_is_the_first_comment() {
    assert_eq!(
        synopsis("<p>intro</p><!-- the synopsis --><!-- not this one -->"),
        " the synopsis "
    );
}

#[test]
fn body_without_comment_has_empty_synopsis() {
    assert_eq!(synopsis("<p>no comment here</p>"), "");
    assert_eq!(synopsis(""), "");
}

#[test]
fn unterminated_comment_runs_to_the_end() {
    assert_eq!(synopsis("a<!--tail"), "tail");
}

#[test]
fn every_header_in_the_body_gets_its_anchor() {
    assert_eq!(
        insert_anchor_to_headers("<p>a</p><h3 x=\"1\">One Two</h3><p>b</p><h4 y=\"2\">Three</h4>"),
        "<p>a</p><h3 id=\"one-two\" x=\"1\"><a href=\"#one-two\">One Two</a></h3>\
         <p>b</p><h4 id=\"three\" y=\"2\"><a href=\"#three\">Three</a></h4>"
    );
}
