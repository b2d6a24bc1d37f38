use blog::images::{fnv1a_hash, hash_path_from_url, replace_img_srcs_with_hashes};

#[test]
fn hash_is_deterministic_fnv1a() {
    assert_eq!(fnv1a_hash("https://x.com/i.png"), 0xaf5f9f85ad190a84);
    assert_eq!(
        hash_path_from_url("https://x.com/i.png"),
        "assets/images/af5f9f85ad190a84.png"
    );
}

#[test]
fn extension_comes_from_the_path_not_the_query() {
    assert_eq!(
        hash_path_from_url("https://example.com/images/photo.jpeg?s=2"),
        "assets/images/493237747b0ff16a.jpeg"
    );
}

#[test]
fn extension_defaults_to_png() {
    // No path at all after the authority.
    assert_eq!(
        hash_path_from_url("https://example.com"),
        "assets/images/837b2b5793a240b3.png"
    );
    // A trailing dot carries no extension.
    assert_eq!(
        hash_path_from_url("https://example.com/file."),
        "assets/images/2dbb11a45c3ec764.png"
    );
}

#[test]
fn relative_urls_still_get_a_path() {
    assert_eq!(
        hash_path_from_url("relative/dir/img.gif#frag"),
        "assets/images/cadc06d23e75f0a2.gif"
    );
}

#[test]
fn same_url_twice_yields_one_cache_entry() {
    let html = "<p>first <a href=\"https://x.com/i.png\"><img src=\"https://x.com/i.png\"></a> \
        and again <a href=\"https://x.com/i.png\"><img src=\"https://x.com/i.png\"></a></p>";
    let (pairs, rewritten) = replace_img_srcs_with_hashes(html);
    assert_eq!(pairs.len(), 1);
    assert_eq!(pairs[0].0, "https://x.com/i.png");
    let path = "assets/images/af5f9f85ad190a84.png";
    assert_eq!(pairs[0].1, path);
    let src_attr = format!("src=\"{path}\"");
    let href_attr = format!("href=\"{path}\"");
    assert_eq!(rewritten.matches(&src_attr).count(), 2);
    assert_eq!(rewritten.matches(&href_attr).count(), 2);
    assert!(!rewritten.contains("https://x.com/i.png"));
}

#[test]
fn distinct_urls_get_distinct_entries() {
    let html = "<a href=\"https://x.com/i.png\"><img src=\"https://x.com/i.png\"></a>\
        <a href=\"https://example.com/images/photo.jpeg?s=2\">\
        <img src=\"https://example.com/images/photo.jpeg?s=2\"></a>\
        <img src=\"https://x.com/not-linked.png\">";
    let (pairs, rewritten) = replace_img_srcs_with_hashes(html);
    assert_eq!(pairs.len(), 2);
    assert_eq!(pairs[0].0, "https://x.com/i.png");
    assert_eq!(pairs[1].0, "https://example.com/images/photo.jpeg?s=2");
    // The unlinked image is not rehosted.
    assert!(rewritten.contains("https://x.com/not-linked.png"));
}
