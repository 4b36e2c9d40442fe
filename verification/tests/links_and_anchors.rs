use markdown_render::links::is_external_link;
use markdown_render::anchors::{find_anchor, slugify_anchors};
use markdown_render::wiki::parse_wiki_style_links;

#[test]
fn test_is_external_link() {
    assert!(is_external_link("http://example.com/"));
    assert!(is_external_link("https://example.com/"));
    assert!(is_external_link("https://example.com/index.html#introduction"));

    assert!(!is_external_link("mailto:user@example.com"));
    assert!(!is_external_link("tel:18008675309"));

    assert!(!is_external_link("#introduction"));

    assert!(!is_external_link("http.jpg"))
}

#[test]
fn test_parse_wiki_style_links() {
    assert_eq!(parse_wiki_style_links("[[about|About]]"), "[About](@/about)");
    assert_eq!(parse_wiki_style_links("[[about]]"), "[about](@/about)");
}

#[test]
fn wiki_links_trim_and_leave_other_text_alone() {
    assert_eq!(
        parse_wiki_style_links("see [[ pages/about | About Me ]] here"),
        "see [About Me](@/pages/about) here"
    );
    assert_eq!(parse_wiki_style_links("no links at all"), "no links at all");
    assert_eq!(parse_wiki_style_links("unclosed [[about"), "unclosed [[about");
    assert_eq!(parse_wiki_style_links("[[]] stays"), "[[]] stays");
}

#[test]
fn anchors_deduplicate_with_counters() {
    // requesting "example" against no reserved anchors yields "example";
    // again, "example-1"; a third time, "example-2"
    let none: Vec<String> = vec![];
    assert_eq!(find_anchor(&none, "example".to_string(), 0), "example");
    let one = vec!["example".to_string()];
    assert_eq!(find_anchor(&one, "example".to_string(), 0), "example-1");
    let two = vec!["example".to_string(), "example-1".to_string()];
    assert_eq!(find_anchor(&two, "example".to_string(), 0), "example-2");
}

#[test]
fn slugs_lowercase_and_dash() {
    assert_eq!(slugify_anchors("Hello World"), "hello-world");
    assert_eq!(slugify_anchors("  Rust 2021!  "), "rust-2021");
    assert_eq!(slugify_anchors("Example"), "example");
    assert_eq!(slugify_anchors(""), "");
}
