use markdown_render::{render_content, InsertAnchor, RenderContext, RenderError, ShortcodeDef};

const CONTINUE_READING: &str = "<span id=\"continue-reading\"></span>";

fn base_context<'a>(
    tera: &'a tera::Tera,
    permalinks: Vec<(String, String)>,
    insert_anchor: InsertAnchor,
) -> RenderContext<'a> {
    RenderContext::new(tera, tera::Context::new(), "en", "", permalinks, insert_anchor)
}

#[test]
fn can_make_wiki_style_links() {
    let mut permalinks_ctx = Vec::new();
    permalinks_ctx.push(("about".to_string(), "/about".to_string()));

    let tera_ctx = tera::Tera::default();
    let context = base_context(&tera_ctx, permalinks_ctx, InsertAnchor::NoAnchor);
    let res = render_content(r#"[[about]]"#, &context).unwrap();
    assert!(res.body.contains(r#"<p><a href="/about">about</a></p>"#));
}

#[test]
fn can_make_wiki_style_links_with_relative_link() {
    let mut permalinks_ctx = Vec::new();
    permalinks_ctx.push(("pages/about".to_string(), "pages/about".to_string()));

    let tera_ctx = tera::Tera::default();
    let context = base_context(&tera_ctx, permalinks_ctx, InsertAnchor::NoAnchor);
    let res = render_content(r#"[[pages/about|About Me]]"#, &context).unwrap();
    println!("{}", res.body);
    assert!(res.body.contains(r#"<p><a href="pages/about">About Me</a></p>"#));
}

#[test]
fn can_make_wiki_style_links_with_link_name() {
    let mut permalinks_ctx = Vec::new();
    permalinks_ctx.push(("about".to_string(), "https://vincent.is/about".to_string()));

    let tera_ctx = tera::Tera::default();
    let context = base_context(&tera_ctx, permalinks_ctx, InsertAnchor::NoAnchor);
    let res = render_content(r#"[[about|About Me]]"#, &context).unwrap();
    println!("{}", res.body);
    assert!(res.body.contains(r#"<p><a href="https://vincent.is/about">About Me</a></p>"#));
}

#[test]
fn wiki_style_link_nonnexistant_still_works() {
    let tera_ctx = tera::Tera::default();
    let context = base_context(&tera_ctx, Vec::new(), InsertAnchor::NoAnchor);
    let res = render_content("[[about]]", &context);
    assert!(res.is_err());
    let res = render_content("[[about|About]]", &context);
    assert!(res.is_err());
}

#[test]
fn broken_internal_link_fails_whole_render() {
    let tera = tera::Tera::default();
    let context = base_context(&tera, Vec::new(), InsertAnchor::NoAnchor);
    let res = render_content("[go](@/missing)", &context);
    assert!(matches!(res, Err(RenderError::BrokenInternalLink(_))));
}

#[test]
fn internal_link_with_anchor_is_recorded() {
    let tera = tera::Tera::default();
    let permalinks = vec![("about".to_string(), "/about/".to_string())];
    let context = base_context(&tera, permalinks, InsertAnchor::NoAnchor);
    let res = render_content("[go](@/about#history)", &context).unwrap();
    assert!(res.body.contains(r#"<a href="/about/#history">go</a>"#));
    assert_eq!(res.internal_links, vec![("about".to_string(), Some("history".to_string()))]);
    assert!(res.external_links.is_empty());
}

#[test]
fn external_links_are_collected() {
    let tera = tera::Tera::default();
    let context = base_context(&tera, Vec::new(), InsertAnchor::NoAnchor);
    let res = render_content(
        "[a](https://example.com/) and [b](mailto:user@example.com)",
        &context,
    )
    .unwrap();
    assert_eq!(res.external_links, vec!["https://example.com/".to_string()]);
}

#[test]
fn external_link_decoration_rewrites_the_tag() {
    let tera = tera::Tera::default();
    let mut context = base_context(&tera, Vec::new(), InsertAnchor::NoAnchor);
    context.external_links_target_blank = true;
    context.external_links_no_follow = true;
    let res = render_content("[x](https://example.com/)", &context).unwrap();
    assert!(res.body.contains(
        r#"<a target="_blank" rel="noopener nofollow" href="https://example.com/">"#
    ));
    assert_eq!(res.external_links, vec!["https://example.com/".to_string()]);
}

#[test]
fn missing_link_url_is_an_error() {
    let tera = tera::Tera::default();
    let context = base_context(&tera, Vec::new(), InsertAnchor::NoAnchor);
    let res = render_content("[text]()", &context);
    assert!(matches!(res, Err(RenderError::MissingLinkUrl)));
}

#[test]
fn headings_get_slug_ids_and_toc() {
    let tera = tera::Tera::default();
    let mut context = base_context(&tera, Vec::new(), InsertAnchor::NoAnchor);
    context.current_page_permalink = "https://site.example/page/".to_string();
    let res = render_content("# Hello World\n\n## Second Part\n", &context).unwrap();
    assert!(res.body.contains(r#"<h1 id="hello-world">Hello World</h1>"#));
    assert!(res.body.contains(r#"<h2 id="second-part">Second Part</h2>"#));
    assert_eq!(res.toc.len(), 1);
    assert_eq!(res.toc[0].id, "hello-world");
    assert_eq!(res.toc[0].title, "Hello World");
    assert_eq!(res.toc[0].permalink, "https://site.example/page/#hello-world");
    assert_eq!(res.toc[0].children.len(), 1);
    assert_eq!(res.toc[0].children[0].id, "second-part");
}

#[test]
fn manual_heading_id_reserves_and_strips() {
    let tera = tera::Tera::default();
    let context = base_context(&tera, Vec::new(), InsertAnchor::NoAnchor);
    let res = render_content("# Title {#custom}\n\n# custom\n", &context).unwrap();
    // the manual id wins document-wide, the marker leaves the rendered title,
    // and the later auto slug that would collide gets a counter
    assert!(res.body.contains(r#"<h1 id="custom">Title</h1>"#));
    assert!(res.body.contains(r#"<h1 id="custom-1">custom</h1>"#));
    assert_eq!(res.toc[0].title, "Title");
}

#[test]
fn duplicate_manual_ids_are_deduplicated() {
    let tera = tera::Tera::default();
    let context = base_context(&tera, Vec::new(), InsertAnchor::NoAnchor);
    // the document-wide uniqueness of heading ids holds even when two manual
    // markers ask for the same id
    let res = render_content("# One {#same}\n\n# Two {#same}\n", &context).unwrap();
    assert!(res.body.contains(r#"<h1 id="same">One</h1>"#));
    assert!(res.body.contains(r#"<h1 id="same-1">Two</h1>"#));
}

#[test]
fn manual_ids_are_reserved_before_auto_ids() {
    let tera = tera::Tera::default();
    let context = base_context(&tera, Vec::new(), InsertAnchor::NoAnchor);
    // the manual id wins document-wide even when its heading comes later
    let res = render_content("# custom\n\n# Title {#custom}\n", &context).unwrap();
    assert!(res.body.contains(r#"<h1 id="custom-1">custom</h1>"#));
    assert!(res.body.contains(r#"<h1 id="custom">Title</h1>"#));
}

#[test]
fn colliding_slugs_count_up() {
    let tera = tera::Tera::default();
    let context = base_context(&tera, Vec::new(), InsertAnchor::NoAnchor);
    let res = render_content("# Example\n\n# Example\n\n# Example\n", &context).unwrap();
    assert!(res.body.contains(r#"<h1 id="example">"#));
    assert!(res.body.contains(r#"<h1 id="example-1">"#));
    assert!(res.body.contains(r#"<h1 id="example-2">"#));
}

#[test]
fn excerpt_marker_sets_summary_len() {
    let tera = tera::Tera::default();
    let context = base_context(&tera, Vec::new(), InsertAnchor::NoAnchor);
    let res = render_content("Summary here\n\n<!-- more -->\n\nThe rest\n", &context).unwrap();
    assert!(res.body.contains(CONTINUE_READING));
    assert_eq!(res.summary_len, res.body.find(CONTINUE_READING));
    assert!(res.summary_len.is_some());

    let res2 = render_content("No break here\n", &context).unwrap();
    assert_eq!(res2.summary_len, None);
}

#[test]
fn rendering_is_deterministic() {
    let tera = tera::Tera::default();
    let permalinks = vec![("about".to_string(), "/about/".to_string())];
    let content =
        "# One\n\nSome *text* with [a link](@/about#x) and [ext](https://e.example/).\n\n<!-- more -->\n\n## Two\n";
    let mk = || base_context(&tera, permalinks.clone(), InsertAnchor::NoAnchor);
    let c1 = mk();
    let c2 = mk();
    let r1 = render_content(content, &c1).unwrap();
    let r2 = render_content(content, &c2).unwrap();
    assert_eq!(r1.body, r2.body);
    assert_eq!(r1.summary_len, r2.summary_len);
    assert_eq!(r1.internal_links, r2.internal_links);
    assert_eq!(r1.external_links, r2.external_links);
    assert_eq!(r1.toc.len(), r2.toc.len());
    for (a, b) in r1.toc.iter().zip(r2.toc.iter()) {
        assert_eq!(a.id, b.id);
        assert_eq!(a.permalink, b.permalink);
        assert_eq!(a.title, b.title);
    }
}

#[test]
fn emoji_substitution_is_optional() {
    let tera = tera::Tera::default();
    let mut context = base_context(&tera, Vec::new(), InsertAnchor::NoAnchor);
    let res = render_content("Hello :smile:", &context).unwrap();
    assert!(res.body.contains(":smile:"));
    context.render_emoji = true;
    let res2 = render_content("Hello :smile:", &context).unwrap();
    assert!(!res2.body.contains(":smile:"));
    assert!(res2.body.contains("\u{1F604}"));
}

#[test]
fn fenced_code_blocks_are_wrapped_and_escaped() {
    let tera = tera::Tera::default();
    let context = base_context(&tera, Vec::new(), InsertAnchor::NoAnchor);
    let res = render_content("```rust\nlet x = a < b;\n```\n", &context).unwrap();
    assert!(res.body.contains(r#"<pre><code class="language-rust">"#));
    assert!(res.body.contains("let x = a &lt; b;"));
    assert!(res.body.contains("</code></pre>"));
}

#[test]
fn undefined_shortcode_fails_extraction() {
    let tera = tera::Tera::default();
    let context = base_context(&tera, Vec::new(), InsertAnchor::NoAnchor);
    let res = render_content("Hello {{ nosuch() }}", &context);
    assert!(matches!(res, Err(RenderError::UndefinedShortcode(_))));
}

#[test]
fn html_shortcode_output_is_spliced() {
    let mut tera = tera::Tera::default();
    tera.add_raw_template("shortcodes/note.html", "<div class=\"note\">noted</div>")
        .unwrap();
    let mut context = base_context(&tera, Vec::new(), InsertAnchor::NoAnchor);
    context.shortcode_definitions = vec![ShortcodeDef { name: "note".to_string(), is_md: false }];
    let res = render_content("Before\n\n{{ note() }}\n\nAfter", &context).unwrap();
    assert!(res.body.contains("<div class=\"note\">noted</div>"));
    assert!(!res.body.contains("@@SHORTCODE@@"));
}

#[test]
fn md_shortcode_expands_before_tokenizing() {
    let mut tera = tera::Tera::default();
    tera.add_raw_template("shortcodes/shout.md", "**{{ word }}**").unwrap();
    let mut context = base_context(&tera, Vec::new(), InsertAnchor::NoAnchor);
    context.shortcode_definitions = vec![ShortcodeDef { name: "shout".to_string(), is_md: true }];
    let res = render_content("say {% shout(word=\"hey\") %}{% end %} now", &context).unwrap();
    assert!(res.body.contains("<strong>hey</strong>"));
}

#[test]
fn failing_shortcode_template_is_an_error() {
    let tera = tera::Tera::default();
    let mut context = base_context(&tera, Vec::new(), InsertAnchor::NoAnchor);
    context.shortcode_definitions = vec![ShortcodeDef { name: "note".to_string(), is_md: false }];
    let res = render_content("{{ note() }}", &context);
    assert!(matches!(res, Err(RenderError::ShortcodeRender(_))));
}

#[test]
fn anchor_links_are_inserted_where_configured() {
    let mut tera = tera::Tera::default();
    tera.add_raw_template("anchor-link.html", "<a class=\"zola-anchor\" href=\"#{{ id }}\">#</a>")
        .unwrap();
    let mut context = base_context(&tera, Vec::new(), InsertAnchor::Left);
    context.current_page_permalink = "/p/".to_string();
    let res = render_content("# Hello\n", &context).unwrap();
    assert!(res.body.contains("zola-anchor"));
    assert!(res.body.contains("href=\"#hello\""));
    assert_eq!(res.toc[0].permalink, "/p/#hello");
}
