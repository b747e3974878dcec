use ssg::config::{default_assets_dir, default_content_dir, default_output_dir, default_templates_dir, default_true, BuildConfig, SiteConfig};
use ssg::parser::{extract_links, page_from_source, split_frontmatter};
use ssg::paths::{build_output_path, detect_collection, file_stem, is_markdown_file, join_path_exec};
use ssg::types::{Frontmatter, Page};

fn page(slug: &str, collection: Option<&str>) -> Page {
    Page {
        slug: slug.to_string(),
        frontmatter: Frontmatter::default(),
        content_html: String::new(),
        content_markdown: String::new(),
        source_path: String::new(),
        output_path: String::new(),
        links: Vec::new(),
        collection: collection.map(|c| c.to_string()),
    }
}

#[test]
fn title_falls_back_to_slug() {
    let mut p = page("about", None);
    assert_eq!(p.title(), "about");
    p.frontmatter.title = Some("About me".to_string());
    assert_eq!(p.title(), "About me");
}

#[test]
fn layout_defaults_to_page() {
    let mut p = page("about", None);
    assert_eq!(p.layout(), "page");
    p.frontmatter.layout = Some("post".to_string());
    assert_eq!(p.layout(), "post");
}

#[test]
fn draft_only_when_marked() {
    let mut p = page("about", None);
    assert!(!p.is_draft());
    p.frontmatter.draft = Some(false);
    assert!(!p.is_draft());
    p.frontmatter.draft = Some(true);
    assert!(p.is_draft());
}

#[test]
fn site_config_defaults() {
    let c = SiteConfig::default();
    assert_eq!(c.title, "My Site");
    assert_eq!(c.description, "A static site");
    assert_eq!(c.base_url, "http://localhost:8080");
    assert_eq!(c.output_dir, "public");
    assert_eq!(c.content_dir, "content");
    assert_eq!(c.assets_dir, "static");
    assert_eq!(c.templates_dir, "templates");
    assert!(!c.build.drafts);
    assert!(!c.build.future);
    let b = BuildConfig::default();
    assert!(!b.drafts && !b.future);
}

#[test]
fn field_defaults() {
    assert_eq!(default_output_dir(), "public");
    assert_eq!(default_content_dir(), "content");
    assert_eq!(default_assets_dir(), "assets");
    assert_eq!(default_templates_dir(), "templates");
    assert!(default_true());
}

#[test]
fn links_to_markdown_pages() {
    let text = "Intro\n[first](./first.md) and [second](second.md)\nSee [docs](https://example.com)\n[deep](./a/b.md.md)\r\n";
    assert_eq!(extract_links(text), vec!["first".to_string(), "a/b".to_string()]);
}

#[test]
fn links_need_all_brackets() {
    assert!(extract_links("[broken](x.md").is_empty());
    assert!(extract_links("no links at all").is_empty());
    assert!(extract_links("").is_empty());
    assert_eq!(extract_links("x ](a.md) [b](c.md)"), vec!["c".to_string()]);
}

#[test]
fn frontmatter_between_fences() {
    let (fm, body) = split_frontmatter("---\ntitle = \"Hi\"\n---\n\n# Body\n\n");
    assert_eq!(fm, Some("\ntitle = \"Hi\"\n".to_string()));
    assert_eq!(body, "# Body");
}

#[test]
fn no_fence_means_whole_body() {
    let (fm, body) = split_frontmatter("  \n# Just text\n\t");
    assert_eq!(fm, None);
    assert_eq!(body, "# Just text");
}

#[test]
fn body_stops_at_third_fence() {
    let (fm, body) = split_frontmatter("---\na = 1\n---\nabove\n---\nbelow");
    assert_eq!(fm, Some("\na = 1\n".to_string()));
    assert_eq!(body, "above");
    let (fm2, body2) = split_frontmatter("text --- more");
    assert_eq!(fm2, Some(" more".to_string()));
    assert_eq!(body2, "");
}

#[test]
fn stems_and_collections() {
    assert_eq!(file_stem("content/posts/hello.md"), Some("hello".to_string()));
    assert_eq!(file_stem("content/.hidden"), Some(".hidden".to_string()));
    assert_eq!(file_stem("a/b.tar.gz"), Some("b.tar".to_string()));
    assert_eq!(detect_collection("content/posts/hello.md"), Some("posts".to_string()));
    assert_eq!(detect_collection("hello.md"), None);
    assert!(is_markdown_file("content/posts/hello.md"));
    assert!(!is_markdown_file("content/.md"));
    assert!(!is_markdown_file("content/notes.txt"));
}

#[test]
fn joining_paths() {
    assert_eq!(join_path_exec("public", "posts"), "public/posts");
    assert_eq!(join_path_exec("public/", "posts"), "public/posts");
    assert_eq!(join_path_exec("public", "/abs"), "/abs");
    assert_eq!(join_path_exec("", "x"), "x");
}

#[test]
fn output_paths() {
    assert_eq!(build_output_path("hello", &Some("posts".to_string())), "public/posts/hello/index.html");
    assert_eq!(build_output_path("about", &None), "public/about/index.html");
    assert_eq!(build_output_path("", &None), "public/index.html");
}

#[test]
fn page_from_a_content_file() {
    let mut fm = Frontmatter::default();
    fm.title = Some("Hello".to_string());
    let p = page_from_source("content/posts/hello-world.md", fm, "# Hello\n\nSee [next](./next.md)").unwrap();
    assert_eq!(p.slug, "hello-world");
    assert_eq!(p.collection, Some("posts".to_string()));
    assert_eq!(p.output_path, "public/posts/hello-world/index.html");
    assert_eq!(p.links, vec!["next".to_string()]);
    assert_eq!(p.source_path, "content/posts/hello-world.md");
    assert_eq!(p.content_markdown, "# Hello\n\nSee [next](./next.md)");
    assert!(p.content_html.contains("<h1>Hello</h1>"));
    assert_eq!(p.title(), "Hello");
}

#[test]
fn slug_from_front_matter_wins() {
    let mut fm = Frontmatter::default();
    fm.slug = Some("custom".to_string());
    let p = page_from_source("content/about.md", fm, "text").unwrap();
    assert_eq!(p.slug, "custom");
    assert_eq!(p.collection, Some("content".to_string()));
    assert_eq!(p.output_path, "public/content/custom/index.html");
}

#[test]
fn links_found_line_by_line() {
    let a = "see [one](one.md)\r";
    let b = "[two](./two.md)\n[three](three.md)";
    let joined = format!("{}\n{}", a, b);
    let mut expected = extract_links(a);
    expected.extend(extract_links(b));
    assert_eq!(extract_links(&joined), expected);
    assert_eq!(expected, vec!["one".to_string(), "two".to_string(), "three".to_string()]);
}
