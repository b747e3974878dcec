use ssg::config::{BuildConfig, SiteConfig};
use ssg::graph::build_dependency_graph;
use ssg::groups::indices_in_range;
use ssg::render::{collection_summaries, collection_view, page_view, site_info, summarize};
use ssg::rss::generate_rss;
use ssg::site_build::{
    collection_index_under, collection_needs_rebuild, feed_needs_rebuild, feed_path_under, group_by_collection,
    include_page, latest, page_needs_rebuild, sitemap_needs_rebuild, sitemap_path_under, sort_pages_by_date,
    tag_index_under, tag_needs_rebuild,
};
use ssg::sitemap::generate_sitemap;
use ssg::tags::{collect_tags, safe_tag, tag_page, tag_pages};
use ssg::types::{Frontmatter, Page};

fn page(slug: &str, collection: Option<&str>) -> Page {
    Page {
        slug: slug.to_string(),
        frontmatter: Frontmatter::default(),
        content_html: String::new(),
        content_markdown: String::new(),
        source_path: format!("content/{}.md", slug),
        output_path: String::new(),
        links: Vec::new(),
        collection: collection.map(|c| c.to_string()),
    }
}

fn config() -> SiteConfig {
    let mut c = SiteConfig::default();
    c.title = "Blog".to_string();
    c.description = "Notes".to_string();
    c.base_url = "https://ex.org".to_string();
    c
}

fn groups_as_pairs<V: Clone>(g: &ssg::groups::Groups<V>) -> Vec<(String, Vec<V>)> {
    g.entries().clone()
}

#[test]
fn backlinks_per_target() {
    let mut a = page("a", None);
    a.links = vec!["b".to_string(), "c".to_string(), "b".to_string()];
    let mut b = page("b", None);
    b.links = vec!["c".to_string()];
    let graph = build_dependency_graph(&[a, b]);
    let mut pairs = groups_as_pairs(&graph);
    pairs.sort();
    assert_eq!(
        pairs,
        vec![
            ("b".to_string(), vec!["a".to_string(), "a".to_string()]),
            ("c".to_string(), vec!["a".to_string(), "b".to_string()]),
        ]
    );
}

#[test]
fn tags_gather_pages() {
    let mut a = page("a", None);
    a.frontmatter.tags = vec!["rust".to_string(), "web".to_string()];
    let mut b = page("b", None);
    b.frontmatter.tags = vec!["rust".to_string()];
    let c = page("c", None);
    let pages = vec![a, b, c];
    let tags = collect_tags(&pages);
    let mut pairs = groups_as_pairs(&tags);
    pairs.sort();
    assert_eq!(pairs, vec![("rust".to_string(), vec![0, 1]), ("web".to_string(), vec![0])]);
    assert!(indices_in_range(&tags, pages.len()));
    assert!(!indices_in_range(&tags, 1));
}

#[test]
fn tag_names_in_addresses() {
    assert_eq!(safe_tag("Open Source"), "open-source");
    assert_eq!(safe_tag("rust"), "rust");
    let mut a = page("a", Some("posts"));
    a.frontmatter.tags = vec!["Open Source".to_string()];
    let pages = vec![a];
    let tp = tag_page(&"Open Source".to_string(), &vec![0], &pages, &config());
    assert_eq!(tp.safe_tag, "open-source");
    assert_eq!(tp.view.title, "Tagged: Open Source");
    assert_eq!(tp.view.name, "Open Source");
    assert_eq!(tp.view.template, "list.html");
    assert_eq!(tp.view.output_path, "public/tags/open-source/index.html");
    assert_eq!(tp.view.pages.len(), 1);
    assert_eq!(tp.view.pages[0].slug, "a");
    let all = tag_pages(&collect_tags(&pages), &pages, &config());
    assert_eq!(all.len(), 1);
    assert_eq!(all[0].view.output_path, "public/tags/open-source/index.html");
}

#[test]
fn collections_by_membership() {
    let pages = vec![page("p1", Some("posts")), page("x", None), page("p2", Some("posts")), page("w", Some("projects"))];
    let groups = group_by_collection(&pages);
    let mut pairs = groups_as_pairs(&groups);
    pairs.sort();
    assert_eq!(pairs, vec![("posts".to_string(), vec![0, 2]), ("projects".to_string(), vec![3])]);
}

#[test]
fn drafts_follow_the_switch() {
    let mut d = page("d", None);
    d.frontmatter.draft = Some(true);
    let on = BuildConfig { drafts: true, future: true };
    let off = BuildConfig { drafts: false, future: true };
    assert!(include_page(&d, &on));
    assert!(!include_page(&d, &off));
    assert!(include_page(&page("p", None), &off));
}

fn dated(slug: &str, date: Option<&str>) -> Page {
    let mut p = page(slug, None);
    p.frontmatter.date = date.map(|d| d.to_string());
    p
}

#[test]
fn newest_first_undated_last_stable() {
    let mut pages = vec![
        dated("u1", None),
        dated("old", Some("2024-01-01")),
        dated("new", Some("2025-06-01")),
        dated("u2", None),
        dated("same1", Some("2024-05-05")),
        dated("same2", Some("2024-05-05")),
    ];
    sort_pages_by_date(&mut pages);
    let slugs: Vec<&str> = pages.iter().map(|p| p.slug.as_str()).collect();
    assert_eq!(slugs, vec!["new", "same1", "same2", "old", "u1", "u2"]);
}

#[test]
fn feed_of_posts() {
    let mut p = page("hello", Some("posts"));
    p.frontmatter.title = Some("Hello".to_string());
    p.frontmatter.date = Some("2026-04-18".to_string());
    let q = page("about", None);
    let mut r = page("quiet", Some("posts"));
    r.frontmatter.description = Some("Shh".to_string());
    let rss = generate_rss(&[p, q, r], &config());
    let expected = "<?xml version=\"1.0\" encoding=\"UTF-8\"?>\n<rss version=\"2.0\" xmlns:atom=\"http://www.w3.org/2005/Atom\">\n<channel>\n    <title>Blog</title>\n    <description>Notes</description>\n    <link>https://ex.org</link>\n    <atom:link href=\"https://ex.org/feed.xml\" rel=\"self\" type=\"application/rss+xml\"/>\n    <item>\n        <title>Hello</title>\n        <description></description>\n        <link>https://ex.org/posts/hello/</link>\n        <guid>https://ex.org/posts/hello/</guid>\n        <pubDate>2026-04-18</pubDate>\n    </item>\n    <item>\n        <title>quiet</title>\n        <description>Shh</description>\n        <link>https://ex.org/posts/quiet/</link>\n        <guid>https://ex.org/posts/quiet/</guid>\n    </item>\n</channel>\n</rss>";
    assert_eq!(rss, expected);
}

#[test]
fn feed_keeps_twenty_posts() {
    let pages: Vec<Page> = (0..25).map(|i| page(&format!("p{}", i), Some("posts"))).collect();
    let rss = generate_rss(&pages, &config());
    assert_eq!(rss.matches("<item>").count(), 20);
    assert!(rss.contains("/posts/p19/"));
    assert!(!rss.contains("/posts/p20/"));
}

#[test]
fn sitemap_lists_every_page() {
    let pages = vec![page("hello", Some("posts")), page("about", None)];
    let map = generate_sitemap(&pages, &config());
    let expected = "<?xml version=\"1.0\" encoding=\"UTF-8\"?>\n<urlset xmlns=\"http://www.sitemaps.org/schemas/sitemap/0.9\">\n  <url>\n    <loc>https://ex.org/</loc>\n    <changefreq>weekly</changefreq>\n  </url>\n  <url>\n    <loc>https://ex.org/posts/hello/</loc>\n    <changefreq>monthly</changefreq>\n  </url>\n  <url>\n    <loc>https://ex.org/about/</loc>\n    <changefreq>monthly</changefreq>\n  </url>\n</urlset>";
    assert_eq!(map, expected);
}

#[test]
fn views_for_templates() {
    let mut p = page("hello", Some("posts"));
    p.frontmatter.description = Some("Hi".to_string());
    p.frontmatter.tags = vec!["t".to_string()];
    p.content_html = "<p>x</p>".to_string();
    p.output_path = "public/posts/hello/index.html".to_string();
    let pages = vec![p.clone()];
    let groups = group_by_collection(&pages);
    let v = page_view(&p, &config(), &groups, &pages);
    assert_eq!(v.template, "page.html");
    assert_eq!(v.title, "hello");
    assert_eq!(v.description, "Hi");
    assert_eq!(v.date, "");
    assert_eq!(v.og_image, "");
    assert_eq!(v.tags, vec!["t".to_string()]);
    assert_eq!(v.content, "<p>x</p>");
    assert_eq!(v.site.base_url, "https://ex.org");
    assert_eq!(v.collections.len(), 1);
    assert_eq!(v.collections[0].name, "posts");
    assert_eq!(v.collections[0].pages[0].description, Some("Hi".to_string()));
    assert_eq!(v.output_path, "public/posts/hello/index.html");
    let cs = collection_summaries(&groups, &pages);
    assert_eq!(cs.len(), 1);
    let s = summarize(&p);
    assert_eq!(s.title, "hello");
    assert_eq!(s.date, None);
    assert_eq!(site_info(&config()).title, "Blog");
}

#[test]
fn collection_headings() {
    let pages = vec![page("a", Some("posts"))];
    let c = config();
    let v = collection_view("posts", &pages, &vec![0], &c);
    assert_eq!(v.title, "Blog Posts");
    assert_eq!(v.output_path, "public/posts/index.html");
    assert_eq!(v.template, "list.html");
    assert_eq!(collection_view("projects", &pages, &vec![], &c).title, "Projects");
    assert_eq!(collection_view("notes", &pages, &vec![], &c).title, "notes");
}

#[test]
fn staleness_rules() {
    assert!(page_needs_rebuild(false, 5, 10, 1));
    assert!(!page_needs_rebuild(true, 5, 10, 1));
    assert!(page_needs_rebuild(true, 10, 10, 1));
    assert!(page_needs_rebuild(true, 5, 10, 12));
    assert!(collection_needs_rebuild(true, 1, 5, 1, 5));
    assert!(!collection_needs_rebuild(true, 1, 5, 1, 4));
    assert!(feed_needs_rebuild(false, 0, 0));
    assert!(feed_needs_rebuild(true, 3, 2));
    assert!(!feed_needs_rebuild(true, 2, 2));
    assert!(sitemap_needs_rebuild(false));
    assert!(!sitemap_needs_rebuild(true));
    assert!(tag_needs_rebuild(true, 3, 2));
    assert!(!tag_needs_rebuild(true, 2, 3));
    assert_eq!(latest(&vec![]), 0);
    assert_eq!(latest(&vec![-5, -3]), -3);
    assert_eq!(latest(&vec![4, 9, 2]), 9);
}

#[test]
fn build_paths() {
    assert_eq!(collection_index_under("out", "posts"), "out/posts/index.html");
    assert_eq!(feed_path_under("out"), "out/feed.xml");
    assert_eq!(sitemap_path_under("out/"), "out/sitemap.xml");
    assert_eq!(tag_index_under("public", "Rust"), "public/tags/rust/index.html");
}

#[test]
fn sorted_collections_and_feed_newest_first() {
    let mut pages = vec![
        { let mut p = dated("a", Some("2024-01-01")); p.collection = Some("posts".to_string()); p },
        { let mut p = dated("b", Some("2025-01-01")); p.collection = Some("posts".to_string()); p },
        { let mut p = dated("c", None); p.collection = Some("posts".to_string()); p },
        { let mut p = dated("d", Some("2026-01-01")); p.collection = Some("notes".to_string()); p },
    ];
    sort_pages_by_date(&mut pages);
    let groups = group_by_collection(&pages);
    let posts: Vec<&str> = groups
        .entries()
        .iter()
        .find(|(k, _)| k == "posts")
        .unwrap()
        .1
        .iter()
        .map(|&i| pages[i].slug.as_str())
        .collect();
    assert_eq!(posts, vec!["b", "a", "c"]);
    let rss = generate_rss(&pages, &config());
    let b = rss.find("/posts/b/").unwrap();
    let a = rss.find("/posts/a/").unwrap();
    let c = rss.find("/posts/c/").unwrap();
    assert!(b < a && a < c);
}
