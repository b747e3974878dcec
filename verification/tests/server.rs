use ssg::config::SiteConfig;
use ssg::parser::page_from_source;
use ssg::rss::generate_rss;
use ssg::serve::{reply_for, response_text, route_request, watch_step, Reply, Route, WatchAction, WatchEvent};
use ssg::site::{clean_targets, config_path, plan_new_site, site_root, InitError};
use ssg::site_build::tag_index_under;
use ssg::sitemap::generate_sitemap;
use ssg::tags::tag_page;
use ssg::types::Frontmatter;

fn file_route(r: &Route) -> Option<(String, Option<String>)> {
    match r {
        Route::File { path, mime } => Some((path.clone(), mime.clone())),
        _ => None,
    }
}

#[test]
fn home_page_routes() {
    let r = route_request("GET / HTTP/1.1\r\nHost: x\r\n\r\n");
    assert_eq!(file_route(&r), Some(("public/index.html".to_string(), None)));
    let r = route_request("GET /index.html HTTP/1.1\r\n");
    assert_eq!(file_route(&r), Some(("public/index.html".to_string(), None)));
}

#[test]
fn socket_and_unknown_routes() {
    assert!(matches!(route_request("GET /ws HTTP/1.1\r\n"), Route::Upgrade));
    assert!(matches!(route_request("POST / HTTP/1.1\r\n"), Route::Missing));
    assert!(matches!(route_request(""), Route::Missing));
}

#[test]
fn files_and_directories() {
    let r = route_request("GET /style.css HTTP/1.1\r\n");
    assert_eq!(file_route(&r), Some(("public/style.css".to_string(), Some("text/css".to_string()))));
    let r = route_request("GET /posts/hello/ HTTP/1.1\r\n");
    assert_eq!(file_route(&r), Some(("public/posts/hello//index.html".to_string(), Some("text/html".to_string()))));
    let r = route_request("GET /about HTTP/1.1\r\n");
    assert_eq!(file_route(&r), Some(("public/about/index.html".to_string(), Some("text/html".to_string()))));
    let r = route_request("GET /img/logo.png HTTP/1.1\r\n");
    assert_eq!(file_route(&r), Some(("public/img/logo.png".to_string(), Some("image/png".to_string()))));
    let r = route_request("GET /a.JPG HTTP/1.1\r\n");
    assert_eq!(file_route(&r), Some(("public/a.JPG".to_string(), Some("text/html".to_string()))));
    let r = route_request("GET /feed.xml");
    assert_eq!(file_route(&r), Some(("public/feed.xml".to_string(), Some("application/xml".to_string()))));
}

#[test]
fn target_defaults_to_root() {
    let r = route_request("GET /x");
    assert_eq!(file_route(&r), Some(("public/x/index.html".to_string(), Some("text/html".to_string()))));
    let r = route_request("GET /\t");
    assert_eq!(file_route(&r), Some(("public//index.html".to_string(), Some("text/html".to_string()))));
}

#[test]
fn replies() {
    let r = route_request("GET /style.css HTTP/1.1\r\n");
    let ok = reply_for(&r, Some("body{}".to_string()));
    assert_eq!(ok.status, "200 OK");
    assert_eq!(ok.content, "body{}");
    assert_eq!(ok.content_type, "text/css");
    let missing = reply_for(&r, None);
    assert_eq!(missing.status, "404 Not Found");
    assert_eq!(missing.content, "Not Found");
    assert_eq!(missing.content_type, "text/css");
    let home = route_request("GET / HTTP/1.1");
    assert_eq!(reply_for(&home, None).content_type, "text/plain");
    assert_eq!(reply_for(&home, Some("x".to_string())).content_type, "text/html");
    let up = reply_for(&Route::Upgrade, None);
    assert_eq!(up.status, "101 Switching Protocols");
    assert_eq!(up.content, "");
    let none = reply_for(&Route::Missing, Some("ignored".to_string()));
    assert_eq!(none.content, "Not Found");
}

#[test]
fn response_counts_bytes() {
    let reply = Reply {
        status: "200 OK".to_string(),
        content: "héllo".to_string(),
        content_type: "text/html".to_string(),
    };
    assert_eq!(
        response_text(&reply),
        "HTTP/1.1 200 OK\r\nContent-Type: text/html\r\nContent-Length: 6\r\n\r\nhéllo"
    );
    let empty = Reply { status: "S".to_string(), content: String::new(), content_type: "t".to_string() };
    assert_eq!(response_text(&empty), "HTTP/1.1 S\r\nContent-Type: t\r\nContent-Length: 0\r\n\r\n");
    let css = reply_for(&route_request("GET /a.css HTTP/1.1\r\n"), Some("p{}".to_string()));
    assert_eq!(response_text(&css), "HTTP/1.1 200 OK\r\nContent-Type: text/css\r\nContent-Length: 3\r\n\r\np{}");
    let up = response_text(&reply_for(&Route::Upgrade, None));
    assert_eq!(up, "HTTP/1.1 101 Switching Protocols\r\nContent-Type: text/plain\r\nContent-Length: 0\r\n\r\n");
}

#[test]
fn watcher_steps() {
    assert_eq!(watch_step(WatchEvent::Changed), WatchAction::Rebuild);
    assert_eq!(watch_step(WatchEvent::Timeout), WatchAction::Wait);
    assert_eq!(watch_step(WatchEvent::Disconnected), WatchAction::Stop);
}

#[test]
fn new_site_layout() {
    assert_eq!(site_root(&None), ".");
    assert_eq!(site_root(&Some("blog".to_string())), "blog");
    assert_eq!(config_path("blog"), "blog/config.toml");
    let s = plan_new_site(Some("blog".to_string()), false).unwrap();
    assert_eq!(s.root, "blog");
    assert_eq!(s.dirs, vec!["blog/content/posts", "blog/content/projects", "blog/templates", "blog/static"]);
    assert_eq!(s.files.len(), 3);
    assert_eq!(s.files[0].0, "blog/config.toml");
    assert!(s.files[0].1.starts_with("title = \"My Site\"\n"));
    assert_eq!(s.files[1].0, "blog/content/index.md");
    assert!(s.files[1].1.contains("slug: \"index\""));
    assert_eq!(s.files[2].0, "blog/content/posts/hello-world.md");
    assert!(s.files[2].1.contains("tags: [\"intro\", \"hello\"]"));
    let here = plan_new_site(None, false).unwrap();
    assert_eq!(here.files[0].0, "./config.toml");
}

#[test]
fn new_site_refused_over_existing() {
    assert_eq!(plan_new_site(None, true).unwrap_err(), InitError::AlreadyExists);
}

#[test]
fn cleaning_targets() {
    let c = SiteConfig::default();
    assert_eq!(clean_targets(&c), vec!["public".to_string(), ".ssg".to_string()]);
}

#[test]
fn sitemap_address_matches_output_file() {
    let p = page_from_source("content/posts/hello.md", Frontmatter::default(), "hi").unwrap();
    let mut c = SiteConfig::default();
    c.base_url = "https://ex.org".to_string();
    let map = generate_sitemap(&[p.clone()], &c);
    assert!(map.contains("<loc>https://ex.org/posts/hello/</loc>"));
    assert_eq!(p.output_path, "public/posts/hello/index.html");
    let rss = generate_rss(&[p], &c);
    assert!(rss.contains("<link>https://ex.org/posts/hello/</link>"));
}

#[test]
fn tag_page_paths_meet_without_spaces() {
    let pages = vec![];
    let c = SiteConfig::default();
    let plain = tag_page(&"Rust".to_string(), &vec![], &pages, &c);
    assert_eq!(tag_index_under("public", "Rust"), plain.view.output_path);
    let spaced = tag_page(&"Open Source".to_string(), &vec![], &pages, &c);
    assert_ne!(tag_index_under("public", "Open Source"), spaced.view.output_path);
}
