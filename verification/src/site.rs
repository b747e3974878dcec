//! Creating a new site and cleaning a built one.
use vstd::prelude::*;
use crate::config::SiteConfig;
use crate::paths::{join_path, join_path_exec};
use crate::types::opt_view;

verus! {

broadcast use vstd::string::group_string_axioms;

/// The configuration file of a new site.
pub open spec fn starter_config() -> Seq<char> {
    r#"title = "My Site"
description = "A blazing fast static site"
base_url = "http://localhost:8080"
output_dir = "public"
content_dir = "content"
assets_dir = "static"
templates_dir = "templates"

[build]
drafts = true
future = true
"#@
}

/// The home page of a new site.
pub open spec fn starter_index() -> Seq<char> {
    r#"---
title: "Welcome"
slug: "index"
date: "2026-04-18"
description: "Welcome to my site"
layout: "page"
---

# Welcome

This is my new site built with SSG.

## Getting Started

1. Edit content in the `content/` folder
2. Customize templates in `templates/`
3. Add static files in `static/`

Run `ssg serve` to preview your site!
"#@
}

/// The first post of a new site.
pub open spec fn starter_post() -> Seq<char> {
    r#"---
title: "Hello World"
slug: "hello-world"
date: "2026-04-18"
description: "My first blog post"
tags: ["intro", "hello"]
layout: "post"
---

# Hello World

This is my first blog post!

## What's Next

More posts coming soon...
"#@
}

/// The directories and files of a new site.
#[derive(Debug, Clone)]
pub struct Scaffold {
    pub root: String,
    pub dirs: Vec<String>,
    pub files: Vec<(String, String)>,
}

/// Why a site could not be created.
#[derive(Debug, Clone, Copy, PartialEq, Eq)]
pub enum InitError {
    /// The directory already holds a site.
    AlreadyExists,
}

/// Where a new site goes: the directory named, or the current one.
pub open spec fn root_for(name: Option<Seq<char>>) -> Seq<char> {
    match name {
        Some(n) => n,
        None => "."@,
    }
}

/// Where a new site goes: the directory named, or the current one.
pub fn site_root(name: &Option<String>) -> (r: String)
    ensures
        r@ == root_for(opt_view(*name)),
{
    match name {
        Some(n) => n.clone(),
        None => ".".to_string(),
    }
}

/// The file whose presence marks a directory as a site.
pub fn config_path(root: &str) -> (r: String)
    ensures
        r@ == join_path(root@, "config.toml"@),
{
    join_path_exec(root, "config.toml")
}

/// The layout of a new site at `root`: its content, template and static
/// directories, its configuration, a home page and a first post.
pub open spec fn is_scaffold(s: Scaffold, root: Seq<char>) -> bool {
    &&& s.root@ == root
    &&& s.dirs@.map_values(|d: String| d@) == seq![
        join_path(root, "content/posts"@),
        join_path(root, "content/projects"@),
        join_path(root, "templates"@),
        join_path(root, "static"@),
    ]
    &&& s.files@.len() == 3
    &&& s.files@[0].0@ == join_path(root, "config.toml"@)
    &&& s.files@[0].1@ == starter_config()
    &&& s.files@[1].0@ == join_path(join_path(root, "content"@), "index.md"@)
    &&& s.files@[1].1@ == starter_index()
    &&& s.files@[2].0@ == join_path(root, "content/posts/hello-world.md"@)
    &&& s.files@[2].1@ == starter_post()
}

/// Plans a new site in the directory `name` (or the current one): refused
/// when that directory already has a configuration file.
pub fn plan_new_site(name: Option<String>, config_exists: bool) -> (r: Result<Scaffold, InitError>)
    ensures
        config_exists ==> r == Err::<Scaffold, InitError>(InitError::AlreadyExists),
        !config_exists ==> (r matches Ok(s) && is_scaffold(
            s,
            root_for(
                match name {
                    Some(n) => Some(n@),
                    None => None,
                },
            ),
        )),
{
    if config_exists {
        return Err(InitError::AlreadyExists);
    }
    let root = match name {
        Some(n) => n,
        None => ".".to_string(),
    };
    let mut dirs: Vec<String> = Vec::new();
    dirs.push(join_path_exec(root.as_str(), "content/posts"));
    dirs.push(join_path_exec(root.as_str(), "content/projects"));
    dirs.push(join_path_exec(root.as_str(), "templates"));
    dirs.push(join_path_exec(root.as_str(), "static"));
    let mut files: Vec<(String, String)> = Vec::new();
    files.push((join_path_exec(root.as_str(), "config.toml"), r#"title = "My Site"
description = "A blazing fast static site"
base_url = "http://localhost:8080"
output_dir = "public"
content_dir = "content"
assets_dir = "static"
templates_dir = "templates"

[build]
drafts = true
future = true
"#.to_string()));
    let content_dir = join_path_exec(root.as_str(), "content");
    files.push((join_path_exec(content_dir.as_str(), "index.md"), r#"---
title: "Welcome"
slug: "index"
date: "2026-04-18"
description: "Welcome to my site"
layout: "page"
---

# Welcome

This is my new site built with SSG.

## Getting Started

1. Edit content in the `content/` folder
2. Customize templates in `templates/`
3. Add static files in `static/`

Run `ssg serve` to preview your site!
"#.to_string()));
    files.push((join_path_exec(root.as_str(), "content/posts/hello-world.md"), r#"---
title: "Hello World"
slug: "hello-world"
date: "2026-04-18"
description: "My first blog post"
tags: ["intro", "hello"]
layout: "post"
---

# Hello World

This is my first blog post!

## What's Next

More posts coming soon...
"#.to_string()));
    let s = Scaffold { root, dirs, files };
    assert(s.dirs@.map_values(|d: String| d@) =~= seq![
        join_path(s.root@, "content/posts"@),
        join_path(s.root@, "content/projects"@),
        join_path(s.root@, "templates"@),
        join_path(s.root@, "static"@),
    ]);
    Ok(s)
}

/// What cleaning removes: the output directory and the `.ssg` cache.
pub fn clean_targets(config: &SiteConfig) -> (r: Vec<String>)
    ensures
        r@.map_values(|t: String| t@) == seq![config.output_dir@, ".ssg"@],
{
    let mut targets: Vec<String> = Vec::new();
    targets.push(config.output_dir.clone());
    targets.push(".ssg".to_string());
    assert(targets@.map_values(|t: String| t@) =~= seq![config.output_dir@, ".ssg"@]);
    targets
}

} // verus!
