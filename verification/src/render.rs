//! What a rendered page is made of: the values a template sees, the template
//! it is rendered with, and the file it goes to.
use vstd::prelude::*;
use crate::config::SiteConfig;
use crate::groups::{Groups, indices_below};
use crate::paths::{join_path, join_path_exec};
use crate::text::{push_str, same_text};
use crate::types::{Page, opt_view, page_layout, page_title, text_or_empty};

verus! {

broadcast use vstd::string::group_string_axioms;

/// The site as templates see it.
#[derive(Debug, Clone)]
pub struct SiteInfo {
    pub title: String,
    pub description: String,
    pub base_url: String,
}

/// The short form of a page that lists show.
#[derive(Debug, Clone)]
pub struct PageSummary {
    pub title: String,
    pub slug: String,
    pub description: Option<String>,
    pub date: Option<String>,
}

/// A collection with the short forms of its pages.
#[derive(Debug, Clone)]
pub struct CollectionSummary {
    pub name: String,
    pub pages: Vec<PageSummary>,
}

/// Everything a single page is rendered from.
#[derive(Debug, Clone)]
pub struct PageView {
    pub template: String,
    pub title: String,
    pub slug: String,
    pub content: String,
    pub description: String,
    pub date: String,
    pub tags: Vec<String>,
    pub og_image: String,
    pub site: SiteInfo,
    pub collections: Vec<CollectionSummary>,
    pub output_path: String,
}

/// Everything a list page (a collection index or a tag page) is rendered from.
#[derive(Debug, Clone)]
pub struct ListView {
    pub template: String,
    pub title: String,
    pub name: String,
    pub site: SiteInfo,
    pub pages: Vec<PageSummary>,
    pub output_path: String,
}

pub open spec fn is_site_info(s: SiteInfo, c: SiteConfig) -> bool {
    &&& s.title@ == c.title@
    &&& s.description@ == c.description@
    &&& s.base_url@ == c.base_url@
}

pub open spec fn is_summary_of(s: PageSummary, p: Page) -> bool {
    &&& s.title@ == page_title(p)
    &&& s.slug@ == p.slug@
    &&& opt_view(s.description) == opt_view(p.frontmatter.description)
    &&& opt_view(s.date) == opt_view(p.frontmatter.date)
}

/// `list` summarizes the pages of `pages` at `indices`, in that order.
pub open spec fn summarizes(list: Seq<PageSummary>, pages: Seq<Page>, indices: Seq<usize>) -> bool {
    &&& list.len() == indices.len()
    &&& forall|j: int| 0 <= j < list.len() ==> is_summary_of(#[trigger] list[j], pages[indices[j] as int])
}

/// The template of a layout: `<layout>.html`.
pub open spec fn template_for(layout: Seq<char>) -> Seq<char> {
    layout + ".html"@
}

fn copy_string(s: &String) -> (r: String)
    ensures
        r@ == s@,
{
    s.clone()
}

fn copy_opt(o: &Option<String>) -> (r: Option<String>)
    ensures
        opt_view(r) == opt_view(*o),
{
    match o {
        Some(s) => Some(s.clone()),
        None => None,
    }
}

fn text_or_empty_exec(o: &Option<String>) -> (r: String)
    ensures
        r@ == text_or_empty(*o),
{
    match o {
        Some(s) => s.clone(),
        None => String::new(),
    }
}

fn copy_strings(v: &Vec<String>) -> (r: Vec<String>)
    ensures
        r@.map_values(|s: String| s@) == v@.map_values(|s: String| s@),
{
    let mut out: Vec<String> = Vec::new();
    let mut i: usize = 0;
    while i < v.len()
        invariant
            i <= v@.len(),
            out@.len() == i,
            forall|j: int| 0 <= j < i ==> #[trigger] out@[j]@ == v@[j]@,
        decreases v@.len() - i,
    {
        out.push(v[i].clone());
        i = i + 1;
    }
    assert(out@.map_values(|s: String| s@) =~= v@.map_values(|s: String| s@));
    out
}

/// The site's title, description and address.
pub fn site_info(config: &SiteConfig) -> (r: SiteInfo)
    ensures
        is_site_info(r, *config),
{
    SiteInfo {
        title: copy_string(&config.title),
        description: copy_string(&config.description),
        base_url: copy_string(&config.base_url),
    }
}

/// The short form of a page.
pub fn summarize(page: &Page) -> (r: PageSummary)
    ensures
        is_summary_of(r, *page),
{
    PageSummary {
        title: page.title().to_string(),
        slug: copy_string(&page.slug),
        description: copy_opt(&page.frontmatter.description),
        date: copy_opt(&page.frontmatter.date),
    }
}

/// The short forms of the pages at `indices`, in that order.
pub fn summaries(pages: &[Page], indices: &Vec<usize>) -> (r: Vec<PageSummary>)
    requires
        forall|j: int| 0 <= j < indices@.len() ==> #[trigger] indices@[j] < pages@.len(),
    ensures
        summarizes(r@, pages@, indices@),
{
    let mut out: Vec<PageSummary> = Vec::new();
    let mut j: usize = 0;
    while j < indices.len()
        invariant
            j <= indices@.len(),
            forall|m: int| 0 <= m < indices@.len() ==> #[trigger] indices@[m] < pages@.len(),
            out@.len() == j,
            forall|m: int| 0 <= m < j ==> is_summary_of(#[trigger] out@[m], pages@[indices@[m] as int]),
        decreases indices@.len() - j,
    {
        let idx = indices[j];
        out.push(summarize(&pages[idx]));
        j = j + 1;
    }
    out
}

/// `list` summarizes, entry by entry, the collections of a grouping.
pub open spec fn summarizes_groups(list: Seq<CollectionSummary>, g: Groups<usize>, pages: Seq<Page>) -> bool {
    &&& list.len() == g.size()
    &&& forall|i: int| 0 <= i < list.len() ==> {
        &&& #[trigger] list[i].name@ == g.key_at(i)
        &&& summarizes(list[i].pages@, pages, g.group_at(i))
    }
}

/// The short forms of every collection of a grouping.
pub fn collection_summaries(groups: &Groups<usize>, pages: &[Page]) -> (r: Vec<CollectionSummary>)
    requires
        indices_below(*groups, pages@.len()),
    ensures
        summarizes_groups(r@, *groups, pages@),
{
    let entries = groups.entries();
    let mut out: Vec<CollectionSummary> = Vec::new();
    let mut i: usize = 0;
    while i < entries.len()
        invariant
            entries@ == groups.entry_seq(),
            indices_below(*groups, pages@.len()),
            i <= entries@.len(),
            out@.len() == i,
            forall|m: int| 0 <= m < i ==> {
                &&& #[trigger] out@[m].name@ == groups.key_at(m)
                &&& summarizes(out@[m].pages@, pages@, groups.group_at(m))
            },
        decreases entries@.len() - i,
    {
        let entry = &entries[i];
        assert forall|j: int| 0 <= j < entry.1@.len() implies #[trigger] entry.1@[j] < pages@.len() by {
            assert(groups.group_at(i as int)[j] == entry.1@[j]);
        }
        let list = summaries(pages, &entry.1);
        out.push(CollectionSummary { name: copy_string(&entry.0), pages: list });
        i = i + 1;
    }
    out
}

/// `v` is the view a page is rendered from, with its site and collections.
pub open spec fn is_page_view(v: PageView, page: Page, config: SiteConfig, collections: Groups<usize>, pages: Seq<Page>) -> bool {
    &&& v.template@ == template_for(page_layout(page))
    &&& v.title@ == page_title(page)
    &&& v.slug@ == page.slug@
    &&& v.content@ == page.content_html@
    &&& v.description@ == text_or_empty(page.frontmatter.description)
    &&& v.date@ == text_or_empty(page.frontmatter.date)
    &&& v.tags@.map_values(|s: String| s@) == page.frontmatter.tags@.map_values(|s: String| s@)
    &&& v.og_image@ == text_or_empty(page.frontmatter.og_image)
    &&& is_site_info(v.site, config)
    &&& summarizes_groups(v.collections@, collections, pages)
    &&& v.output_path@ == page.output_path@
}

/// The view a page is rendered from: its own values, the site, and every
/// collection with the short forms of its pages; rendered with the template
/// of its layout, written to its output path.
pub fn page_view(page: &Page, config: &SiteConfig, collections: &Groups<usize>, pages: &[Page]) -> (r: PageView)
    requires
        indices_below(*collections, pages@.len()),
    ensures
        is_page_view(r, *page, *config, *collections, pages@),
{
    let mut template = page.layout().to_string();
    push_str(&mut template, ".html");
    PageView {
        template,
        title: page.title().to_string(),
        slug: copy_string(&page.slug),
        content: copy_string(&page.content_html),
        description: text_or_empty_exec(&page.frontmatter.description),
        date: text_or_empty_exec(&page.frontmatter.date),
        tags: copy_strings(&page.frontmatter.tags),
        og_image: text_or_empty_exec(&page.frontmatter.og_image),
        site: site_info(config),
        collections: collection_summaries(collections, pages),
        output_path: copy_string(&page.output_path),
    }
}

/// The heading of a collection's index: `Blog Posts` for `posts`, `Projects`
/// for `projects`, else the collection's name.
pub open spec fn collection_heading(name: Seq<char>) -> Seq<char> {
    if name == "posts"@ {
        "Blog Posts"@
    } else if name == "projects"@ {
        "Projects"@
    } else {
        name
    }
}

/// Where a collection's index is written: `public/<name>/index.html`.
pub open spec fn collection_index_path(name: Seq<char>) -> Seq<char> {
    join_path(join_path("public"@, name), "index.html"@)
}

/// The view of a collection's index page: its heading, its name, the site
/// and the short forms of its pages, rendered with `list.html`.
pub fn collection_view(name: &str, pages: &[Page], indices: &Vec<usize>, config: &SiteConfig) -> (r: ListView)
    requires
        forall|j: int| 0 <= j < indices@.len() ==> #[trigger] indices@[j] < pages@.len(),
    ensures
        r.template@ == "list.html"@,
        r.title@ == collection_heading(name@),
        r.name@ == name@,
        is_site_info(r.site, *config),
        summarizes(r.pages@, pages@, indices@),
        r.output_path@ == collection_index_path(name@),
{
    let title = if same_text(name, "posts") {
        "Blog Posts".to_string()
    } else if same_text(name, "projects") {
        "Projects".to_string()
    } else {
        name.to_string()
    };
    let dir = join_path_exec("public", name);
    ListView {
        template: "list.html".to_string(),
        title,
        name: name.to_string(),
        site: site_info(config),
        pages: summaries(pages, indices),
        output_path: join_path_exec(dir.as_str(), "index.html"),
    }
}

} // verus!
