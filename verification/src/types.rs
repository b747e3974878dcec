//! The page model: front matter as read from a content file, and the page
//! assembled from it.
use vstd::prelude::*;

verus! {

broadcast use vstd::string::group_string_axioms;

/// Metadata found at the top of a content file.
#[derive(Debug, Clone)]
pub struct Frontmatter {
    pub title: Option<String>,
    pub slug: Option<String>,
    pub date: Option<String>,
    pub description: Option<String>,
    pub tags: Vec<String>,
    pub layout: Option<String>,
    pub draft: Option<bool>,
    pub order: Option<i32>,
    pub og_image: Option<String>,
    pub author: Option<String>,
}

/// Front matter with every field absent and no tags.
pub open spec fn is_empty_frontmatter(fm: Frontmatter) -> bool {
    &&& fm.title is None
    &&& fm.slug is None
    &&& fm.date is None
    &&& fm.description is None
    &&& fm.tags@.len() == 0
    &&& fm.layout is None
    &&& fm.draft is None
    &&& fm.order is None
    &&& fm.og_image is None
    &&& fm.author is None
}

impl Default for Frontmatter {
    fn default() -> (r: Frontmatter)
        ensures
            is_empty_frontmatter(r),
    {
        Frontmatter {
            title: None,
            slug: None,
            date: None,
            description: None,
            tags: Vec::new(),
            layout: None,
            draft: None,
            order: None,
            og_image: None,
            author: None,
        }
    }
}

/// A content page: its front matter, its rendered body and where it goes.
/// Paths are written with `/` as the separator.
#[derive(Debug, Clone)]
pub struct Page {
    pub slug: String,
    pub frontmatter: Frontmatter,
    pub content_html: String,
    pub content_markdown: String,
    pub source_path: String,
    pub output_path: String,
    pub links: Vec<String>,
    pub collection: Option<String>,
}

/// The title shown for a page: its own title, else its slug.
pub open spec fn page_title(p: Page) -> Seq<char> {
    match p.frontmatter.title {
        Some(t) => t@,
        None => p.slug@,
    }
}

/// The layout a page is rendered with: its own layout, else `page`.
pub open spec fn page_layout(p: Page) -> Seq<char> {
    match p.frontmatter.layout {
        Some(l) => l@,
        None => "page"@,
    }
}

/// A page is a draft only when its front matter says so.
pub open spec fn page_is_draft(p: Page) -> bool {
    match p.frontmatter.draft {
        Some(d) => d,
        None => false,
    }
}

/// The value of an optional text, or the empty text.
pub open spec fn text_or_empty(t: Option<String>) -> Seq<char> {
    match t {
        Some(s) => s@,
        None => Seq::empty(),
    }
}

/// The text of an optional string, as an optional text.
pub open spec fn opt_view(o: Option<String>) -> Option<Seq<char>> {
    match o {
        Some(s) => Some(s@),
        None => None,
    }
}

impl Page {
    pub fn title(&self) -> (r: &str)
        ensures
            r@ == page_title(*self),
    {
        match &self.frontmatter.title {
            Some(t) => t.as_str(),
            None => self.slug.as_str(),
        }
    }

    pub fn layout(&self) -> (r: &str)
        ensures
            r@ == page_layout(*self),
    {
        match &self.frontmatter.layout {
            Some(l) => l.as_str(),
            None => "page",
        }
    }

    pub fn is_draft(&self) -> (r: bool)
        ensures
            r == page_is_draft(*self),
    {
        match self.frontmatter.draft {
            Some(d) => d,
            None => false,
        }
    }
}

} // verus!
