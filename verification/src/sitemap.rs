//! The sitemap of the site.
use vstd::prelude::*;
use crate::config::SiteConfig;
use crate::text::{push_chars, push_str};
use crate::types::Page;

verus! {

broadcast use vstd::string::group_string_axioms;

/// `/`
pub open spec fn slash() -> Seq<char> {
    seq!['/']
}

/// The address of a page: the site's address, the page's collection if it
/// has one, and its slug, each followed by `/`.
pub open spec fn page_loc(base: Seq<char>, p: Page) -> Seq<char> {
    match p.collection {
        Some(c) => base + slash() + c@ + slash() + p.slug@ + slash(),
        None => base + slash() + p.slug@ + slash(),
    }
}

/// The sitemap entry of a page.
pub open spec fn sitemap_entry(base: Seq<char>, p: Page) -> Seq<char> {
    "  <url>\n    <loc>"@ + page_loc(base, p) + "</loc>\n    <changefreq>monthly</changefreq>\n  </url>\n"@
}

/// The sitemap entries of some pages, in order.
pub open spec fn sitemap_entries(base: Seq<char>, pages: Seq<Page>) -> Seq<char>
    decreases pages.len(),
{
    if pages.len() == 0 {
        Seq::empty()
    } else {
        sitemap_entries(base, pages.drop_last()) + sitemap_entry(base, pages.last())
    }
}

/// The start of the sitemap, with the home page.
pub open spec fn sitemap_head(base: Seq<char>) -> Seq<char> {
    r#"<?xml version="1.0" encoding="UTF-8"?>
<urlset xmlns="http://www.sitemaps.org/schemas/sitemap/0.9">
"#@ + "  <url>\n    <loc>"@ + base + "/</loc>\n    <changefreq>weekly</changefreq>\n  </url>\n"@
}

/// The sitemap: the home page, then every page in order.
pub open spec fn sitemap_document(pages: Seq<Page>, config: SiteConfig) -> Seq<char> {
    sitemap_head(config.base_url@) + sitemap_entries(config.base_url@, pages) + "</urlset>"@
}

fn push_entry(out: &mut String, base: &str, p: &Page)
    ensures
        final(out)@ == old(out)@ + sitemap_entry(base@, *p),
{
    let sl: Vec<char> = vec!['/'];
    assert(sl@ =~= slash());
    let mut loc = base.to_string();
    match &p.collection {
        Some(c) => {
            push_chars(&mut loc, &sl);
            push_str(&mut loc, c.as_str());
            push_chars(&mut loc, &sl);
            push_str(&mut loc, p.slug.as_str());
            push_chars(&mut loc, &sl);
        },
        None => {
            push_chars(&mut loc, &sl);
            push_str(&mut loc, p.slug.as_str());
            push_chars(&mut loc, &sl);
        },
    }
    assert(loc@ =~= page_loc(base@, *p));
    push_str(out, "  <url>\n    <loc>");
    push_str(out, loc.as_str());
    push_str(out, "</loc>\n    <changefreq>monthly</changefreq>\n  </url>\n");
    assert(final(out)@ =~= old(out)@ + sitemap_entry(base@, *p));
}

/// The sitemap of the site: the home page, weekly, then every page, monthly,
/// at its address.
pub fn generate_sitemap(pages: &[Page], config: &SiteConfig) -> (r: String)
    ensures
        r@ == sitemap_document(pages@, *config),
{
    let mut sitemap = String::new();
    push_str(&mut sitemap, r#"<?xml version="1.0" encoding="UTF-8"?>
<urlset xmlns="http://www.sitemaps.org/schemas/sitemap/0.9">
"#);
    push_str(&mut sitemap, "  <url>\n    <loc>");
    push_str(&mut sitemap, config.base_url.as_str());
    push_str(&mut sitemap, "/</loc>\n    <changefreq>weekly</changefreq>\n  </url>\n");
    let ghost head = sitemap@;
    assert(head =~= sitemap_head(config.base_url@));
    let mut i: usize = 0;
    while i < pages.len()
        invariant
            i <= pages@.len(),
            head == sitemap_head(config.base_url@),
            sitemap@ == head + sitemap_entries(config.base_url@, pages@.take(i as int)),
        decreases pages@.len() - i,
    {
        push_entry(&mut sitemap, config.base_url.as_str(), &pages[i]);
        proof {
            assert(pages@.take(i + 1).drop_last() =~= pages@.take(i as int));
            assert(pages@.take(i + 1).last() == pages@[i as int]);
        }
        i = i + 1;
    }
    assert(pages@.take(pages@.len() as int) =~= pages@);
    push_str(&mut sitemap, "</urlset>");
    sitemap
}

} // verus!
