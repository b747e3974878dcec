//! The RSS feed of the site's posts.
use vstd::prelude::*;
use crate::config::SiteConfig;
use crate::text::{push_str, same_text};
use crate::types::{Page, page_title, text_or_empty};

verus! {

broadcast use vstd::string::group_string_axioms;

/// A post is a page of the `posts` collection.
pub open spec fn is_post(p: Page) -> bool {
    match p.collection {
        Some(c) => c@ == "posts"@,
        None => false,
    }
}

/// The posts among `pages`, in order.
pub open spec fn posts_of(pages: Seq<Page>) -> Seq<Page>
    decreases pages.len(),
{
    if pages.len() == 0 {
        Seq::empty()
    } else if is_post(pages.last()) {
        posts_of(pages.drop_last()).push(pages.last())
    } else {
        posts_of(pages.drop_last())
    }
}

/// At most the first twenty of `s`.
pub open spec fn first_twenty(s: Seq<Page>) -> Seq<Page> {
    if s.len() <= 20 {
        s
    } else {
        s.take(20)
    }
}

/// The address of a post.
pub open spec fn post_url(base: Seq<char>, slug: Seq<char>) -> Seq<char> {
    base + "/posts/"@ + slug + "/"@
}

/// The feed entry of a post.
pub open spec fn rss_item(base: Seq<char>, p: Page) -> Seq<char> {
    let url = post_url(base, p.slug@);
    "    <item>\n        <title>"@ + page_title(p) + "</title>\n        <description>"@
        + text_or_empty(p.frontmatter.description) + "</description>\n        <link>"@ + url
        + "</link>\n        <guid>"@ + url + "</guid>\n"@ + match p.frontmatter.date {
        Some(d) => "        <pubDate>"@ + d@ + "</pubDate>\n"@,
        None => Seq::empty(),
    } + "    </item>\n"@
}

/// The feed entries of some posts, in order.
pub open spec fn rss_items(base: Seq<char>, posts: Seq<Page>) -> Seq<char>
    decreases posts.len(),
{
    if posts.len() == 0 {
        Seq::empty()
    } else {
        rss_items(base, posts.drop_last()) + rss_item(base, posts.last())
    }
}

/// The start of the feed: the channel's title, description and links.
pub open spec fn rss_head(config: SiteConfig) -> Seq<char> {
    r#"<?xml version="1.0" encoding="UTF-8"?>
<rss version="2.0" xmlns:atom="http://www.w3.org/2005/Atom">
<channel>
    <title>"#@ + config.title@ + "</title>\n    <description>"@ + config.description@
        + "</description>\n    <link>"@ + config.base_url@ + "</link>\n    <atom:link href=\""@
        + config.base_url@ + "/feed.xml\" rel=\"self\" type=\"application/rss+xml\"/>\n"@
}

/// The feed: the channel, then the first twenty posts in page order.
pub open spec fn rss_document(pages: Seq<Page>, config: SiteConfig) -> Seq<char> {
    rss_head(config) + rss_items(config.base_url@, first_twenty(posts_of(pages)))
        + "</channel>\n</rss>"@
}

/// Whether a page is a post.
pub fn page_is_post(p: &Page) -> (r: bool)
    ensures
        r == is_post(*p),
{
    match &p.collection {
        Some(c) => same_text(c.as_str(), "posts"),
        None => false,
    }
}

fn push_rss_item(rss: &mut String, base: &str, p: &Page)
    ensures
        final(rss)@ == old(rss)@ + rss_item(base@, *p),
{
    let mut url = base.to_string();
    push_str(&mut url, "/posts/");
    push_str(&mut url, p.slug.as_str());
    push_str(&mut url, "/");
    let ghost start = rss@;
    push_str(rss, "    <item>\n        <title>");
    push_str(rss, p.title());
    push_str(rss, "</title>\n        <description>");
    match &p.frontmatter.description {
        Some(d) => push_str(rss, d.as_str()),
        None => {},
    }
    push_str(rss, "</description>\n        <link>");
    push_str(rss, url.as_str());
    push_str(rss, "</link>\n        <guid>");
    push_str(rss, url.as_str());
    push_str(rss, "</guid>\n");
    let ghost mid = rss@;
    match &p.frontmatter.date {
        Some(d) => {
            push_str(rss, "        <pubDate>");
            push_str(rss, d.as_str());
            push_str(rss, "</pubDate>\n");
        },
        None => {},
    }
    push_str(rss, "    </item>\n");
    proof {
        let date_part: Seq<char> = match &p.frontmatter.date {
            Some(d) => "        <pubDate>"@ + d@ + "</pubDate>\n"@,
            None => Seq::empty(),
        };
        assert(rss@ =~= mid + date_part + "    </item>\n"@);
        assert(old(rss)@ + rss_item(base@, *p) =~= mid + date_part + "    </item>\n"@);
    }
}

/// The RSS feed of the site: its channel, then an entry for each of the first
/// twenty posts in page order.
pub fn generate_rss(pages: &[Page], config: &SiteConfig) -> (r: String)
    ensures
        r@ == rss_document(pages@, *config),
{
    let mut rss = String::new();
    push_str(&mut rss, r#"<?xml version="1.0" encoding="UTF-8"?>
<rss version="2.0" xmlns:atom="http://www.w3.org/2005/Atom">
<channel>
    <title>"#);
    push_str(&mut rss, config.title.as_str());
    push_str(&mut rss, "</title>\n    <description>");
    push_str(&mut rss, config.description.as_str());
    push_str(&mut rss, "</description>\n    <link>");
    push_str(&mut rss, config.base_url.as_str());
    push_str(&mut rss, "</link>\n    <atom:link href=\"");
    push_str(&mut rss, config.base_url.as_str());
    push_str(&mut rss, "/feed.xml\" rel=\"self\" type=\"application/rss+xml\"/>\n");
    let ghost head = rss@;
    assert(head =~= rss_head(*config));
    let mut count: usize = 0;
    let mut i: usize = 0;
    while i < pages.len()
        invariant
            i <= pages@.len(),
            count <= 20,
            count <= posts_of(pages@.take(i as int)).len(),
            count < 20 ==> count == posts_of(pages@.take(i as int)).len(),
            head == rss_head(*config),
            rss@ == head + rss_items(config.base_url@, posts_of(pages@.take(i as int)).take(count as int)),
        decreases pages@.len() - i,
    {
        let ghost ps = posts_of(pages@.take(i as int));
        assert(pages@.take(i + 1).drop_last() =~= pages@.take(i as int));
        assert(pages@.take(i + 1).last() == pages@[i as int]);
        if page_is_post(&pages[i]) {
            if count < 20 {
                let ghost before = rss@;
                push_rss_item(&mut rss, config.base_url.as_str(), &pages[i]);
                proof {
                    let ps2 = posts_of(pages@.take(i + 1));
                    assert(ps2 == ps.push(pages@[i as int]));
                    assert(ps2.take(count + 1).drop_last() =~= ps.take(count as int));
                    assert(ps2.take(count + 1).last() == pages@[i as int]);
                    assert(rss@ =~= head + rss_items(config.base_url@, ps2.take(count + 1)));
                }
                count = count + 1;
            } else {
                proof {
                    let ps2 = posts_of(pages@.take(i + 1));
                    assert(ps2.take(count as int) =~= ps.take(count as int));
                }
            }
        }
        i = i + 1;
    }
    proof {
        assert(pages@.take(pages@.len() as int) =~= pages@);
        let ps = posts_of(pages@);
        if ps.len() <= 20 {
            assert(ps.take(count as int) =~= ps);
        }
    }
    push_str(&mut rss, "</channel>\n</rss>");
    rss
}

} // verus!
