//! Tags: which pages carry each tag, and the page listing them.
use vstd::prelude::*;
use crate::groups::{Groups, add_index_under_all, indices_below, lemma_groups_below, grouped, key_count, lemma_grouped_members, lemma_grouped_step, lemma_key_count_positive};
use crate::config::SiteConfig;
use crate::render::{ListView, is_site_info, site_info, summaries, summarizes};
use crate::text::{chars_of, lowercase, push_str, string_of, to_lowercase};
use crate::types::Page;

verus! {

broadcast use vstd::string::group_string_axioms;

/// Each page as an item filed under its tags, with its index as the value.
pub open spec fn tag_items(pages: Seq<Page>) -> Seq<(Seq<String>, usize)> {
    Seq::new(pages.len(), |i: int| (pages[i].frontmatter.tags@, i as usize))
}

/// The indices of the pages tagged `tag`, in page order, once per time the
/// page lists the tag.
pub open spec fn tagged(pages: Seq<Page>, tag: Seq<char>) -> Seq<usize> {
    grouped(tag_items(pages), tag)
}

/// Groups the pages by tag: every tag that some page lists, with the indices
/// of the pages that list it.
pub fn collect_tags(pages: &[Page]) -> (r: Groups<usize>)
    ensures
        r.wf(),
        forall|k: Seq<char>| #[trigger] r.has_key(k) <==> tagged(pages@, k).len() > 0,
        forall|k: Seq<char>| #[trigger] r.lookup(k) == tagged(pages@, k),
        indices_below(r, pages@.len()),
{
    let ghost items = tag_items(pages@);
    let mut tags: Groups<usize> = Groups::new();
    let mut i: usize = 0;
    assert forall|k: Seq<char>| #[trigger] tags.lookup(k) == grouped(items.take(0), k) by {
        assert(items.take(0).len() == 0);
    }
    while i < pages.len()
        invariant
            i <= pages@.len(),
            items == tag_items(pages@),
            tags.wf(),
            forall|k: Seq<char>| #[trigger] tags.lookup(k) == grouped(items.take(i as int), k),
        decreases pages@.len() - i,
    {
        add_index_under_all(&mut tags, &pages[i].frontmatter.tags, i);
        proof {
            assert(items[i as int] == (pages@[i as int].frontmatter.tags@, i));
            assert forall|k: Seq<char>| #[trigger] tags.lookup(k) == grouped(items.take(i + 1), k) by {
                lemma_grouped_step(items, i as int, k);
            }
        }
        i = i + 1;
    }
    proof {
        assert(items.take(pages@.len() as int) =~= items);
        assert forall|k: Seq<char>| #[trigger] tags.has_key(k) <==> tagged(pages@, k).len() > 0 by {
            tags.lemma_lookup(k);
        }
        lemma_groups_below(tags, items, pages@.len());
    }
    tags
}

/// A page is listed under a tag exactly when the tag is among its own tags.
pub proof fn lemma_tagged_exactly(pages: Seq<Page>, tag: Seq<char>, i: int)
    requires
        0 <= i < pages.len(),
        pages.len() <= usize::MAX,
    ensures
        tagged(pages, tag).contains(i as usize) <==> exists|j: int|
            0 <= j < pages[i].frontmatter.tags@.len() && #[trigger] pages[i].frontmatter.tags@[j]@ == tag,
{
    let items = tag_items(pages);
    lemma_grouped_members(items, tag, i as usize);
    lemma_key_count_positive(pages[i].frontmatter.tags@, tag);
    assert(items[i].0 == pages[i].frontmatter.tags@);
    if tagged(pages, tag).contains(i as usize) {
        let m = choose|m: int| 0 <= m < items.len() && items[m].1 == i as usize && #[trigger] key_count(items[m].0, tag) > 0;
        assert(items[m].1 == m as usize);
        assert(m == i);
    } else {
        assert(items[i].1 == i as usize);
        assert(key_count(items[i].0, tag) == 0);
    }
}

/// A tag with its spaces turned into dashes.
pub open spec fn dashed(tag: Seq<char>) -> Seq<char> {
    Seq::new(tag.len(), |i: int| if tag[i] == ' ' { '-' } else { tag[i] })
}

/// The name of a tag in addresses: dashes for spaces, in lowercase.
pub open spec fn safe_tag_name(tag: Seq<char>) -> Seq<char> {
    lowercase(dashed(tag))
}

/// The heading of a tag's page.
pub open spec fn tag_heading(tag: Seq<char>) -> Seq<char> {
    "Tagged: "@ + tag
}

/// Where a tag's page is written: `public/tags/<safe name>/index.html`.
pub open spec fn tag_page_path(tag: Seq<char>) -> Seq<char> {
    "public/tags/"@ + safe_tag_name(tag) + "/index.html"@
}

/// A tag's page: its name in addresses and the view it is rendered from.
#[derive(Debug, Clone)]
pub struct TagPage {
    pub safe_tag: String,
    pub view: ListView,
}

/// The name of a tag in addresses.
pub fn safe_tag(tag: &str) -> (r: String)
    ensures
        r@ == safe_tag_name(tag@),
{
    let chars = chars_of(tag);
    let mut out: Vec<char> = Vec::new();
    let mut i: usize = 0;
    while i < chars.len()
        invariant
            i <= chars@.len(),
            out@ =~= dashed(chars@).take(i as int),
        decreases chars@.len() - i,
    {
        if chars[i] == ' ' {
            out.push('-');
        } else {
            out.push(chars[i]);
        }
        i = i + 1;
    }
    assert(dashed(chars@).take(chars@.len() as int) =~= dashed(chars@));
    let d = string_of(&out);
    to_lowercase(d.as_str())
}

/// The page of one tag: its heading, the tag, the site and the short forms
/// of the tagged pages, rendered with `list.html`.
pub fn tag_page(tag: &String, indices: &Vec<usize>, pages: &[Page], config: &SiteConfig) -> (r: TagPage)
    requires
        forall|j: int| 0 <= j < indices@.len() ==> #[trigger] indices@[j] < pages@.len(),
    ensures
        r.safe_tag@ == safe_tag_name(tag@),
        r.view.template@ == "list.html"@,
        r.view.title@ == tag_heading(tag@),
        r.view.name@ == tag@,
        is_site_info(r.view.site, *config),
        summarizes(r.view.pages@, pages@, indices@),
        r.view.output_path@ == tag_page_path(tag@),
{
    let safe = safe_tag(tag.as_str());
    let mut title = "Tagged: ".to_string();
    push_str(&mut title, tag.as_str());
    let mut path = "public/tags/".to_string();
    push_str(&mut path, safe.as_str());
    push_str(&mut path, "/index.html");
    TagPage {
        safe_tag: safe,
        view: ListView {
            template: "list.html".to_string(),
            title,
            name: tag.clone(),
            site: site_info(config),
            pages: summaries(pages, indices),
            output_path: path,
        },
    }
}

/// The pages of all tags, in the order of the grouping.
pub fn tag_pages(tags: &Groups<usize>, pages: &[Page], config: &SiteConfig) -> (r: Vec<TagPage>)
    requires
        indices_below(*tags, pages@.len()),
    ensures
        r@.len() == tags.size(),
        forall|i: int| 0 <= i < r@.len() ==> {
            &&& (#[trigger] r@[i]).view.name@ == tags.key_at(i)
            &&& r@[i].safe_tag@ == safe_tag_name(tags.key_at(i))
            &&& r@[i].view.template@ == "list.html"@
            &&& r@[i].view.title@ == tag_heading(tags.key_at(i))
            &&& is_site_info(r@[i].view.site, *config)
            &&& summarizes(r@[i].view.pages@, pages@, tags.group_at(i))
            &&& r@[i].view.output_path@ == tag_page_path(tags.key_at(i))
        },
{
    let entries = tags.entries();
    let mut out: Vec<TagPage> = Vec::new();
    let mut i: usize = 0;
    while i < entries.len()
        invariant
            entries@ == tags.entry_seq(),
            indices_below(*tags, pages@.len()),
            i <= entries@.len(),
            out@.len() == i,
            forall|m: int| 0 <= m < i ==> {
                &&& (#[trigger] out@[m]).view.name@ == tags.key_at(m)
                &&& out@[m].safe_tag@ == safe_tag_name(tags.key_at(m))
                &&& out@[m].view.template@ == "list.html"@
                &&& out@[m].view.title@ == tag_heading(tags.key_at(m))
                &&& is_site_info(out@[m].view.site, *config)
                &&& summarizes(out@[m].view.pages@, pages@, tags.group_at(m))
                &&& out@[m].view.output_path@ == tag_page_path(tags.key_at(m))
            },
        decreases entries@.len() - i,
    {
        let entry = &entries[i];
        assert forall|j: int| 0 <= j < entry.1@.len() implies #[trigger] entry.1@[j] < pages@.len() by {
            assert(tags.group_at(i as int)[j] == entry.1@[j]);
        }
        out.push(tag_page(&entry.0, &entry.1, pages, config));
        i = i + 1;
    }
    out
}

} // verus!
