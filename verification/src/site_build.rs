//! The decisions of a site build: which pages are kept, their order, how
//! they group into collections, and which outputs are out of date.
use vstd::prelude::*;
use crate::text::{chars_of, lemma_text_lt_asymmetric, lemma_text_lt_irreflexive, lemma_text_lt_total, lemma_text_lt_transitive, text_lt, text_lt_exec};
use crate::config::BuildConfig;
use crate::groups::{Groups, grouped, indices_below, key_count, lemma_grouped_step, lemma_groups_below};
use crate::paths::{join_path, join_path_exec};
use crate::text::{lowercase, to_lowercase};
use crate::types::{Page, opt_view, page_is_draft};

verus! {

broadcast use vstd::seq_lib::group_to_multiset_ensures;

// ---------------------------------------------------------------------------
// Order by date

/// The date a page is ordered by.
pub open spec fn date_key(p: Page) -> Option<Seq<char>> {
    opt_view(p.frontmatter.date)
}

/// A page with the first date goes before one with the second: dated pages
/// go newest first (by text order of their dates), and before undated ones.
pub open spec fn key_before(a: Option<Seq<char>>, b: Option<Seq<char>>) -> bool {
    match (a, b) {
        (Some(x), Some(y)) => text_lt(y, x),
        (Some(_), None) => true,
        _ => false,
    }
}

/// No page comes before one it should follow.
pub open spec fn sorted_by_date(s: Seq<Page>) -> bool {
    forall|i: int, j: int| 0 <= i < j < s.len() ==> !key_before(date_key(#[trigger] s[j]), date_key(#[trigger] s[i]))
}

/// The pages of `s` with the date `d`, in order.
pub open spec fn with_date(s: Seq<Page>, d: Option<Seq<char>>) -> Seq<Page>
    decreases s.len(),
{
    if s.len() == 0 {
        Seq::empty()
    } else {
        let rest = with_date(s.drop_last(), d);
        if date_key(s.last()) == d {
            rest.push(s.last())
        } else {
            rest
        }
    }
}

/// No date goes before itself.
pub proof fn lemma_key_before_irreflexive(a: Option<Seq<char>>)
    ensures
        !key_before(a, a),
{
    if let Some(x) = a {
        lemma_text_lt_irreflexive(x);
    }
}

proof fn lemma_key_before_asymmetric(a: Option<Seq<char>>, b: Option<Seq<char>>)
    ensures
        !(key_before(a, b) && key_before(b, a)),
{
    if let (Some(x), Some(y)) = (a, b) {
        lemma_text_lt_asymmetric(x, y);
    }
}

/// Not going before is transitive.
proof fn lemma_key_not_before_transitive(a: Option<Seq<char>>, b: Option<Seq<char>>, c: Option<Seq<char>>)
    requires
        !key_before(a, b),
        !key_before(b, c),
    ensures
        !key_before(a, c),
{
    if let (Some(x), Some(y), Some(z)) = (a, b, c) {
        if x != y {
            lemma_text_lt_total(x, y);
        }
        if y != z {
            lemma_text_lt_total(y, z);
        }
        if text_lt(z, x) {
            if x != y && y != z {
                lemma_text_lt_transitive(x, y, z);
                lemma_text_lt_asymmetric(x, z);
            }
        }
    }
}

proof fn lemma_with_date_append(a: Seq<Page>, b: Seq<Page>, d: Option<Seq<char>>)
    ensures
        with_date(a + b, d) == with_date(a, d) + with_date(b, d),
    decreases b.len(),
{
    if b.len() == 0 {
        assert(a + b =~= a);
        assert(with_date(a, d) + with_date(b, d) =~= with_date(a, d));
    } else {
        assert((a + b).drop_last() =~= a + b.drop_last());
        lemma_with_date_append(a, b.drop_last(), d);
        if date_key(b.last()) == d {
            assert(with_date(a, d) + with_date(b.drop_last(), d).push(b.last()) =~= (with_date(a, d)
                + with_date(b.drop_last(), d)).push(b.last()));
        }
    }
}

proof fn lemma_with_date_absent(s: Seq<Page>, d: Option<Seq<char>>)
    requires
        forall|i: int| 0 <= i < s.len() ==> date_key(#[trigger] s[i]) != d,
    ensures
        with_date(s, d) == Seq::<Page>::empty(),
    decreases s.len(),
{
    if s.len() > 0 {
        assert forall|i: int| 0 <= i < s.drop_last().len() implies date_key(#[trigger] s.drop_last()[i]) != d by {
            assert(s.drop_last()[i] == s[i]);
        }
        lemma_with_date_absent(s.drop_last(), d);
        assert(s.last() == s[s.len() - 1]);
    }
}

proof fn lemma_with_date_single(x: Page, d: Option<Seq<char>>)
    ensures
        with_date(seq![x], d) == if date_key(x) == d {
            seq![x]
        } else {
            Seq::<Page>::empty()
        },
{
    assert(seq![x].drop_last() =~= Seq::<Page>::empty());
    assert(seq![x].last() == x);
    assert(with_date(Seq::<Page>::empty(), d) == Seq::<Page>::empty());
    assert(with_date(seq![x], d) == if date_key(x) == d {
        with_date(Seq::<Page>::empty(), d).push(x)
    } else {
        with_date(Seq::<Page>::empty(), d)
    });
    if date_key(x) == d {
        assert(Seq::<Page>::empty().push(x) =~= seq![x]);
    }
}

/// Whether the first page goes before the second.
pub fn date_before(a: &Page, b: &Page) -> (r: bool)
    ensures
        r == key_before(date_key(*a), date_key(*b)),
{
    match (&a.frontmatter.date, &b.frontmatter.date) {
        (Some(x), Some(y)) => {
            let xs = chars_of(x.as_str());
            let ys = chars_of(y.as_str());
            text_lt_exec(&ys, &xs)
        },
        (Some(_), None) => true,
        _ => false,
    }
}

/// Orders the pages by date, newest first, undated pages last; pages with
/// the same date keep their order (a stable sort).
pub fn sort_pages_by_date(pages: &mut Vec<Page>)
    ensures
        final(pages)@.to_multiset() == old(pages)@.to_multiset(),
        sorted_by_date(final(pages)@),
        forall|d: Option<Seq<char>>| #[trigger] with_date(final(pages)@, d) == with_date(old(pages)@, d),
{
    let ghost orig = pages@;
    let mut input: Vec<Page> = Vec::new();
    std::mem::swap(pages, &mut input);
    let mut out: Vec<Page> = Vec::new();
    assert(orig.take(orig.len() as int) =~= orig);
    assert(orig.skip(orig.len() as int) =~= Seq::<Page>::empty());
    assert(out@ =~= Seq::<Page>::empty());
    while input.len() > 0
        invariant
            input@.len() <= orig.len(),
            input@ == orig.take(input@.len() as int),
            sorted_by_date(out@),
            forall|d: Option<Seq<char>>| #[trigger] with_date(out@, d) == with_date(orig.skip(input@.len() as int), d),
            out@.to_multiset() == orig.skip(input@.len() as int).to_multiset(),
        decreases input@.len(),
    {
        let ghost k = input@.len() - 1;
        let x = match input.pop() {
            Some(x) => x,
            None => {
                return;
            },
        };
        assert(x == orig[k]);
        assert(input@ =~= orig.take(k));
        let mut p: usize = 0;
        while p < out.len() && date_before(&out[p], &x)
            invariant
                p <= out@.len(),
                forall|q: int| 0 <= q < p ==> key_before(date_key(#[trigger] out@[q]), date_key(x)),
            decreases out@.len() - p,
        {
            p = p + 1;
        }
        let ghost old_out = out@;
        out.insert(p, x);
        proof {
            let rest = orig.skip(k + 1);
            assert(orig.skip(k) =~= seq![x] + rest);
            assert(orig.skip(k) =~= rest.insert(0, x));
            assert(out@ =~= old_out.take(p as int) + seq![x] + old_out.skip(p as int));
            assert(old_out =~= old_out.take(p as int) + old_out.skip(p as int));
            // the pages before `x` all go strictly before it
            assert forall|q: int| 0 <= q < old_out.take(p as int).len() implies date_key(
                #[trigger] old_out.take(p as int)[q],
            ) != date_key(x) by {
                assert(old_out.take(p as int)[q] == old_out[q]);
                lemma_key_before_irreflexive(date_key(x));
            }
            lemma_with_date_absent(old_out.take(p as int), date_key(x));
            assert forall|d: Option<Seq<char>>| #[trigger] with_date(out@, d) == with_date(orig.skip(k), d) by {
                lemma_with_date_append(old_out.take(p as int) + seq![x], old_out.skip(p as int), d);
                lemma_with_date_append(old_out.take(p as int), seq![x], d);
                lemma_with_date_append(old_out.take(p as int), old_out.skip(p as int), d);
                lemma_with_date_append(seq![x], rest, d);
                lemma_with_date_single(x, d);
                if d == date_key(x) {
                    assert(with_date(out@, d) =~= seq![x] + with_date(old_out.skip(p as int), d));
                    assert(with_date(old_out, d) =~= with_date(old_out.skip(p as int), d));
                } else {
                    assert(with_date(out@, d) =~= with_date(old_out.take(p as int), d) + with_date(
                        old_out.skip(p as int),
                        d,
                    ));
                    assert(with_date(orig.skip(k), d) =~= with_date(rest, d));
                }
            }
            // the result stays in order
            assert forall|i: int, j: int| 0 <= i < j < out@.len() implies !key_before(
                date_key(#[trigger] out@[j]),
                date_key(#[trigger] out@[i]),
            ) by {
                if j < p {
                    assert(out@[i] == old_out[i] && out@[j] == old_out[j]);
                } else if j == p {
                    assert(out@[i] == old_out[i]);
                    lemma_key_before_asymmetric(date_key(old_out[i]), date_key(x));
                } else if i == p {
                    assert(out@[j] == old_out[j - 1]);
                    if j - 1 > p {
                        assert(!key_before(date_key(old_out[j - 1]), date_key(old_out[p as int])));
                    }
                    if (p as int) < old_out.len() {
                        assert(!key_before(date_key(old_out[p as int]), date_key(x)));
                        if j - 1 > p {
                            lemma_key_not_before_transitive(
                                date_key(old_out[j - 1]),
                                date_key(old_out[p as int]),
                                date_key(x),
                            );
                        }
                    }
                } else if i < p {
                    assert(out@[i] == old_out[i] && out@[j] == old_out[j - 1]);
                } else {
                    assert(out@[i] == old_out[i - 1] && out@[j] == old_out[j - 1]);
                }
            }
        }
    }
    proof {
        assert(orig.skip(0) =~= orig);
    }
    *pages = out;
}

// ---------------------------------------------------------------------------
// Which pages are built

/// A page is built unless it is a draft and drafts are switched off.
pub open spec fn is_published(p: Page, build: BuildConfig) -> bool {
    !(page_is_draft(p) && !build.drafts)
}

/// Whether a page is built.
pub fn include_page(page: &Page, build: &BuildConfig) -> (r: bool)
    ensures
        r == is_published(*page, *build),
{
    !(page.is_draft() && !build.drafts)
}

// ---------------------------------------------------------------------------
// Collections

/// The keys a page is filed under as a member of its collection.
pub open spec fn collection_keys(c: Option<String>) -> Seq<String> {
    match c {
        Some(s) => seq![s],
        None => Seq::empty(),
    }
}

/// Each page as an item filed under its collection, with its index.
pub open spec fn collection_items(pages: Seq<Page>) -> Seq<(Seq<String>, usize)> {
    Seq::new(pages.len(), |i: int| (collection_keys(pages[i].collection), i as usize))
}

/// The indices of the pages of the collection `name`, in page order.
pub open spec fn members(pages: Seq<Page>, name: Seq<char>) -> Seq<usize> {
    grouped(collection_items(pages), name)
}

proof fn lemma_key_count_one(s: String, k: Seq<char>)
    ensures
        key_count(seq![s], k) == if s@ == k { 1nat } else { 0nat },
{
    assert(seq![s].drop_last() =~= Seq::<String>::empty());
    assert(key_count(Seq::<String>::empty(), k) == 0);
}

/// Groups the pages by collection: every collection that has a page, with
/// the indices of its pages in page order.
pub fn group_by_collection(pages: &[Page]) -> (r: Groups<usize>)
    ensures
        r.wf(),
        forall|k: Seq<char>| #[trigger] r.has_key(k) <==> members(pages@, k).len() > 0,
        forall|k: Seq<char>| #[trigger] r.lookup(k) == members(pages@, k),
        indices_below(r, pages@.len()),
{
    let ghost items = collection_items(pages@);
    let mut groups: Groups<usize> = Groups::new();
    let mut i: usize = 0;
    assert forall|k: Seq<char>| #[trigger] groups.lookup(k) == grouped(items.take(0), k) by {
        assert(items.take(0).len() == 0);
    }
    while i < pages.len()
        invariant
            i <= pages@.len(),
            items == collection_items(pages@),
            groups.wf(),
            forall|k: Seq<char>| #[trigger] groups.lookup(k) == grouped(items.take(i as int), k),
        decreases pages@.len() - i,
    {
        let ghost before = groups;
        match &pages[i].collection {
            Some(c) => {
                groups.add(c, i);
            },
            None => {},
        }
        proof {
            assert(items[i as int] == (collection_keys(pages@[i as int].collection), i));
            assert forall|k: Seq<char>| #[trigger] groups.lookup(k) == grouped(items.take(i + 1), k) by {
                lemma_grouped_step(items, i as int, k);
                match pages@[i as int].collection {
                    Some(c) => {
                        lemma_key_count_one(c, k);
                        if c@ == k {
                            assert(Seq::new(1nat, |_j: int| i) =~= seq![i]);
                        } else {
                            assert(Seq::new(0nat, |_j: int| i) =~= Seq::<usize>::empty());
                        }
                    },
                    None => {
                        assert(key_count(Seq::<String>::empty(), k) == 0);
                        assert(Seq::new(0nat, |_j: int| i) =~= Seq::<usize>::empty());
                    },
                }
            }
        }
        i = i + 1;
    }
    proof {
        assert(items.take(pages@.len() as int) =~= items);
        assert forall|k: Seq<char>| #[trigger] groups.has_key(k) <==> members(pages@, k).len() > 0 by {
            groups.lemma_lookup(k);
        }
        lemma_groups_below(groups, items, pages@.len());
    }
    groups
}

// ---------------------------------------------------------------------------
// Out-of-date outputs
//
// Times are nanoseconds from the Unix epoch (negative before it); a time that
// cannot be read counts as the epoch.

/// The latest of some times, or the epoch when there are none.
pub open spec fn latest_time(ts: Seq<i128>) -> i128
    decreases ts.len(),
{
    if ts.len() == 0 {
        0
    } else if ts.len() == 1 {
        ts[0]
    } else {
        let m = latest_time(ts.drop_last());
        if ts.last() > m {
            ts.last()
        } else {
            m
        }
    }
}

/// The latest of some times, or the epoch when there are none.
pub fn latest(ts: &Vec<i128>) -> (r: i128)
    ensures
        r == latest_time(ts@),
{
    if ts.len() == 0 {
        return 0;
    }
    let mut m = ts[0];
    let mut i: usize = 1;
    assert(ts@.take(1).drop_last() =~= Seq::<i128>::empty());
    while i < ts.len()
        invariant
            1 <= i <= ts@.len(),
            m == latest_time(ts@.take(i as int)),
        decreases ts@.len() - i,
    {
        assert(ts@.take(i + 1).drop_last() =~= ts@.take(i as int));
        if ts[i] > m {
            m = ts[i];
        }
        i = i + 1;
    }
    assert(ts@.take(ts@.len() as int) =~= ts@);
    m
}

/// A page is rebuilt unless its output exists and is newer than both its
/// source and the templates.
pub open spec fn page_is_stale(output_exists: bool, source: i128, output: i128, templates: i128) -> bool {
    !output_exists || !(output > source && output > templates)
}

/// Whether a page is rebuilt.
pub fn page_needs_rebuild(output_exists: bool, source: i128, output: i128, templates: i128) -> (r: bool)
    ensures
        r == page_is_stale(output_exists, source, output, templates),
{
    !output_exists || !(output > source && output > templates)
}

/// A collection index is rebuilt unless it exists and is newer than its
/// pages' sources, the templates and every collection index.
pub open spec fn collection_is_stale(
    index_exists: bool,
    pages_latest: i128,
    index: i128,
    templates: i128,
    collections_latest: i128,
) -> bool {
    !index_exists || !(index > pages_latest && index > templates && index > collections_latest)
}

/// Whether a collection index is rebuilt.
pub fn collection_needs_rebuild(
    index_exists: bool,
    pages_latest: i128,
    index: i128,
    templates: i128,
    collections_latest: i128,
) -> (r: bool)
    ensures
        r == collection_is_stale(index_exists, pages_latest, index, templates, collections_latest),
{
    !index_exists || !(index > pages_latest && index > templates && index > collections_latest)
}

/// The feed is written when it is missing or a post's source is newer.
pub open spec fn feed_is_stale(feed_exists: bool, posts_latest: i128, feed: i128) -> bool {
    !feed_exists || posts_latest > feed
}

/// Whether the feed is written.
pub fn feed_needs_rebuild(feed_exists: bool, posts_latest: i128, feed: i128) -> (r: bool)
    ensures
        r == feed_is_stale(feed_exists, posts_latest, feed),
{
    !feed_exists || posts_latest > feed
}

/// The sitemap is written only when it is missing.
pub fn sitemap_needs_rebuild(sitemap_exists: bool) -> (r: bool)
    ensures
        r == !sitemap_exists,
{
    !sitemap_exists
}

/// A tag's page is stale when it is missing or a tagged page's source is newer.
pub open spec fn tag_is_stale(page_exists: bool, pages_latest: i128, page: i128) -> bool {
    !page_exists || pages_latest > page
}

/// Whether a tag's page is stale.
pub fn tag_needs_rebuild(page_exists: bool, pages_latest: i128, page: i128) -> (r: bool)
    ensures
        r == tag_is_stale(page_exists, pages_latest, page),
{
    !page_exists || pages_latest > page
}

/// Where the build looks for a collection's index: `<output>/<name>/index.html`.
pub fn collection_index_under(output_dir: &str, name: &str) -> (r: String)
    ensures
        r@ == join_path(join_path(output_dir@, name@), "index.html"@),
{
    let dir = join_path_exec(output_dir, name);
    join_path_exec(dir.as_str(), "index.html")
}

/// Where the build looks for the feed: `<output>/feed.xml`.
pub fn feed_path_under(output_dir: &str) -> (r: String)
    ensures
        r@ == join_path(output_dir@, "feed.xml"@),
{
    join_path_exec(output_dir, "feed.xml")
}

/// Where the build looks for the sitemap: `<output>/sitemap.xml`.
pub fn sitemap_path_under(output_dir: &str) -> (r: String)
    ensures
        r@ == join_path(output_dir@, "sitemap.xml"@),
{
    join_path_exec(output_dir, "sitemap.xml")
}

/// Where the build looks for a tag's page: `<output>/tags/<tag in
/// lowercase>/index.html`.
pub fn tag_index_under(output_dir: &str, tag: &str) -> (r: String)
    ensures
        r@ == join_path(join_path(join_path(output_dir@, "tags"@), lowercase(tag@)), "index.html"@),
{
    let tags_dir = join_path_exec(output_dir, "tags");
    let lower = to_lowercase(tag);
    let dir = join_path_exec(tags_dir.as_str(), lower.as_str());
    join_path_exec(dir.as_str(), "index.html")
}

} // verus!
