//! Properties of the library that span several of its functions.
use vstd::prelude::*;
use crate::graph::{link_items, linkers};
use crate::groups::{grouped, key_count, lemma_grouped_members, lemma_grouped_step, lemma_key_count_positive};
use crate::parser::{dot_slash, extracted_links, is_page_from, line_link, links_in_lines, md_suffix};
use crate::paths::{collection_of, join_path, output_path_for};
use crate::rss::{first_twenty, is_post, post_url, posts_of, rss_document, rss_head, rss_item, rss_items};
use crate::site_build::{collection_items, collection_keys, date_key, key_before, members, sorted_by_date};
use crate::sitemap::{page_loc, sitemap_document, sitemap_entries, sitemap_entry, sitemap_head, slash};
use crate::serve::{RouteModel, after_last_dot, mime_for, request_target, response_model, route_model, utf8_len};
use crate::site_build::{collection_is_stale, feed_is_stale, page_is_stale, tag_is_stale};
use crate::paths::last_dot;
use crate::config::SiteConfig;
use crate::tags::{dashed, tag_page_path};
use crate::text::{decimal, digit_char, ends_with, find_from, lemma_find_from, lowercase, newline, occurs_at, split_on, starts_with, strip_cr, strip_prefixes, strip_suffixes, text_lines};
use crate::types::{Page, opt_view};

verus! {

broadcast use vstd::string::group_string_axioms;

// ---------------------------------------------------------------------------
// Links

proof fn lemma_strip_suffixes(s: Seq<char>, p: Seq<char>)
    requires
        p.len() > 0,
    ensures
        !ends_with(strip_suffixes(s, p), p),
        strip_suffixes(s, p).len() <= s.len(),
        strip_suffixes(s, p) == s.take(strip_suffixes(s, p).len() as int),
    decreases s.len(),
{
    if ends_with(s, p) {
        let t = s.take(s.len() - p.len());
        lemma_strip_suffixes(t, p);
        let r = strip_suffixes(t, p);
        assert(t.take(r.len() as int) =~= s.take(r.len() as int));
    } else {
        assert(s.take(s.len() as int) =~= s);
    }
}

proof fn lemma_strip_prefixes(s: Seq<char>, p: Seq<char>)
    requires
        p.len() > 0,
    ensures
        !starts_with(strip_prefixes(s, p), p),
    decreases s.len(),
{
    if starts_with(s, p) {
        lemma_strip_prefixes(s.skip(p.len() as int), p);
    }
}

proof fn lemma_line_link_form(line: Seq<char>)
    ensures
        line_link(line) matches Some(l) ==> !ends_with(l, md_suffix()) && !starts_with(l, dot_slash()),
{
    if let Some(l) = line_link(line) {
        let t = strip_prefixes_target(line);
        lemma_strip_prefixes(target_of(line), dot_slash());
        lemma_strip_suffixes(t, md_suffix());
        if l.len() >= 2 {
            assert(l.take(2) =~= t.take(2));
        }
    }
}

/// The target a line's link names, before its `./` and `.md` are removed.
spec fn target_of(line: Seq<char>) -> Seq<char> {
    match find_from(line, seq!['['], 0) {
        None => Seq::empty(),
        Some(start) => match find_from(line, seq![']', '('], start) {
            None => Seq::empty(),
            Some(mid) => match find_from(line, seq![')'], mid + 2) {
                None => Seq::empty(),
                Some(end) => line.subrange(mid + 2, end),
            },
        },
    }
}

spec fn strip_prefixes_target(line: Seq<char>) -> Seq<char> {
    strip_prefixes(target_of(line), dot_slash())
}

proof fn lemma_links_in_lines(lines: Seq<Seq<char>>)
    ensures
        links_in_lines(lines).len() <= lines.len(),
        forall|j: int| 0 <= j < links_in_lines(lines).len() ==> {
            &&& !ends_with(#[trigger] links_in_lines(lines)[j], md_suffix())
            &&& !starts_with(links_in_lines(lines)[j], dot_slash())
        },
    decreases lines.len(),
{
    if lines.len() > 0 {
        lemma_links_in_lines(lines.drop_last());
        lemma_line_link_form(lines.last());
        let rest = links_in_lines(lines.drop_last());
        if let Some(l) = line_link(lines.last()) {
            assert forall|j: int| 0 <= j < links_in_lines(lines).len() implies {
                &&& !ends_with(#[trigger] links_in_lines(lines)[j], md_suffix())
                &&& !starts_with(links_in_lines(lines)[j], dot_slash())
            } by {
                if j < rest.len() {
                    assert(links_in_lines(lines)[j] == rest[j]);
                } else {
                    assert(links_in_lines(lines)[j] == l);
                }
            }
        }
    }
}

/// A text links to at most one page per line, and every page it links to is
/// named without a leading `./` and without a trailing `.md`.
pub proof fn law_links_are_page_names(content: Seq<char>)
    ensures
        extracted_links(content).len() <= text_lines(content).len(),
        forall|j: int| 0 <= j < extracted_links(content).len() ==> {
            &&& !ends_with(#[trigger] extracted_links(content)[j], md_suffix())
            &&& !starts_with(extracted_links(content)[j], dot_slash())
        },
{
    lemma_links_in_lines(text_lines(content));
}

/// A search that finds an occurrence with none before it finds that one.
proof fn lemma_find_is(s: Seq<char>, pat: Seq<char>, from: int, i: int)
    requires
        0 <= from <= i,
        occurs_at(s, pat, i),
        forall|j: int| from <= j < i ==> !occurs_at(s, pat, j),
    ensures
        find_from(s, pat, from) == Some(i),
    decreases i - from,
{
    if from < i {
        assert(!occurs_at(s, pat, from));
        lemma_find_is(s, pat, from + 1, i);
    }
}

/// Cutting `a`, a line feed and `b` at line feeds gives the pieces of `a`
/// followed by those of `b`.
proof fn lemma_split_concat(a: Seq<char>, b: Seq<char>)
    ensures
        split_on(a + newline() + b, newline()) == split_on(a, newline()) + split_on(b, newline()),
    decreases a.len(),
{
    let nl = newline();
    let s = a + nl + b;
    lemma_find_from(a, nl, 0);
    match find_from(a, nl, 0) {
        Some(i) => {
            assert forall|j: int| 0 <= j <= i implies occurs_at(s, nl, j) == occurs_at(a, nl, j) by {
                if 0 <= j && j + 1 <= a.len() {
                    assert(s.subrange(j, j + 1) =~= a.subrange(j, j + 1));
                }
            }
            lemma_find_is(s, nl, 0, i);
            let rest = a.skip(i + 1);
            assert(s.take(i) =~= a.take(i));
            assert(s.skip(i + 1) =~= rest + nl + b);
            lemma_split_concat(rest, b);
            assert(split_on(a, nl) == seq![a.take(i)] + split_on(rest, nl));
            assert(split_on(s, nl) == seq![s.take(i)] + split_on(s.skip(i + 1), nl));
            assert(split_on(s, nl) =~= split_on(a, nl) + split_on(b, nl));
        },
        None => {
            let n = a.len() as int;
            assert(s.subrange(n, n + 1) =~= nl);
            assert forall|j: int| 0 <= j < n implies !occurs_at(s, nl, j) by {
                assert(!occurs_at(a, nl, j));
                assert(s.subrange(j, j + 1) =~= a.subrange(j, j + 1));
            }
            lemma_find_is(s, nl, 0, n);
            assert(s.take(n) =~= a);
            assert(s.skip(n + 1) =~= b);
            assert(split_on(a, nl) == seq![a]);
            assert(split_on(s, nl) =~= split_on(a, nl) + split_on(b, nl));
        },
    }
}

/// A character that a pattern does not hold, put at the end of a text,
/// changes no search for the pattern.
proof fn lemma_find_push(y: Seq<char>, c: char, pat: Seq<char>, from: int)
    requires
        0 <= from,
        pat.len() > 0,
        forall|k: int| 0 <= k < pat.len() ==> pat[k] != c,
    ensures
        find_from(y.push(c), pat, from) == find_from(y, pat, from),
    decreases y.len() + 1 - from,
{
    let x = y.push(c);
    if from + pat.len() <= y.len() {
        assert(x.subrange(from, from + pat.len()) =~= y.subrange(from, from + pat.len()));
        if !occurs_at(y, pat, from) {
            lemma_find_push(y, c, pat, from + 1);
        }
    } else if from + pat.len() == x.len() {
        let sub = x.subrange(from, from + pat.len());
        assert(sub[pat.len() - 1] == c);
        assert(sub != pat);
        assert(!occurs_at(x, pat, from));
        assert(find_from(x, pat, from + 1) is None);
    }
}

/// A line's link does not depend on a carriage return at its end.
proof fn lemma_line_link_cr(x: Seq<char>)
    ensures
        line_link(strip_cr(x)) == line_link(x),
{
    if x.len() > 0 && x.last() == '\r' {
        let y = x.drop_last();
        assert(x =~= y.push('\r'));
        lemma_find_push(y, '\r', seq!['['], 0);
        lemma_find_from(y, seq!['['], 0);
        if let Some(start) = find_from(y, seq!['['], 0) {
            lemma_find_push(y, '\r', seq![']', '('], start);
            lemma_find_from(y, seq![']', '('], start);
            if let Some(mid) = find_from(y, seq![']', '('], start) {
                lemma_find_push(y, '\r', seq![')'], mid + 2);
                lemma_find_from(y, seq![')'], mid + 2);
                if let Some(end) = find_from(y, seq![')'], mid + 2) {
                    assert(x.subrange(mid + 2, end) =~= y.subrange(mid + 2, end));
                }
            }
        }
    }
}

/// The links of consecutive lines are those of the first lines followed by
/// those of the others.
proof fn lemma_links_concat(xs: Seq<Seq<char>>, ys: Seq<Seq<char>>)
    ensures
        links_in_lines(xs + ys) == links_in_lines(xs) + links_in_lines(ys),
    decreases ys.len(),
{
    if ys.len() == 0 {
        assert(xs + ys =~= xs);
        assert(links_in_lines(xs) + links_in_lines(ys) =~= links_in_lines(xs));
    } else {
        assert((xs + ys).drop_last() =~= xs + ys.drop_last());
        assert((xs + ys).last() == ys.last());
        lemma_links_concat(xs, ys.drop_last());
        if let Some(l) = line_link(ys.last()) {
            assert(links_in_lines(xs) + links_in_lines(ys.drop_last()).push(l) =~= (links_in_lines(xs)
                + links_in_lines(ys.drop_last())).push(l));
        }
    }
}

/// The links of one line.
proof fn lemma_links_one(x: Seq<char>)
    ensures
        links_in_lines(seq![x]) == match line_link(x) {
            Some(l) => seq![l],
            None => Seq::<Seq<char>>::empty(),
        },
{
    assert(seq![x].drop_last() =~= Seq::<Seq<char>>::empty());
    assert(seq![x].last() == x);
    assert(links_in_lines(Seq::<Seq<char>>::empty()) == Seq::<Seq<char>>::empty());
    if let Some(l) = line_link(x) {
        assert(Seq::<Seq<char>>::empty().push(l) =~= seq![l]);
    }
}

/// Links are found line by line: the links of `a`, a line feed and `b` are
/// the links of `a` followed by the links of `b`.
pub proof fn law_links_line_by_line(a: Seq<char>, b: Seq<char>)
    ensures
        extracted_links(a + newline() + b) == extracted_links(a) + extracted_links(b),
{
    let nl = newline();
    let s = a + nl + b;
    lemma_split_concat(a, b);
    let pa = split_on(a, nl);
    let pb = split_on(b, nl);
    let ps = split_on(s, nl);
    assert(pa.len() >= 1);
    assert(pb.len() >= 1);
    let k = pa.len() as int;
    let m = pb.len() as int;
    // The lines of `b` close the lines of the whole text.
    let front_a = Seq::new((k - 1) as nat, |i: int| strip_cr(pa[i]));
    let whole_a = Seq::new(k as nat, |i: int| strip_cr(pa[i]));
    let front_b = Seq::new((m - 1) as nat, |i: int| strip_cr(pb[i]));
    let body_s = Seq::new((k + m - 1) as nat, |i: int| strip_cr(ps[i]));
    assert(body_s =~= whole_a + front_b);
    assert(ps[k + m - 1] == pb[m - 1]);
    let tail_b: Seq<Seq<char>> = if pb[m - 1].len() == 0 { Seq::empty() } else { seq![pb[m - 1]] };
    assert(text_lines(b) =~= front_b + tail_b);
    assert(text_lines(s) =~= whole_a + (front_b + tail_b));
    lemma_links_concat(whole_a, front_b + tail_b);
    // The last piece of `a` gives the same links, whether or not it ends a line.
    let last_a = pa[k - 1];
    assert(whole_a =~= front_a + seq![strip_cr(last_a)]);
    let tail_a: Seq<Seq<char>> = if last_a.len() == 0 { Seq::empty() } else { seq![last_a] };
    assert(text_lines(a) =~= front_a + tail_a);
    lemma_links_concat(front_a, seq![strip_cr(last_a)]);
    lemma_links_concat(front_a, tail_a);
    lemma_line_link_cr(last_a);
    lemma_links_one(strip_cr(last_a));
    if last_a.len() == 0 {
        assert(strip_cr(last_a) == last_a);
        assert(find_from(last_a, seq!['['], 0) is None);
        assert(links_in_lines(tail_a) == Seq::<Seq<char>>::empty());
        assert(links_in_lines(front_a) + Seq::<Seq<char>>::empty() =~= links_in_lines(front_a));
    } else {
        lemma_links_one(last_a);
    }
}

// ---------------------------------------------------------------------------
// Grouping

/// A slug is listed under a link target exactly when a page with that slug
/// links to the target.
pub proof fn law_graph_lists_linkers(pages: Seq<Page>, target: Seq<char>, slug: String)
    ensures
        linkers(pages, target).contains(slug) <==> exists|i: int, j: int|
            0 <= i < pages.len() && pages[i].slug == slug && 0 <= j < pages[i].links@.len()
                && #[trigger] pages[i].links@[j]@ == target,
{
    let items = link_items(pages);
    lemma_grouped_members(items, target, slug);
    if linkers(pages, target).contains(slug) {
        let i = choose|i: int| 0 <= i < items.len() && items[i].1 == slug && #[trigger] key_count(items[i].0, target) > 0;
        lemma_key_count_positive(pages[i].links@, target);
        assert(items[i].0 == pages[i].links@);
        let j = choose|j: int| 0 <= j < pages[i].links@.len() && #[trigger] pages[i].links@[j]@ == target;
        assert(pages[i].links@[j]@ == target);
    }
    if exists|i: int, j: int|
        0 <= i < pages.len() && pages[i].slug == slug && 0 <= j < pages[i].links@.len()
            && #[trigger] pages[i].links@[j]@ == target {
        let (i, j) = choose|i: int, j: int|
            0 <= i < pages.len() && pages[i].slug == slug && 0 <= j < pages[i].links@.len()
                && #[trigger] pages[i].links@[j]@ == target;
        lemma_key_count_positive(pages[i].links@, target);
        assert(items[i].0 == pages[i].links@);
        assert(key_count(items[i].0, target) > 0);
    }
}

/// A page is listed in a collection exactly when the collection is its own.
pub proof fn law_collection_members(pages: Seq<Page>, name: Seq<char>, i: int)
    requires
        0 <= i < pages.len(),
        pages.len() <= usize::MAX,
    ensures
        members(pages, name).contains(i as usize) <==> opt_view(pages[i].collection) == Some(name),
{
    let items = collection_items(pages);
    lemma_grouped_members(items, name, i as usize);
    lemma_key_count_positive(collection_keys(pages[i].collection), name);
    assert(items[i].0 == collection_keys(pages[i].collection));
    if members(pages, name).contains(i as usize) {
        let m = choose|m: int| 0 <= m < items.len() && items[m].1 == i as usize && #[trigger] key_count(items[m].0, name) > 0;
        assert(items[m].1 == m as usize);
        assert(m == i);
        let j = choose|j: int| 0 <= j < collection_keys(pages[i].collection).len() && #[trigger] collection_keys(pages[i].collection)[j]@ == name;
    } else {
        assert(items[i].1 == i as usize);
        assert(key_count(items[i].0, name) == 0);
        if let Some(c) = pages[i].collection {
            if c@ == name {
                assert(collection_keys(pages[i].collection)[0]@ == name);
            }
        }
    }
}

// ---------------------------------------------------------------------------
// Addresses

/// The part of a page's address after the site's address: its collection
/// (if any) and slug.
pub open spec fn relative_dir(slug: Seq<char>, collection: Option<Seq<char>>) -> Seq<char> {
    match collection {
        Some(c) => c + seq!['/'] + slug,
        None => slug,
    }
}

/// A page's sitemap address and its output file name the same place: the
/// address after the site's address, with `index.html` after it and `public`
/// before it, is the output path. This holds whenever the page's directory
/// (collection and slug) neither starts nor ends with `/`.
pub proof fn law_sitemap_matches_output(
    p: Page,
    path: Seq<char>,
    frontmatter: crate::types::Frontmatter,
    body: Seq<char>,
    base: Seq<char>,
)
    requires
        is_page_from(p, path, frontmatter, body),
        relative_dir(p.slug@, collection_of(path)).len() > 0,
        relative_dir(p.slug@, collection_of(path))[0] != '/',
        relative_dir(p.slug@, collection_of(path)).last() != '/',
    ensures
        p.output_path@ == "public"@ + page_loc(base, p).skip(base.len() as int) + "index.html"@,
{
    let rel = relative_dir(p.slug@, collection_of(path));
    reveal_strlit("public");
    reveal_strlit("index.html");
    assert(p.output_path@ == output_path_for(p.slug@, collection_of(path)));
    let dir = join_path("public"@, rel);
    assert(dir == "public"@ + seq!['/'] + rel);
    assert(dir.last() == rel.last());
    assert(join_path(dir, "index.html"@) == dir + seq!['/'] + "index.html"@);
    match p.collection {
        Some(c) => {
            assert(collection_of(path) == Some(c@));
            assert(page_loc(base, p).skip(base.len() as int) =~= slash() + c@ + slash() + p.slug@ + slash());
            assert(p.output_path@ =~= "public"@ + (slash() + c@ + slash() + p.slug@ + slash()) + "index.html"@);
        },
        None => {
            assert(collection_of(path) is None);
            assert(page_loc(base, p).skip(base.len() as int) =~= slash() + p.slug@ + slash());
            assert(p.output_path@ =~= "public"@ + (slash() + p.slug@ + slash()) + "index.html"@);
        },
    }
}

/// A post's feed link is its sitemap address.
pub proof fn law_feed_link_is_sitemap_address(p: Page, base: Seq<char>)
    requires
        is_post(p),
    ensures
        post_url(base, p.slug@) == page_loc(base, p),
{
    reveal_strlit("/posts/");
    reveal_strlit("posts");
    reveal_strlit("/");
    let c = p.collection->0;
    assert(c@ == "posts"@);
    assert(post_url(base, p.slug@) =~= base + slash() + c@ + slash() + p.slug@ + slash());
}

/// The build looks for a tag's page where that page is written when the
/// output directory is `public` and the tag has no space (a space becomes a
/// dash in the written name only), given that the tag's lowercase form is a
/// relative name that does not end in `/`.
pub proof fn law_tag_page_found_where_written(tag: Seq<char>)
    requires
        forall|i: int| 0 <= i < tag.len() ==> tag[i] != ' ',
        lowercase(tag).len() > 0,
        lowercase(tag)[0] != '/',
        lowercase(tag).last() != '/',
    ensures
        join_path(join_path(join_path("public"@, "tags"@), lowercase(tag)), "index.html"@) == tag_page_path(tag),
{
    reveal_strlit("public");
    reveal_strlit("tags");
    reveal_strlit("index.html");
    reveal_strlit("public/tags/");
    reveal_strlit("/index.html");
    assert(dashed(tag) =~= tag);
    let low = lowercase(tag);
    let tags_dir = join_path("public"@, "tags"@);
    assert(tags_dir =~= "public"@ + seq!['/'] + "tags"@);
    let dir = join_path(tags_dir, low);
    assert(dir =~= tags_dir + seq!['/'] + low);
    assert(dir.last() == low.last());
    assert(join_path(dir, "index.html"@) =~= dir + seq!['/'] + "index.html"@);
    assert(dir + seq!['/'] + "index.html"@ =~= "public/tags/"@ + low + "/index.html"@);
}

// ---------------------------------------------------------------------------
// Date order through grouping and the feed

proof fn lemma_members_increasing(pages: Seq<Page>, k: Seq<char>, i: int)
    requires
        0 <= i <= pages.len(),
        pages.len() <= usize::MAX,
    ensures
        forall|a: int, b: int|
            0 <= a < b < grouped(collection_items(pages).take(i), k).len() ==> #[trigger] grouped(
                collection_items(pages).take(i),
                k,
            )[a] < #[trigger] grouped(collection_items(pages).take(i), k)[b],
        forall|a: int|
            0 <= a < grouped(collection_items(pages).take(i), k).len() ==> #[trigger] grouped(
                collection_items(pages).take(i),
                k,
            )[a] < i,
    decreases i,
{
    let items = collection_items(pages);
    if i == 0 {
        assert(items.take(0).len() == 0);
    } else {
        lemma_members_increasing(pages, k, i - 1);
        lemma_grouped_step(items, i - 1, k);
        let g0 = grouped(items.take(i - 1), k);
        let keys = collection_keys(pages[i - 1].collection);
        assert(items[i - 1] == (keys, (i - 1) as usize));
        let c = key_count(keys, k);
        assert(c <= 1) by {
            assert(keys.len() <= 1);
            if keys.len() == 1 {
                assert(keys.drop_last().len() == 0);
                assert(key_count(keys.drop_last(), k) == 0);
            }
        }
        let g = grouped(items.take(i), k);
        let tail = Seq::new(c, |_j: int| items[i - 1].1);
        assert(g == g0 + tail);
        assert forall|a: int| 0 <= a < g.len() implies #[trigger] g[a] < i by {
            if a < g0.len() {
                assert(g[a] == g0[a]);
            } else {
                assert(g[a] == tail[a - g0.len()]);
            }
        }
        assert forall|a: int, b: int| 0 <= a < b < g.len() implies #[trigger] g[a] < #[trigger] g[b] by {
            if b < g0.len() {
                assert(g[a] == g0[a] && g[b] == g0[b]);
            } else {
                assert(b == g0.len());
                assert(g[b] == (i - 1) as usize);
                assert(g[a] == g0[a]);
            }
        }
    }
}

/// When the pages are in date order, so is every collection: its pages are
/// listed newest first, undated ones last.
pub proof fn law_collections_follow_date_order(pages: Seq<Page>, k: Seq<char>)
    requires
        sorted_by_date(pages),
        pages.len() <= usize::MAX,
    ensures
        forall|a: int, b: int|
            0 <= a < b < members(pages, k).len() ==> !key_before(
                date_key(pages[#[trigger] members(pages, k)[b] as int]),
                date_key(pages[#[trigger] members(pages, k)[a] as int]),
            ),
{
    let items = collection_items(pages);
    lemma_members_increasing(pages, k, pages.len() as int);
    assert(items.take(pages.len() as int) =~= items);
    let m = members(pages, k);
    assert forall|a: int, b: int| 0 <= a < b < m.len() implies !key_before(
        date_key(pages[#[trigger] m[b] as int]),
        date_key(pages[#[trigger] m[a] as int]),
    ) by {
        assert(m[a] < m[b]);
        assert(m[b] < pages.len());
        let x = m[a] as int;
        let y = m[b] as int;
        assert(!key_before(date_key(pages[y]), date_key(pages[x])));
    }
}

proof fn lemma_posts_from(pages: Seq<Page>)
    ensures
        posts_of(pages).len() <= pages.len(),
        forall|a: int| 0 <= a < posts_of(pages).len() ==> exists|i: int| 0 <= i < pages.len() && #[trigger] posts_of(pages)[a] == pages[i],
        sorted_by_date(pages) ==> sorted_by_date(posts_of(pages)),
    decreases pages.len(),
{
    if pages.len() > 0 {
        let init = pages.drop_last();
        lemma_posts_from(init);
        let q = posts_of(init);
        assert forall|a: int| 0 <= a < q.len() implies exists|i: int| 0 <= i < pages.len() && #[trigger] q[a] == pages[i] by {
            let i = choose|i: int| 0 <= i < init.len() && q[a] == init[i];
            assert(init[i] == pages[i]);
        }
        if sorted_by_date(pages) {
            assert forall|i: int, j: int| 0 <= i < j < init.len() implies !key_before(date_key(#[trigger] init[j]), date_key(#[trigger] init[i])) by {
                assert(init[i] == pages[i] && init[j] == pages[j]);
            }
        }
        if is_post(pages.last()) {
            let r = posts_of(pages);
            assert(r == q.push(pages.last()));
            assert forall|a: int| 0 <= a < r.len() implies exists|i: int| 0 <= i < pages.len() && #[trigger] r[a] == pages[i] by {
                if a < q.len() {
                    assert(r[a] == q[a]);
                } else {
                    assert(r[a] == pages[pages.len() - 1]);
                }
            }
            if sorted_by_date(pages) {
                assert forall|a: int, b: int| 0 <= a < b < r.len() implies !key_before(date_key(#[trigger] r[b]), date_key(#[trigger] r[a])) by {
                    if b < q.len() {
                        assert(r[a] == q[a] && r[b] == q[b]);
                    } else {
                        assert(r[b] == pages[pages.len() - 1]);
                        assert(r[a] == q[a]);
                        let i = choose|i: int| 0 <= i < pages.len() && #[trigger] q[a] == pages[i];
                        if i == pages.len() - 1 {
                            crate::site_build::lemma_key_before_irreflexive(date_key(pages[i]));
                        } else {
                            assert(!key_before(date_key(pages[pages.len() - 1]), date_key(pages[i])));
                        }
                    }
                }
            }
        }
    }
}

/// When the pages are in date order, the feed lists its posts newest first.
pub proof fn law_feed_follows_date_order(pages: Seq<Page>)
    requires
        sorted_by_date(pages),
    ensures
        sorted_by_date(first_twenty(posts_of(pages))),
{
    lemma_posts_from(pages);
    let ps = posts_of(pages);
    let f = first_twenty(ps);
    assert forall|a: int, b: int| 0 <= a < b < f.len() implies !key_before(date_key(#[trigger] f[b]), date_key(#[trigger] f[a])) by {
        assert(f[a] == ps[a] && f[b] == ps[b]);
    }
}

// ---------------------------------------------------------------------------
// Numbers in replies

/// The value of a decimal numeral, most significant digit first.
pub open spec fn numeral_value(s: Seq<char>) -> int
    decreases s.len(),
{
    if s.len() == 0 {
        0
    } else {
        numeral_value(s.drop_last()) * 10 + ((s.last() as int) - ('0' as int))
    }
}

/// Every character is one of `0` to `9`.
pub open spec fn all_digits(s: Seq<char>) -> bool {
    forall|i: int| 0 <= i < s.len() ==> ('0' as int) <= (#[trigger] s[i] as int) <= ('9' as int)
}

proof fn lemma_digit_char(d: nat)
    requires
        d < 10,
    ensures
        (digit_char(d) as int) - ('0' as int) == d,
        ('0' as int) <= (digit_char(d) as int) <= ('9' as int),
        d > 0 ==> digit_char(d) != '0',
{
}

/// The decimal notation of a number is a numeral of digits, without a
/// leading zero, whose value is the number.
pub proof fn law_decimal_value(n: nat)
    ensures
        numeral_value(decimal(n)) == n,
        all_digits(decimal(n)),
        decimal(n).len() > 0,
        n > 0 ==> decimal(n)[0] != '0',
    decreases n,
{
    if n < 10 {
        lemma_digit_char(n);
        let d = decimal(n);
        assert(d.drop_last() =~= Seq::<char>::empty());
        assert(d.last() == digit_char(n));
        assert(numeral_value(Seq::<char>::empty()) == 0);
        assert(numeral_value(d) == numeral_value(d.drop_last()) * 10 + ((d.last() as int) - ('0' as int)));
    } else {
        law_decimal_value(n / 10);
        lemma_digit_char(n % 10);
        let d = decimal(n);
        assert(d.drop_last() =~= decimal(n / 10));
        assert(d.last() == digit_char(n % 10));
        assert(n == (n / 10) * 10 + n % 10);
        assert(numeral_value(d) == numeral_value(d.drop_last()) * 10 + ((d.last() as int) - ('0' as int)));
        assert(numeral_value(d) == (n / 10) * 10 + n % 10);
        assert(d[0] == decimal(n / 10)[0]);
        assert forall|i: int| 0 <= i < d.len() implies ('0' as int) <= (#[trigger] d[i] as int) <= ('9' as int) by {
            if i < d.len() - 1 {
                assert(d[i] == decimal(n / 10)[i]);
            }
        }
    }
}

/// The Content-Length header of a reply, read as a decimal numeral, is the
/// number of bytes of the body's UTF-8 encoding.
pub proof fn law_content_length(status: Seq<char>, content: Seq<char>, content_type: Seq<char>)
    ensures
        ({
            let digits = decimal(utf8_len(content));
            &&& response_model(status, content, content_type) == "HTTP/1.1 "@ + status + "\r\nContent-Type: "@
                + content_type + "\r\nContent-Length: "@ + digits + "\r\n\r\n"@ + content
            &&& all_digits(digits)
            &&& numeral_value(digits) == utf8_len(content)
        }),
{
    law_decimal_value(utf8_len(content));
}

// ---------------------------------------------------------------------------
// Content types

/// The content types the server gives to file extensions.
pub open spec fn known_content_type(ext: Seq<char>, mime: Seq<char>) -> bool {
    ||| ext == seq!['h', 't', 'm', 'l'] && mime == "text/html"@
    ||| ext == seq!['h', 't', 'm'] && mime == "text/html"@
    ||| ext == seq!['c', 's', 's'] && mime == "text/css"@
    ||| ext == seq!['j', 's'] && mime == "application/javascript"@
    ||| ext == seq!['j', 's', 'o', 'n'] && mime == "application/json"@
    ||| ext == seq!['p', 'n', 'g'] && mime == "image/png"@
    ||| ext == seq!['j', 'p', 'g'] && mime == "image/jpeg"@
    ||| ext == seq!['j', 'p', 'e', 'g'] && mime == "image/jpeg"@
    ||| ext == seq!['g', 'i', 'f'] && mime == "image/gif"@
    ||| ext == seq!['s', 'v', 'g'] && mime == "image/svg+xml"@
    ||| ext == seq!['i', 'c', 'o'] && mime == "image/x-icon"@
    ||| ext == seq!['x', 'm', 'l'] && mime == "application/xml"@
    ||| ext == seq!['t', 'x', 't'] && mime == "text/plain"@
}

proof fn lemma_last_dot_suffix(stem: Seq<char>, ext: Seq<char>)
    requires
        forall|i: int| 0 <= i < ext.len() ==> ext[i] != '.',
    ensures
        last_dot(stem + seq!['.'] + ext) == Some(stem.len() as int),
    decreases ext.len(),
{
    let s = stem + seq!['.'] + ext;
    if ext.len() == 0 {
        assert(s.last() == '.');
    } else {
        assert(s.drop_last() =~= stem + seq!['.'] + ext.drop_last());
        assert(s.last() == ext.last());
        lemma_last_dot_suffix(stem, ext.drop_last());
    }
}

/// A `GET` of a file (other than the home page and the reload socket) whose
/// target has one of the known extensions is answered with that extension's
/// content type.
pub proof fn law_content_types(req: Seq<char>, stem: Seq<char>, ext: Seq<char>, mime: Seq<char>)
    requires
        known_content_type(ext, mime),
        starts_with(req, "GET /"@),
        !starts_with(req, "GET / "@),
        !starts_with(req, "GET /index.html"@),
        !starts_with(req, "GET /ws"@),
        request_target(req) == stem + seq!['.'] + ext,
    ensures
        route_model(req) matches RouteModel::File(_, Some(m)) && m == mime,
{
    reveal_strlit("html");
    reveal_strlit("htm");
    reveal_strlit("css");
    reveal_strlit("js");
    reveal_strlit("json");
    reveal_strlit("png");
    reveal_strlit("jpg");
    reveal_strlit("jpeg");
    reveal_strlit("gif");
    reveal_strlit("svg");
    reveal_strlit("ico");
    reveal_strlit("xml");
    reveal_strlit("txt");
    lemma_last_dot_suffix(stem, ext);
    let target = stem + seq!['.'] + ext;
    assert(target.skip(stem.len() + 1int) =~= ext);
    assert(after_last_dot(target) == ext);
    assert(ext.len() >= 2);
    if ext.len() == 2 {
        assert(ext =~= seq!['j', 's']);
        assert(ext == "js"@);
    } else if ext.len() == 4 {
        if ext[0] == 'h' {
            assert(ext =~= "html"@);
        } else if ext[1] == 's' {
            assert(ext =~= "json"@);
            assert(ext != "html"@);
        } else {
            assert(ext =~= "jpeg"@);
            assert(ext != "html"@);
            assert(ext != "json"@);
        }
    } else {
        assert(ext.len() == 3);
        assert(ext != "html"@ && ext != "json"@ && ext != "jpeg"@ && ext != "js"@);
        if ext[0] == 'h' {
            assert(ext =~= "htm"@);
        } else if ext[0] == 'c' {
            assert(ext =~= "css"@);
            assert(ext != "htm"@);
        } else if ext[0] == 'p' {
            assert(ext =~= "png"@);
            assert(ext != "htm"@ && ext != "css"@);
        } else if ext[0] == 'j' {
            assert(ext =~= "jpg"@);
            assert(ext != "htm"@ && ext != "css"@ && ext != "png"@);
        } else if ext[0] == 'g' {
            assert(ext =~= "gif"@);
            assert(ext != "htm"@ && ext != "css"@ && ext != "png"@ && ext != "jpg"@);
        } else if ext[0] == 's' {
            assert(ext =~= "svg"@);
            assert(ext != "htm"@ && ext != "css"@ && ext != "png"@ && ext != "jpg"@ && ext != "gif"@);
        } else if ext[0] == 'i' {
            assert(ext =~= "ico"@);
            assert(ext != "htm"@ && ext != "css"@ && ext != "png"@ && ext != "jpg"@ && ext != "gif"@
                && ext != "svg"@);
        } else if ext[0] == 'x' {
            assert(ext =~= "xml"@);
            assert(ext != "htm"@ && ext != "css"@ && ext != "png"@ && ext != "jpg"@ && ext != "gif"@
                && ext != "svg"@ && ext != "ico"@);
        } else {
            assert(ext =~= "txt"@);
            assert(ext != "htm"@ && ext != "css"@ && ext != "png"@ && ext != "jpg"@ && ext != "gif"@
                && ext != "svg"@ && ext != "ico"@ && ext != "xml"@);
        }
    }
    assert(mime_for(ext) == mime);
}

// ---------------------------------------------------------------------------
// Rebuild decisions

/// A page is rebuilt exactly when its output is missing or is not newer than
/// its source or the templates.
pub proof fn law_page_rebuild(exists: bool, source: i128, output: i128, templates: i128)
    ensures
        !exists ==> page_is_stale(exists, source, output, templates),
        exists && output <= source ==> page_is_stale(exists, source, output, templates),
        exists && output <= templates ==> page_is_stale(exists, source, output, templates),
        exists && output > source && output > templates ==> !page_is_stale(exists, source, output, templates),
{
}

/// A collection index is rebuilt exactly when it is missing or is not newer
/// than its pages' sources, the templates, or the latest collection index.
pub proof fn law_collection_rebuild(exists: bool, pages: i128, index: i128, templates: i128, collections: i128)
    ensures
        !exists ==> collection_is_stale(exists, pages, index, templates, collections),
        exists && index <= pages ==> collection_is_stale(exists, pages, index, templates, collections),
        exists && index <= templates ==> collection_is_stale(exists, pages, index, templates, collections),
        exists && index <= collections ==> collection_is_stale(exists, pages, index, templates, collections),
        exists && index > pages && index > templates && index > collections ==> !collection_is_stale(
            exists,
            pages,
            index,
            templates,
            collections,
        ),
{
}

/// The feed, and a tag's page, are written exactly when missing or older than
/// the newest source they list.
pub proof fn law_feed_and_tag_rebuild(exists: bool, sources: i128, output: i128)
    ensures
        !exists ==> feed_is_stale(exists, sources, output) && tag_is_stale(exists, sources, output),
        exists ==> (feed_is_stale(exists, sources, output) <==> sources > output),
        exists ==> (tag_is_stale(exists, sources, output) <==> sources > output),
{
}

// ---------------------------------------------------------------------------
// Feed and sitemap contents

/// The posts of the pages, in order.
pub open spec fn feed_posts(pages: Seq<Page>) -> Seq<Page> {
    pages.filter(|p: Page| is_post(p))
}

/// How many posts the feed lists: all of them, up to twenty.
pub open spec fn feed_size(pages: Seq<Page>) -> nat {
    if feed_posts(pages).len() <= 20 {
        feed_posts(pages).len()
    } else {
        20
    }
}

proof fn lemma_posts_filter(pages: Seq<Page>)
    ensures
        posts_of(pages) == feed_posts(pages),
    decreases pages.len(),
{
    if pages.len() > 0 {
        lemma_posts_filter(pages.drop_last());
        reveal_with_fuel(Seq::<Page>::filter, 1);
        let f = |p: Page| is_post(p);
        assert(feed_posts(pages) == pages.filter(f));
        assert(feed_posts(pages.drop_last()) == pages.drop_last().filter(f));
        assert(f(pages.last()) == is_post(pages.last()));
        assert(pages.filter(f) == if f(pages.last()) {
            pages.drop_last().filter(f).push(pages.last())
        } else {
            pages.drop_last().filter(f)
        });
    } else {
        reveal_with_fuel(Seq::<Page>::filter, 1);
        assert(posts_of(pages) =~= feed_posts(pages));
    }
}

proof fn lemma_rss_items_flatten(base: Seq<char>, s: Seq<Page>)
    ensures
        rss_items(base, s) == s.map_values(|p: Page| rss_item(base, p)).flatten_alt(),
    decreases s.len(),
{
    if s.len() > 0 {
        lemma_rss_items_flatten(base, s.drop_last());
        assert(s.map_values(|p: Page| rss_item(base, p)).drop_last() =~= s.drop_last().map_values(
            |p: Page| rss_item(base, p),
        ));
    }
}

/// The feed is its channel, then one item for each of the first posts of the
/// pages, in order, as many as there are posts up to twenty, then the end of
/// the channel.
pub proof fn law_feed_lists_first_twenty_posts(pages: Seq<Page>, config: SiteConfig)
    ensures
        rss_document(pages, config) == rss_head(config) + feed_posts(pages).take(feed_size(pages) as int).map_values(
            |p: Page| rss_item(config.base_url@, p),
        ).flatten() + "</channel>\n</rss>"@,
{
    lemma_posts_filter(pages);
    let ps = posts_of(pages);
    let listed = ps.take(feed_size(pages) as int);
    if ps.len() <= 20 {
        assert(listed =~= ps);
    }
    assert(first_twenty(ps) == listed);
    lemma_rss_items_flatten(config.base_url@, listed);
    listed.map_values(|p: Page| rss_item(config.base_url@, p)).lemma_flatten_and_flatten_alt_are_equivalent();
}

proof fn lemma_sitemap_entries_flatten(base: Seq<char>, s: Seq<Page>)
    ensures
        sitemap_entries(base, s) == s.map_values(|p: Page| sitemap_entry(base, p)).flatten_alt(),
    decreases s.len(),
{
    if s.len() > 0 {
        lemma_sitemap_entries_flatten(base, s.drop_last());
        assert(s.map_values(|p: Page| sitemap_entry(base, p)).drop_last() =~= s.drop_last().map_values(
            |p: Page| sitemap_entry(base, p),
        ));
    }
}

proof fn lemma_sitemap_entries_split(base: Seq<char>, a: Seq<Page>, b: Seq<Page>)
    ensures
        sitemap_entries(base, a + b) == sitemap_entries(base, a) + sitemap_entries(base, b),
    decreases b.len(),
{
    if b.len() == 0 {
        assert(a + b =~= a);
        assert(sitemap_entries(base, a) + sitemap_entries(base, b) =~= sitemap_entries(base, a));
    } else {
        assert((a + b).drop_last() =~= a + b.drop_last());
        assert((a + b).last() == b.last());
        lemma_sitemap_entries_split(base, a, b.drop_last());
        assert(sitemap_entries(base, a) + (sitemap_entries(base, b.drop_last()) + sitemap_entry(base, b.last()))
            =~= (sitemap_entries(base, a) + sitemap_entries(base, b.drop_last())) + sitemap_entry(base, b.last()));
    }
}

/// The sitemap is its head (with the home page), then one entry for every
/// page, in order, then its end.
pub proof fn law_sitemap_lists_every_page(pages: Seq<Page>, config: SiteConfig)
    ensures
        sitemap_document(pages, config) == sitemap_head(config.base_url@) + pages.map_values(
            |p: Page| sitemap_entry(config.base_url@, p),
        ).flatten() + "</urlset>"@,
        pages.map_values(|p: Page| sitemap_entry(config.base_url@, p)).len() == pages.len(),
{
    lemma_sitemap_entries_flatten(config.base_url@, pages);
    pages.map_values(|p: Page| sitemap_entry(config.base_url@, p)).lemma_flatten_and_flatten_alt_are_equivalent();
}

proof fn lemma_entry_has_address(base: Seq<char>, p: Page)
    ensures
        sitemap_entry(base, p).len() >= 12 + ("<loc>"@ + page_loc(base, p) + "</loc>"@).len(),
        sitemap_entry(base, p).subrange(12, 12 + ("<loc>"@ + page_loc(base, p) + "</loc>"@).len() as int)
            == "<loc>"@ + page_loc(base, p) + "</loc>"@,
{
    reveal_strlit("  <url>\n    <loc>");
    reveal_strlit("<loc>");
    reveal_strlit("</loc>\n    <changefreq>monthly</changefreq>\n  </url>\n");
    reveal_strlit("</loc>");
    let piece = "<loc>"@ + page_loc(base, p) + "</loc>"@;
    assert(sitemap_entry(base, p).subrange(12, 12 + piece.len() as int) =~= piece);
}

/// Every page's address stands in the sitemap between `<loc>` and `</loc>`.
pub proof fn law_sitemap_has_every_address(pages: Seq<Page>, config: SiteConfig, i: int)
    requires
        0 <= i < pages.len(),
    ensures
        exists|k: int| occurs_at(
            sitemap_document(pages, config),
            "<loc>"@ + page_loc(config.base_url@, pages[i]) + "</loc>"@,
            k,
        ),
{
    let base = config.base_url@;
    let doc = sitemap_document(pages, config);
    let before = pages.take(i);
    let after = pages.skip(i + 1);
    assert(pages =~= before + seq![pages[i]] + after);
    lemma_sitemap_entries_split(base, before + seq![pages[i]], after);
    lemma_sitemap_entries_split(base, before, seq![pages[i]]);
    assert(seq![pages[i]].drop_last() =~= Seq::<Page>::empty());
    assert(seq![pages[i]].last() == pages[i]);
    assert(sitemap_entries(base, Seq::<Page>::empty()) == Seq::<char>::empty());
    assert(sitemap_entries(base, seq![pages[i]]) =~= sitemap_entry(base, pages[i]));
    let entry = sitemap_entry(base, pages[i]);
    let prefix = sitemap_head(base) + sitemap_entries(base, before);
    let suffix = sitemap_entries(base, after) + "</urlset>"@;
    assert(doc =~= prefix + entry + suffix);
    lemma_entry_has_address(base, pages[i]);
    let piece = "<loc>"@ + page_loc(base, pages[i]) + "</loc>"@;
    let k: int = prefix.len() as int + 12;
    assert(doc.subrange(prefix.len() as int, prefix.len() as int + entry.len() as int) =~= entry);
    assert(doc.subrange(k, k + piece.len()) =~= entry.subrange(12, 12 + piece.len() as int));
    assert(occurs_at(doc, piece, k));
}

} // verus!
