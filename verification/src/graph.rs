//! Which pages link to which.
use vstd::prelude::*;
use crate::groups::{Groups, grouped, key_count, lemma_grouped_step, lemma_key_count_step};
use crate::types::Page;

verus! {

/// Each page as an item filed under the pages it links to, with its slug as
/// the value.
pub open spec fn link_items(pages: Seq<Page>) -> Seq<(Seq<String>, String)> {
    Seq::new(pages.len(), |i: int| (pages[i].links@, pages[i].slug))
}

/// The slugs of the pages that link to `target`, in page order, once per link.
pub open spec fn linkers(pages: Seq<Page>, target: Seq<char>) -> Seq<String> {
    grouped(link_items(pages), target)
}

/// The reverse link graph: for every link target, the slugs of the pages
/// that link to it.
pub fn build_dependency_graph(pages: &[Page]) -> (r: Groups<String>)
    ensures
        r.wf(),
        forall|k: Seq<char>| #[trigger] r.has_key(k) <==> linkers(pages@, k).len() > 0,
        forall|k: Seq<char>| #[trigger] r.lookup(k) == linkers(pages@, k),
{
    let ghost items = link_items(pages@);
    let mut graph: Groups<String> = Groups::new();
    let mut i: usize = 0;
    assert forall|k: Seq<char>| #[trigger] graph.lookup(k) == grouped(items.take(0), k) by {
        assert(items.take(0).len() == 0);
    }
    while i < pages.len()
        invariant
            i <= pages@.len(),
            items == link_items(pages@),
            graph.wf(),
            forall|k: Seq<char>| #[trigger] graph.lookup(k) == grouped(items.take(i as int), k),
        decreases pages@.len() - i,
    {
        let page = &pages[i];
        let links = &page.links;
        let mut j: usize = 0;
        assert forall|k: Seq<char>| #[trigger] graph.lookup(k) == grouped(items.take(i as int), k)
            + Seq::new(key_count(links@.take(0), k), |_m: int| page.slug) by {
            assert(links@.take(0).len() == 0);
            assert(Seq::new(key_count(links@.take(0), k), |_m: int| page.slug) =~= Seq::<String>::empty());
            assert(grouped(items.take(i as int), k) + Seq::<String>::empty() =~= grouped(items.take(i as int), k));
        }
        while j < links.len()
            invariant
                i < pages@.len(),
                *page == pages@[i as int],
                *links == page.links,
                j <= links@.len(),
                items == link_items(pages@),
                graph.wf(),
                forall|k: Seq<char>| #[trigger] graph.lookup(k) == grouped(items.take(i as int), k)
                    + Seq::new(key_count(links@.take(j as int), k), |_m: int| page.slug),
            decreases links@.len() - j,
        {
            let ghost before = graph;
            graph.add(&links[j], page.slug.clone());
            proof {
                assert forall|k: Seq<char>| #[trigger] graph.lookup(k) == grouped(items.take(i as int), k)
                    + Seq::new(key_count(links@.take(j + 1), k), |_m: int| page.slug) by {
                    lemma_key_count_step(links@, j as int, k);
                    let c = key_count(links@.take(j as int), k);
                    if k == links@[j as int]@ {
                        assert(Seq::new(c + 1, |_m: int| page.slug) =~= Seq::new(c, |_m: int| page.slug).push(page.slug));
                        assert(graph.lookup(k) == before.lookup(k).push(page.slug));
                    }
                }
            }
            j = j + 1;
        }
        proof {
            assert(links@.take(links@.len() as int) =~= links@);
            assert(items[i as int] == (links@, page.slug));
            assert forall|k: Seq<char>| #[trigger] graph.lookup(k) == grouped(items.take(i + 1), k) by {
                lemma_grouped_step(items, i as int, k);
            }
        }
        i = i + 1;
    }
    proof {
        assert(items.take(pages@.len() as int) =~= items);
        assert forall|k: Seq<char>| #[trigger] graph.has_key(k) <==> linkers(pages@, k).len() > 0 by {
            graph.lemma_lookup(k);
        }
    }
    graph
}

} // verus!
