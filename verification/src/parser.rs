//! Reading a content file: front matter and body, links between pages,
//! and where a page comes from and goes to.
use vstd::prelude::*;
use crate::text::{chars_of, ends_with, ends_with_exec, find_exec, find_from, lemma_find_from, lines_exec, slice_chars, split_exec, split_on, string_of, strip_prefixes, strip_prefixes_exec, strip_suffixes, strip_suffixes_exec, text_lines, trim, trim_exec};


use crate::paths::{build_output_path, detect_collection, file_stem, collection_of, output_path_for, path_file_stem};
use crate::types::{Frontmatter, Page, opt_view};

verus! {

broadcast use vstd::string::group_string_axioms;

// ---------------------------------------------------------------------------
// Patterns

/// The front matter fence `---`.
pub open spec fn fence() -> Seq<char> {
    seq!['-', '-', '-']
}

/// `.md`
pub open spec fn md_suffix() -> Seq<char> {
    seq!['.', 'm', 'd']
}

/// `./`
pub open spec fn dot_slash() -> Seq<char> {
    seq!['.', '/']
}

// ---------------------------------------------------------------------------
// Front matter

/// The front matter text of a file, if it has a fence: what stands between
/// its first and second `---` (or the end of the file).
pub open spec fn frontmatter_text(content: Seq<char>) -> Option<Seq<char>> {
    let parts = split_on(content, fence());
    if parts.len() >= 2 {
        Some(parts[1])
    } else {
        None
    }
}

/// The body of a file: with a fence, what stands between its second and third
/// `---` (empty if there is no second one), trimmed; without, the whole file,
/// trimmed.
pub open spec fn body_text(content: Seq<char>) -> Seq<char> {
    let parts = split_on(content, fence());
    if parts.len() >= 2 {
        if parts.len() >= 3 {
            trim(parts[2])
        } else {
            Seq::empty()
        }
    } else {
        trim(content)
    }
}

/// Splits a content file into its front matter text and its body.
pub fn split_frontmatter(content: &str) -> (r: (Option<String>, String))
    ensures
        match r.0 {
            Some(f) => frontmatter_text(content@) == Some(f@),
            None => frontmatter_text(content@) is None,
        },
        r.1@ == body_text(content@),
{
    let chars = chars_of(content);
    let pat: Vec<char> = vec!['-', '-', '-'];
    assert(pat@ =~= fence());
    let parts = split_exec(&chars, &pat);
    let ghost pv = parts@.map_values(|v: Vec<char>| v@);
    assert(pv.len() == parts@.len());
    if parts.len() >= 2 {
        assert(parts@[1]@ == pv[1]);
        let fm = string_of(&parts[1]);
        let body = if parts.len() >= 3 {
            assert(parts@[2]@ == pv[2]);
            let t = trim_exec(&parts[2]);
            string_of(&t)
        } else {
            String::new()
        };
        (Some(fm), body)
    } else {
        let t = trim_exec(&chars);
        (None, string_of(&t))
    }
}

// ---------------------------------------------------------------------------
// Links

/// The page that a line links to, if any: the line's first `[`, the first
/// `](` from there, and the first `)` after that enclose a target; a target
/// that ends in `.md` gives the page, without leading `./` and trailing `.md`.
pub open spec fn line_link(line: Seq<char>) -> Option<Seq<char>> {
    match find_from(line, seq!['['], 0) {
        None => None,
        Some(start) => match find_from(line, seq![']', '('], start) {
            None => None,
            Some(mid) => match find_from(line, seq![')'], mid + 2) {
                None => None,
                Some(end) => {
                    let target = line.subrange(mid + 2, end);
                    if ends_with(target, md_suffix()) {
                        Some(strip_suffixes(strip_prefixes(target, dot_slash()), md_suffix()))
                    } else {
                        None
                    }
                },
            },
        },
    }
}

/// The pages that some lines link to, in order, one at most per line.
pub open spec fn links_in_lines(lines: Seq<Seq<char>>) -> Seq<Seq<char>>
    decreases lines.len(),
{
    if lines.len() == 0 {
        Seq::empty()
    } else {
        let rest = links_in_lines(lines.drop_last());
        match line_link(lines.last()) {
            Some(l) => rest.push(l),
            None => rest,
        }
    }
}

/// The pages that a text links to.
pub open spec fn extracted_links(content: Seq<char>) -> Seq<Seq<char>> {
    links_in_lines(text_lines(content))
}

fn line_link_exec(line: &Vec<char>) -> (r: Option<Vec<char>>)
    ensures
        match r {
            Some(l) => line_link(line@) == Some(l@),
            None => line_link(line@) is None,
        },
{
    let open: Vec<char> = vec!['['];
    let mid_pat: Vec<char> = vec![']', '('];
    let close: Vec<char> = vec![')'];
    let md: Vec<char> = vec!['.', 'm', 'd'];
    let ds: Vec<char> = vec!['.', '/'];
    assert(open@ =~= seq!['[']);
    assert(mid_pat@ =~= seq![']', '(']);
    assert(close@ =~= seq![')']);
    assert(md@ =~= md_suffix());
    assert(ds@ =~= dot_slash());
    match find_exec(line, &open, 0) {
        None => None,
        Some(start) => {
            proof { lemma_find_from(line@, open@, 0); }
            match find_exec(line, &mid_pat, start) {
                None => None,
                Some(mid) => {
                    proof { lemma_find_from(line@, mid_pat@, start as int); }
                    assert(line@.len() == line.len());
                    match find_exec(line, &close, mid + 2) {
                        None => None,
                        Some(end) => {
                            proof { lemma_find_from(line@, close@, mid + 2); }
                            let target = slice_chars(line, mid + 2, end);
                            if ends_with_exec(&target, &md) {
                                let a = strip_prefixes_exec(&target, &ds);
                                let b = strip_suffixes_exec(&a, &md);
                                Some(b)
                            } else {
                                None
                            }
                        },
                    }
                },
            }
        },
    }
}

/// The pages that a markdown text links to: for each line, the `.md` target
/// of its first link, without `./` and `.md`.
pub fn extract_links(content: &str) -> (r: Vec<String>)
    ensures
        r@.map_values(|s: String| s@) == extracted_links(content@),
{
    let chars = chars_of(content);
    let lines = lines_exec(&chars);
    let ghost lv = lines@.map_values(|v: Vec<char>| v@);
    let mut links: Vec<String> = Vec::new();
    let mut i: usize = 0;
    while i < lines.len()
        invariant
            i <= lines@.len(),
            lv == lines@.map_values(|v: Vec<char>| v@),
            lv == text_lines(chars@),
            links@.map_values(|s: String| s@) == links_in_lines(lv.take(i as int)),
        decreases lines@.len() - i,
    {
        assert(lv.take(i + 1).drop_last() =~= lv.take(i as int));
        assert(lv.take(i + 1).last() == lines@[i as int]@);
        let ghost old_links = links@;
        match line_link_exec(&lines[i]) {
            Some(l) => {
                let s = string_of(&l);
                links.push(s);
                assert(links@.map_values(|s: String| s@) =~= old_links.map_values(
                    |s: String| s@,
                ).push(l@));
            },
            None => {},
        }
        i = i + 1;
    }
    assert(lv.take(lines@.len() as int) =~= lv);
    links
}

// ---------------------------------------------------------------------------
// Pages

/// The HTML that rushdown's `markdown_to_html_string` writes for a markdown
/// text, or `None` when it reports an error.
pub uninterp spec fn markdown_html(source: Seq<char>) -> Option<Seq<char>>;

#[verifier::external_type_specification]
#[verifier::external_body]
pub struct ExMarkdownError(rushdown::Error);

/// `rushdown::markdown_to_html_string` into a fresh string. The contract
/// names the HTML it writes; rushdown parses with its default options and
/// renders into a `String`, so the outcome depends on the text alone.
#[verifier::external_body]
fn markdown_to_html(source: &str) -> (r: Result<String, rushdown::Error>)
    ensures
        match r {
            Ok(h) => markdown_html(source@) == Some(h@),
            Err(_) => markdown_html(source@) is None,
        },
{
    let mut out = String::new();
    match rushdown::markdown_to_html_string(&mut out, source) {
        Ok(()) => Ok(out),
        Err(e) => Err(e),
    }
}

/// Why a page could not be made.
#[derive(Debug)]
pub enum PageError {
    /// The markdown renderer reported an error.
    Markdown(rushdown::Error),
}

/// The slug of a page: the one its front matter gives, else the stem of its
/// file name, else `index`.
pub open spec fn slug_for(fm_slug: Option<String>, path: Seq<char>) -> Seq<char> {
    match fm_slug {
        Some(s) => s@,
        None => match path_file_stem(path) {
            Some(stem) => stem,
            None => "index"@,
        },
    }
}

/// The page made from the content file at `path`, given its front matter and
/// its body.
pub open spec fn is_page_from(p: Page, path: Seq<char>, frontmatter: Frontmatter, body: Seq<char>) -> bool {
    &&& p.slug@ == slug_for(frontmatter.slug, path)
    &&& p.frontmatter == frontmatter
    &&& markdown_html(body) == Some(p.content_html@)
    &&& p.content_markdown@ == body
    &&& p.source_path@ == path
    &&& opt_view(p.collection) == collection_of(path)
    &&& p.output_path@ == output_path_for(p.slug@, collection_of(path))
    &&& p.links@.map_values(|s: String| s@) == extracted_links(body)
}

/// Makes the page of the content file at `path` from its front matter and
/// body: its slug, its HTML, its links, its collection and its output path.
/// Fails only when the markdown renderer does.
pub fn page_from_source(path: &str, frontmatter: Frontmatter, body: &str) -> (r: Result<Page, PageError>)
    ensures
        match r {
            Ok(p) => is_page_from(p, path@, frontmatter, body@),
            Err(_) => markdown_html(body@) is None,
        },
{
    let slug = match &frontmatter.slug {
        Some(s) => s.clone(),
        None => match file_stem(path) {
            Some(stem) => stem,
            None => "index".to_string(),
        },
    };
    let content_html = match markdown_to_html(body) {
        Ok(h) => h,
        Err(e) => {
            return Err(PageError::Markdown(e));
        },
    };
    let links = extract_links(body);
    let collection = detect_collection(path);
    let output_path = build_output_path(slug.as_str(), &collection);
    Ok(Page {
        slug,
        frontmatter,
        content_html,
        content_markdown: body.to_string(),
        source_path: path.to_string(),
        output_path,
        links,
        collection,
    })
}

} // verus!
