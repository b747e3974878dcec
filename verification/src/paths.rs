//! Paths of content and output files, written as text with `/` between
//! components.
use vstd::prelude::*;
use crate::text::{chars_of, push_chars, push_str, slice_chars, string_of};

verus! {

broadcast use vstd::string::group_string_axioms;

/// The last component of a path, as `Path::file_name` gives it; `None` when
/// the path ends in `..` or has no components.
pub uninterp spec fn path_file_name(path: Seq<char>) -> Option<Seq<char>>;

/// The path without its last component, as `Path::parent` gives it; `None`
/// for a root or the empty path.
pub uninterp spec fn path_parent(path: Seq<char>) -> Option<Seq<char>>;

/// `Path::file_name` on a textual path. The contract names the result; the
/// name is a piece of the UTF-8 argument, so turning it back into text keeps
/// all of it.
#[verifier::external_body]
fn file_name_of(path: &str) -> (r: Option<String>)
    ensures
        match r {
            Some(n) => path_file_name(path@) == Some(n@),
            None => path_file_name(path@) is None,
        },
{
    match std::path::Path::new(path).file_name() {
        Some(n) => Some(n.to_string_lossy().into_owned()),
        None => None,
    }
}

/// `Path::parent` on a textual path. The contract names the result; the
/// parent is a prefix of the UTF-8 argument, so turning it back into text
/// keeps all of it.
#[verifier::external_body]
fn parent_of(path: &str) -> (r: Option<String>)
    ensures
        match r {
            Some(p) => path_parent(path@) == Some(p@),
            None => path_parent(path@) is None,
        },
{
    match std::path::Path::new(path).parent() {
        Some(p) => Some(p.to_string_lossy().into_owned()),
        None => None,
    }
}

/// The position of the last `.` in `s`.
pub open spec fn last_dot(s: Seq<char>) -> Option<int>
    decreases s.len(),
{
    if s.len() == 0 {
        None
    } else if s.last() == '.' {
        Some(s.len() - 1)
    } else {
        last_dot(s.drop_last())
    }
}

/// `last_dot` finds a `.` inside the text.
pub proof fn lemma_last_dot(s: Seq<char>)
    ensures
        match last_dot(s) {
            Some(k) => 0 <= k < s.len() && s[k] == '.',
            None => true,
        },
    decreases s.len(),
{
    if s.len() > 0 && s.last() != '.' {
        lemma_last_dot(s.drop_last());
    }
}

/// The stem of a file name: the part before its last `.`, unless that `.`
/// is the first character or there is none, when the stem is the whole name.
pub open spec fn stem_of_name(name: Seq<char>) -> Seq<char> {
    match last_dot(name) {
        Some(k) => if k > 0 {
            name.take(k)
        } else {
            name
        },
        None => name,
    }
}

/// The extension of a file name: the part after its last `.`, if that `.`
/// is not the first character.
pub open spec fn extension_of_name(name: Seq<char>) -> Option<Seq<char>> {
    match last_dot(name) {
        Some(k) => if k > 0 {
            Some(name.skip(k + 1))
        } else {
            None
        },
        None => None,
    }
}

/// The stem of a path's file name, as `Path::file_stem` documents it.
pub open spec fn path_file_stem(path: Seq<char>) -> Option<Seq<char>> {
    match path_file_name(path) {
        Some(n) => Some(stem_of_name(n)),
        None => None,
    }
}

/// The name of the directory that holds a file: its collection.
pub open spec fn collection_of(path: Seq<char>) -> Option<Seq<char>> {
    match path_parent(path) {
        Some(p) => path_file_name(p),
        None => None,
    }
}

/// A path extended by another, as `PathBuf::push` does on Unix: an absolute
/// `part` replaces `base`; otherwise a `/` goes between them unless `base` is
/// empty or already ends in one.
pub open spec fn join_path(base: Seq<char>, part: Seq<char>) -> Seq<char> {
    if part.len() > 0 && part[0] == '/' {
        part
    } else if base.len() > 0 && base.last() != '/' {
        base + seq!['/'] + part
    } else {
        base + part
    }
}

/// Where a page is written: `public/<collection>/<slug>/index.html`, or
/// `public/<slug>/index.html` for a page outside any collection.
pub open spec fn output_path_for(slug: Seq<char>, collection: Option<Seq<char>>) -> Seq<char> {
    let rel = match collection {
        Some(c) => c + seq!['/'] + slug,
        None => slug,
    };
    join_path(join_path("public"@, rel), "index.html"@)
}

/// A file is a markdown file when the extension of its name is `md`.
pub open spec fn is_markdown_path(path: Seq<char>) -> bool {
    match path_file_name(path) {
        Some(n) => extension_of_name(n) == Some(seq!['m', 'd']),
        None => false,
    }
}

/// The position of the last `.` in `s`.
pub fn last_dot_exec(s: &Vec<char>) -> (r: Option<usize>)
    ensures
        match r {
            Some(k) => last_dot(s@) == Some(k as int),
            None => last_dot(s@) is None,
        },
{
    let mut k: usize = s.len();
    assert(s@.take(k as int) =~= s@);
    while k > 0
        invariant
            k <= s@.len(),
            last_dot(s@) == last_dot(s@.take(k as int)),
        decreases k,
    {
        if s[k - 1] == '.' {
            return Some(k - 1);
        }
        assert(s@.take(k as int).drop_last() =~= s@.take(k - 1));
        k = k - 1;
    }
    None
}

/// The stem of a file name.
fn stem_of_name_exec(name: &Vec<char>) -> (r: Vec<char>)
    ensures
        r@ == stem_of_name(name@),
{
    proof { lemma_last_dot(name@); }
    match last_dot_exec(name) {
        Some(k) => {
            if k > 0 {
                let mut out: Vec<char> = Vec::new();
                let mut i: usize = 0;
                while i < k
                    invariant
                        k < name@.len(),
                        i <= k,
                        out@ == name@.take(i as int),
                    decreases k - i,
                {
                    out.push(name[i]);
                    assert(name@.take(i + 1) =~= name@.take(i as int).push(name@[i as int]));
                    i = i + 1;
                }
                out
            } else {
                name.clone()
            }
        },
        None => name.clone(),
    }
}

/// The stem of a path's file name, as `Path::file_stem` gives it.
pub fn file_stem(path: &str) -> (r: Option<String>)
    ensures
        match r {
            Some(s) => path_file_stem(path@) == Some(s@),
            None => path_file_stem(path@) is None,
        },
{
    match file_name_of(path) {
        Some(n) => {
            let chars = chars_of(n.as_str());
            let stem = stem_of_name_exec(&chars);
            Some(string_of(&stem))
        },
        None => None,
    }
}

/// Whether a path names a markdown file.
pub fn is_markdown_file(path: &str) -> (r: bool)
    ensures
        r == is_markdown_path(path@),
{
    match file_name_of(path) {
        Some(n) => {
            let chars = chars_of(n.as_str());
            proof { lemma_last_dot(chars@); }
            match last_dot_exec(&chars) {
                Some(k) => {
                    if k == 0 {
                        return false;
                    }
                    assert(chars@.len() == chars.len());
                    let ext = slice_chars(&chars, k + 1, chars.len());
                    assert(ext@ =~= chars@.skip(k + 1));
                    if ext.len() != 2 {
                        assert(ext@.len() != seq!['m', 'd'].len());
                        return false;
                    }
                    if ext[0] != 'm' {
                        assert(ext@[0] != seq!['m', 'd'][0]);
                        return false;
                    }
                    if ext[1] != 'd' {
                        assert(ext@[1] != seq!['m', 'd'][1]);
                        return false;
                    }
                    assert(ext@ =~= seq!['m', 'd']);
                    true
                },
                None => false,
            }
        },
        None => false,
    }
}

/// The collection of a content file: the name of the directory that holds it.
pub fn detect_collection(path: &str) -> (r: Option<String>)
    ensures
        match r {
            Some(c) => collection_of(path@) == Some(c@),
            None => collection_of(path@) is None,
        },
{
    match parent_of(path) {
        Some(p) => file_name_of(p.as_str()),
        None => None,
    }
}

/// A path extended by another, as `PathBuf::join` does on Unix.
pub fn join_path_exec(base: &str, part: &str) -> (r: String)
    ensures
        r@ == join_path(base@, part@),
{
    let b = chars_of(base);
    let p = chars_of(part);
    if p.len() > 0 && p[0] == '/' {
        string_of(&p)
    } else if b.len() > 0 && b[b.len() - 1] != '/' {
        let mut out = string_of(&b);
        push_chars(&mut out, &vec!['/']);
        push_chars(&mut out, &p);
        out
    } else {
        let mut out = string_of(&b);
        push_chars(&mut out, &p);
        out
    }
}

/// Where a page with this slug and collection is written.
pub fn build_output_path(slug: &str, collection: &Option<String>) -> (r: String)
    ensures
        r@ == output_path_for(
            slug@,
            match collection {
                Some(c) => Some(c@),
                None => None,
            },
        ),
{
    let mut rel = String::new();
    match collection {
        Some(c) => {
            push_str(&mut rel, c.as_str());
            push_chars(&mut rel, &vec!['/']);
        },
        None => {},
    }
    push_str(&mut rel, slug);
    let dir = join_path_exec("public", rel.as_str());
    join_path_exec(dir.as_str(), "index.html")
}

} // verus!
