//! The development server: how a request is answered, and what the file
//! watcher does with each event.
use vstd::prelude::*;
use crate::paths::{last_dot, last_dot_exec, lemma_last_dot};
use crate::text::{
    chars_of, decimal, decimal_exec, ends_with, ends_with_exec, is_white_space, is_white_space_exec,
    lines_exec, occurs_at_exec, same_text, push_chars, push_str, slice_chars, starts_with, string_of, text_lines,
};

verus! {

broadcast use vstd::string::group_string_axioms;

// ---------------------------------------------------------------------------
// Words

/// The number of characters before the first white space of `s`.
pub open spec fn word_len(s: Seq<char>) -> nat
    decreases s.len(),
{
    if s.len() == 0 || is_white_space(s[0]) {
        0
    } else {
        1 + word_len(s.drop_first())
    }
}

/// A word is no longer than the text it starts, and not empty when the text
/// starts with a character other than white space.
pub proof fn lemma_word_len(s: Seq<char>)
    ensures
        word_len(s) <= s.len(),
        s.len() > 0 && !is_white_space(s[0]) ==> word_len(s) >= 1,
    decreases s.len(),
{
    if s.len() > 0 && !is_white_space(s[0]) {
        lemma_word_len(s.drop_first());
    }
}

/// The words of `s`: its runs of characters other than white space.
pub open spec fn words(s: Seq<char>) -> Seq<Seq<char>>
    decreases s.len(),
{
    if s.len() == 0 {
        Seq::empty()
    } else if is_white_space(s[0]) {
        words(s.drop_first())
    } else {
        let w = word_len(s);
        proof {
            lemma_word_len(s);
        }
        seq![s.take(w as int)] + words(s.skip(w as int))
    }
}

/// The words of `s`.
pub fn words_exec(s: &Vec<char>) -> (r: Vec<Vec<char>>)
    ensures
        r@.map_values(|v: Vec<char>| v@) == words(s@),
{
    let mut out: Vec<Vec<char>> = Vec::new();
    let mut pos: usize = 0;
    assert(s@.skip(0) =~= s@);
    while pos < s.len()
        invariant
            pos <= s@.len(),
            out@.map_values(|v: Vec<char>| v@) + words(s@.skip(pos as int)) == words(s@),
        decreases s@.len() - pos,
    {
        if is_white_space_exec(s[pos]) {
            assert(s@.skip(pos as int).drop_first() =~= s@.skip(pos + 1));
            pos = pos + 1;
        } else {
            let mut e = pos;
            assert(s@.skip(pos as int).len() > 0);
            while e < s.len() && !is_white_space_exec(s[e])
                invariant
                    pos <= e <= s@.len(),
                    word_len(s@.skip(pos as int)) == (e - pos) + word_len(s@.skip(e as int)),
                decreases s@.len() - e,
            {
                assert(s@.skip(e as int).drop_first() =~= s@.skip(e + 1));
                e = e + 1;
            }
            let ghost rest = s@.skip(pos as int);
            assert(word_len(s@.skip(e as int)) == 0);
            assert(rest.take(e - pos) =~= s@.subrange(pos as int, e as int));
            assert(rest.skip(e - pos) =~= s@.skip(e as int));
            let word = slice_chars(s, pos, e);
            let ghost before = out@;
            out.push(word);
            assert(out@.map_values(|v: Vec<char>| v@) =~= before.map_values(|v: Vec<char>| v@).push(
                s@.subrange(pos as int, e as int),
            ));
            assert(out@.map_values(|v: Vec<char>| v@) + words(s@.skip(e as int)) =~= before.map_values(
                |v: Vec<char>| v@,
            ) + words(rest));
            pos = e;
        }
    }
    assert(s@.skip(pos as int) =~= Seq::<char>::empty());
    assert(out@.map_values(|v: Vec<char>| v@) + Seq::<Seq<char>>::empty() =~= out@.map_values(
        |v: Vec<char>| v@,
    ));
    out
}

// ---------------------------------------------------------------------------
// Routing

/// What a request asks for.
pub enum RouteModel {
    /// A file, with the content type to send, or that of the file read.
    File(Seq<char>, Option<Seq<char>>),
    /// The live-reload socket.
    Upgrade,
    /// Nothing the server knows.
    Missing,
}

/// What a request asks for.
#[derive(Debug, Clone)]
pub enum Route {
    File { path: String, mime: Option<String> },
    Upgrade,
    Missing,
}

impl Route {
    pub open spec fn model(&self) -> RouteModel {
        match self {
            Route::File { path, mime } => RouteModel::File(
                path@,
                match mime {
                    Some(m) => Some(m@),
                    None => None,
                },
            ),
            Route::Upgrade => RouteModel::Upgrade,
            Route::Missing => RouteModel::Missing,
        }
    }
}

/// The target of a request: the second word of its first line, or `/`.
pub open spec fn request_target(req: Seq<char>) -> Seq<char> {
    let lines = text_lines(req);
    let first = if lines.len() > 0 {
        lines[0]
    } else {
        Seq::empty()
    };
    let ws = words(first);
    if ws.len() >= 2 {
        ws[1]
    } else {
        "/"@
    }
}

/// The part of a path after its last `.`, or the whole path.
pub open spec fn after_last_dot(path: Seq<char>) -> Seq<char> {
    match last_dot(path) {
        Some(k) => path.skip(k + 1),
        None => path,
    }
}

/// The content type of a file extension.
pub open spec fn mime_for(ext: Seq<char>) -> Seq<char> {
    if ext == "html"@ || ext == "htm"@ {
        "text/html"@
    } else if ext == "css"@ {
        "text/css"@
    } else if ext == "js"@ {
        "application/javascript"@
    } else if ext == "json"@ {
        "application/json"@
    } else if ext == "png"@ {
        "image/png"@
    } else if ext == "jpg"@ || ext == "jpeg"@ {
        "image/jpeg"@
    } else if ext == "gif"@ {
        "image/gif"@
    } else if ext == "svg"@ {
        "image/svg+xml"@
    } else if ext == "ico"@ {
        "image/x-icon"@
    } else if ext == "xml"@ {
        "application/xml"@
    } else if ext == "txt"@ {
        "text/plain"@
    } else {
        "text/html"@
    }
}

/// The file a target names under `public`: a directory (a target that ends
/// in `/` or has no `.`) stands for its `index.html`.
pub open spec fn file_for_target(target: Seq<char>) -> Seq<char> {
    let file = "public"@ + target;
    if ends_with(target, seq!['/']) || last_dot(target) is None {
        file + "/index.html"@
    } else {
        file
    }
}

/// What a request asks for: the home page for `GET / ` and
/// `GET /index.html`, the live-reload socket for `GET /ws`, a file under
/// `public` for any other `GET /`, and nothing otherwise.
pub open spec fn route_model(req: Seq<char>) -> RouteModel {
    if starts_with(req, "GET / "@) || starts_with(req, "GET /index.html"@) {
        RouteModel::File("public/index.html"@, None)
    } else if starts_with(req, "GET /ws"@) {
        RouteModel::Upgrade
    } else if starts_with(req, "GET /"@) {
        let target = request_target(req);
        RouteModel::File(file_for_target(target), Some(mime_for(after_last_dot(target))))
    } else {
        RouteModel::Missing
    }
}

fn starts_with_exec(s: &Vec<char>, p: &str) -> (r: bool)
    ensures
        r == starts_with(s@, p@),
{
    let pv = chars_of(p);
    let r = occurs_at_exec(s, &pv, 0);
    proof {
        if pv@.len() <= s@.len() {
            assert(s@.subrange(0, pv@.len() as int) =~= s@.take(pv@.len() as int));
        }
    }
    r
}

fn mime_for_exec(ext: &str) -> (r: String)
    ensures
        r@ == mime_for(ext@),
{
    if same_text(ext, "html") || same_text(ext, "htm") {
        "text/html".to_string()
    } else if same_text(ext, "css") {
        "text/css".to_string()
    } else if same_text(ext, "js") {
        "application/javascript".to_string()
    } else if same_text(ext, "json") {
        "application/json".to_string()
    } else if same_text(ext, "png") {
        "image/png".to_string()
    } else if same_text(ext, "jpg") || same_text(ext, "jpeg") {
        "image/jpeg".to_string()
    } else if same_text(ext, "gif") {
        "image/gif".to_string()
    } else if same_text(ext, "svg") {
        "image/svg+xml".to_string()
    } else if same_text(ext, "ico") {
        "image/x-icon".to_string()
    } else if same_text(ext, "xml") {
        "application/xml".to_string()
    } else if same_text(ext, "txt") {
        "text/plain".to_string()
    } else {
        "text/html".to_string()
    }
}

fn request_target_exec(req: &Vec<char>) -> (r: Vec<char>)
    ensures
        r@ == request_target(req@),
{
    let lines = lines_exec(req);
    let ghost lv = lines@.map_values(|v: Vec<char>| v@);
    let first: Vec<char> = if lines.len() > 0 {
        assert(lines@[0]@ == lv[0]);
        slice_chars(&lines[0], 0, lines[0].len())
    } else {
        Vec::new()
    };
    proof {
        if lines@.len() > 0 {
            assert(lines@[0]@.subrange(0, lines@[0]@.len() as int) =~= lines@[0]@);
        }
        assert(first@ =~= if lv.len() > 0 { lv[0] } else { Seq::<char>::empty() });
    }
    let ws = words_exec(&first);
    let ghost wv = ws@.map_values(|v: Vec<char>| v@);
    if ws.len() >= 2 {
        assert(ws@[1]@ == wv[1]);
        slice_chars(&ws[1], 0, ws[1].len())
    } else {
        chars_of("/")
    }
}

/// What a request asks for.
pub fn route_request(request: &str) -> (r: Route)
    ensures
        r.model() == route_model(request@),
{
    let req = chars_of(request);
    if starts_with_exec(&req, "GET / ") || starts_with_exec(&req, "GET /index.html") {
        Route::File { path: "public/index.html".to_string(), mime: None }
    } else if starts_with_exec(&req, "GET /ws") {
        Route::Upgrade
    } else if starts_with_exec(&req, "GET /") {
        let target = request_target_exec(&req);
        let mut file = "public".to_string();
        push_chars(&mut file, &target);
        let dot = last_dot_exec(&target);
        let slash: Vec<char> = vec!['/'];
        assert(slash@ =~= seq!['/']);
        if ends_with_exec(&target, &slash) || dot.is_none() {
            push_str(&mut file, "/index.html");
        }
        let ext = match dot {
            Some(k) => {
                proof { lemma_last_dot(target@); }
                assert(target@.len() == target.len());
                slice_chars(&target, k + 1, target.len())
            },
            None => slice_chars(&target, 0, target.len()),
        };
        proof {
            assert(target@.subrange(0, target@.len() as int) =~= target@);
            match dot {
                Some(k) => {
                    assert(target@.subrange(k + 1, target@.len() as int) =~= target@.skip(k + 1));
                },
                None => {},
            }
        }
        let ext_text = string_of(&ext);
        let mime = mime_for_exec(ext_text.as_str());
        Route::File { path: file, mime: Some(mime) }
    } else {
        Route::Missing
    }
}

// ---------------------------------------------------------------------------
// Replies

/// A reply: its status (code and reason, such as `200 OK`), its body and its
/// content type.
#[derive(Debug, Clone)]
pub struct Reply {
    pub status: String,
    pub content: String,
    pub content_type: String,
}

/// The reply to a route, given the text of the file it names when that file
/// could be read.
pub open spec fn reply_model(route: RouteModel, read: Option<Seq<char>>) -> (Seq<char>, Seq<char>, Seq<char>) {
    match route {
        RouteModel::File(_, mime) => match read {
            Some(c) => (
                "200 OK"@,
                c,
                match mime {
                    Some(m) => m,
                    None => "text/html"@,
                },
            ),
            None => (
                "404 Not Found"@,
                "Not Found"@,
                match mime {
                    Some(m) => m,
                    None => "text/plain"@,
                },
            ),
        },
        RouteModel::Upgrade => ("101 Switching Protocols"@, Seq::empty(), "text/plain"@),
        RouteModel::Missing => ("404 Not Found"@, "Not Found"@, "text/plain"@),
    }
}

/// The reply to a route, given the text of its file if it could be read
/// (`read` is not looked at for routes without a file).
pub fn reply_for(route: &Route, read: Option<String>) -> (r: Reply)
    ensures
        (r.status@, r.content@, r.content_type@) == reply_model(
            route.model(),
            match read {
                Some(c) => Some(c@),
                None => None,
            },
        ),
{
    match route {
        Route::File { path: _, mime } => match read {
            Some(c) => Reply {
                status: "200 OK".to_string(),
                content: c,
                content_type: match mime {
                    Some(m) => m.clone(),
                    None => "text/html".to_string(),
                },
            },
            None => Reply {
                status: "404 Not Found".to_string(),
                content: "Not Found".to_string(),
                content_type: match mime {
                    Some(m) => m.clone(),
                    None => "text/plain".to_string(),
                },
            },
        },
        Route::Upgrade => Reply {
            status: "101 Switching Protocols".to_string(),
            content: String::new(),
            content_type: "text/plain".to_string(),
        },
        Route::Missing => Reply {
            status: "404 Not Found".to_string(),
            content: "Not Found".to_string(),
            content_type: "text/plain".to_string(),
        },
    }
}

/// The number of bytes of the UTF-8 encoding of a text, as `str::len` gives it.
pub open spec fn utf8_len(s: Seq<char>) -> nat {
    (vstd::utf8::encode_utf8(s).len() as usize) as nat
}

/// The text sent for a reply.
pub open spec fn response_model(status: Seq<char>, content: Seq<char>, content_type: Seq<char>) -> Seq<char> {
    "HTTP/1.1 "@ + status + "\r\nContent-Type: "@ + content_type + "\r\nContent-Length: "@ + decimal(
        utf8_len(content),
    ) + "\r\n\r\n"@ + content
}

/// The text sent for a reply: the status line `HTTP/1.1 <status>`, the
/// content type and the length in bytes of the body as headers, a blank line,
/// and the body.
pub fn response_text(reply: &Reply) -> (r: String)
    ensures
        r@ == response_model(reply.status@, reply.content@, reply.content_type@),
{
    let mut out = "HTTP/1.1 ".to_string();
    push_str(&mut out, reply.status.as_str());
    push_str(&mut out, "\r\nContent-Type: ");
    push_str(&mut out, reply.content_type.as_str());
    push_str(&mut out, "\r\nContent-Length: ");
    let n = reply.content.as_str().len();
    let digits = decimal_exec(n);
    push_chars(&mut out, &digits);
    push_str(&mut out, "\r\n\r\n");
    push_str(&mut out, reply.content.as_str());
    out
}

// ---------------------------------------------------------------------------
// Watching for changes

/// What the watcher's channel gave.
#[derive(Debug, Clone, Copy, PartialEq, Eq)]
pub enum WatchEvent {
    /// A file changed.
    Changed,
    /// Nothing happened for a while.
    Timeout,
    /// The watcher is gone.
    Disconnected,
}

/// What the watch loop does next.
#[derive(Debug, Clone, Copy, PartialEq, Eq)]
pub enum WatchAction {
    /// Reload the configuration and rebuild the site, then keep watching.
    Rebuild,
    /// Keep watching.
    Wait,
    /// Stop watching.
    Stop,
}

/// The watch loop rebuilds on a change, keeps waiting on a timeout and stops
/// when the watcher is gone.
pub fn watch_step(event: WatchEvent) -> (r: WatchAction)
    ensures
        event == WatchEvent::Changed ==> r == WatchAction::Rebuild,
        event == WatchEvent::Timeout ==> r == WatchAction::Wait,
        event == WatchEvent::Disconnected ==> r == WatchAction::Stop,
{
    match event {
        WatchEvent::Changed => WatchAction::Rebuild,
        WatchEvent::Timeout => WatchAction::Wait,
        WatchEvent::Disconnected => WatchAction::Stop,
    }
}

} // verus!
