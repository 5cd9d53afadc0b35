//! Structured responses and their reduction to wire-ready text.
//!
//! A router hands back a [`Response`]: a status plus a content variant.  The
//! resolution machine reduces the variant step by step — an unknown route
//! becomes the server's `404.html` page, a server-relative file becomes an
//! absolute one — until it either holds final text or needs the contents of
//! a file.  Reading the file is the caller's business; the outcome is handed
//! back in as a plain value and [`response_after_read`] finishes the job.

use vstd::prelude::*;

verus! {

use vstd::utf8::encode_utf8;
use vstd::string::{StringExecFns, StringSliceAdditionalSpecFns};
use crate::text::{decimal_digits, push_decimal};

/// The four statuses a client can ever see.
#[derive(Clone, Copy, Debug, PartialEq, Eq, Structural)]
pub enum Status {
    OK,
    BadRequest,
    NotFound,
    InternalError,
}

impl Status {
    /// The fixed status line sent for this status.
    pub open spec fn spec_status_line(self) -> Seq<char> {
        match self {
            Status::OK => "HTTP/1.1 200 OK"@,
            Status::BadRequest => "HTTP/1.1 400 BAD REQUEST"@,
            Status::NotFound => "HTTP/1.1 404 NOT FOUND"@,
            Status::InternalError => "HTTP/1.1 500 INTERNAL SERVER ERROR"@,
        }
    }

    /// The status line as static text.
    pub fn as_str(&self) -> (r: &'static str)
        ensures
            r@ == self.spec_status_line(),
    {
        match self {
            Status::OK => "HTTP/1.1 200 OK",
            Status::BadRequest => "HTTP/1.1 400 BAD REQUEST",
            Status::NotFound => "HTTP/1.1 404 NOT FOUND",
            Status::InternalError => "HTTP/1.1 500 INTERNAL SERVER ERROR",
        }
    }
}

/// A fully resolved response: the only form ever serialized to the wire.
pub struct TextResponse {
    pub status: Status,
    pub body: String,
}

impl TextResponse {
    /// The wire form: status line, a `Content-Length` that counts exactly
    /// the bytes of the body, a fixed cache header, a blank line, the body.
    pub open spec fn spec_wire(self) -> Seq<char> {
        self.status.spec_status_line() + "\r\nContent-Length: "@ + decimal_digits(
            encode_utf8(self.body@).len(),
        ) + "\r\nCache-Control: no-store, no-cache, must-revalidate\r\n\r\n"@ + self.body@
    }

    /// Serializes the response for the wire.
    pub fn as_string(&self) -> (r: String)
        requires
            encode_utf8(self.body@).len() <= usize::MAX,
        ensures
            r@ == self.spec_wire(),
    {
        let body_str = self.body.as_str();
        let byte_len = body_str.len();
        proof {
            assert(body_str.spec_bytes() == encode_utf8(self.body@));
        }
        let mut r = String::from_str(self.status.as_str());
        r.append("\r\nContent-Length: ");
        push_decimal(&mut r, byte_len as u64);
        r.append("\r\nCache-Control: no-store, no-cache, must-revalidate\r\n\r\n");
        r.append(body_str);
        proof {
            assert(r@ =~= self.spec_wire());
        }
        r
    }
}

/// The unresolved content of a response, as a router produces it.
pub enum Content {
    /// A file named relative to the server's resource directory.
    ServerFile(String),
    /// A file named by an absolute path.
    UserFile(String),
    /// Literal body text: the terminal variant.
    Text(String),
    /// Sentinel for a route the router did not recognize.
    UnknownRoute,
}

/// The content variants over mathematical strings.
pub enum ContentView {
    ServerFile(Seq<char>),
    UserFile(Seq<char>),
    Text(Seq<char>),
    UnknownRoute,
}

impl View for Content {
    type V = ContentView;

    open spec fn view(&self) -> ContentView {
        match self {
            Content::ServerFile(p) => ContentView::ServerFile(p@),
            Content::UserFile(p) => ContentView::UserFile(p@),
            Content::Text(t) => ContentView::Text(t@),
            Content::UnknownRoute => ContentView::UnknownRoute,
        }
    }
}

/// What a router hands back: a status and an unresolved content.
pub struct Response {
    pub status: Status,
    pub content: Content,
}

/// Where the resolution machine stops on its own: either final text, or the
/// need to read a file before it can go on.
pub enum Resolution {
    /// The response is fully resolved.
    Done(TextResponse),
    /// The machine needs the contents of the named file.
    ReadFile(Status, String),
}

/// [`Resolution`] over mathematical strings.
pub enum ResolutionView {
    Done(Status, Seq<char>),
    ReadFile(Status, Seq<char>),
}

impl View for Resolution {
    type V = ResolutionView;

    open spec fn view(&self) -> ResolutionView {
        match self {
            Resolution::Done(t) => ResolutionView::Done(t.status, t.body@),
            Resolution::ReadFile(s, p) => ResolutionView::ReadFile(*s, p@),
        }
    }
}

/// A path under the resource directory.
pub open spec fn joined_path(dir: Seq<char>, rel: Seq<char>) -> Seq<char> {
    dir + "/"@ + rel
}

/// One reduction of the content machine.  `UserFile` and `Text` are the
/// states in which the machine stops reducing on its own.
pub open spec fn spec_step(status: Status, c: ContentView, dir: Seq<char>) -> (Status, ContentView) {
    match c {
        ContentView::UnknownRoute => (Status::NotFound, ContentView::ServerFile("404.html"@)),
        ContentView::ServerFile(rel) => (status, ContentView::UserFile(joined_path(dir, rel))),
        ContentView::UserFile(p) => (status, ContentView::UserFile(p)),
        ContentView::Text(t) => (status, ContentView::Text(t)),
    }
}

/// How many reductions a variant is away from one the machine stops in.
pub open spec fn content_rank(c: ContentView) -> nat {
    match c {
        ContentView::UnknownRoute => 2,
        ContentView::ServerFile(_) => 1,
        ContentView::UserFile(_) => 0,
        ContentView::Text(_) => 0,
    }
}

/// Reduction run to the point where the machine stops on its own: `Text` is
/// done, `UserFile` asks for the file, anything else takes another step.
pub open spec fn spec_resolve(status: Status, c: ContentView, dir: Seq<char>) -> ResolutionView
    decreases content_rank(c),
{
    match c {
        ContentView::Text(t) => ResolutionView::Done(status, t),
        ContentView::UserFile(p) => ResolutionView::ReadFile(status, p),
        _ => {
            let (s2, c2) = spec_step(status, c, dir);
            spec_resolve(s2, c2, dir)
        },
    }
}

/// Joins a resource-directory path and a relative path with a separator.
pub fn join_path(dir: &str, rel: &str) -> (r: String)
    ensures
        r@ == joined_path(dir@, rel@),
{
    let mut r = String::from_str(dir);
    r.append("/");
    r.append(rel);
    r
}

/// The reduction, one variant at a time: it stops at `Text` and `UserFile`,
/// and otherwise takes the step the transition table prescribes and goes on.
fn resolve_content(status: Status, content: Content, resource_dir: &str) -> (r: Resolution)
    ensures
        r@ == spec_resolve(status, content@, resource_dir@),
    decreases content_rank(content@),
{
    match content {
        Content::Text(t) => Resolution::Done(TextResponse { status, body: t }),
        Content::UserFile(p) => Resolution::ReadFile(status, p),
        Content::ServerFile(rel) => resolve_content(
            status,
            Content::UserFile(join_path(resource_dir, rel.as_str())),
            resource_dir,
        ),
        Content::UnknownRoute => resolve_content(
            Status::NotFound,
            Content::ServerFile(String::from_str("404.html")),
            resource_dir,
        ),
    }
}

impl Response {
    /// Reduces the content variant until it is final text or names a file
    /// whose contents are needed.
    pub fn resolve(self, resource_dir: &str) -> (r: Resolution)
        ensures
            r@ == spec_resolve(self.status, self.content@, resource_dir@),
    {
        let Response { status, content } = self;
        resolve_content(status, content, resource_dir)
    }
}

/// The finished response, given the outcome of the read: the contents
/// become the body under the status already decided; a failed read becomes
/// an internal error with a fixed body that leaks nothing.
pub open spec fn spec_after_read(status: Status, contents: Option<Seq<char>>) -> (Status, Seq<
    char,
>) {
    match contents {
        Some(text) => (status, text),
        None => (Status::InternalError, "Resource not available."@),
    }
}

/// Finishes a resolution that needed a file, from the outcome of the read.
pub fn response_after_read(status: Status, contents: Option<String>) -> (r: TextResponse)
    ensures
        (r.status, r.body@) == spec_after_read(
            status,
            match contents {
                Some(text) => Some(text@),
                None => None,
            },
        ),
{
    match contents {
        Some(text) => TextResponse { status, body: text },
        None => TextResponse {
            status: Status::InternalError,
            body: String::from_str("Resource not available."),
        },
    }
}

/// Law: the unknown-route sentinel reaches, in exactly two reductions, an
/// attempt to read `404.html` under the resource directory, with the status
/// forced to `NotFound`; and when that read fails, the finished response is
/// an internal error with the fixed `Resource not available.` body.
pub proof fn lemma_unknown_route_resolution(status: Status, dir: Seq<char>)
    ensures
        spec_step(
            spec_step(status, ContentView::UnknownRoute, dir).0,
            spec_step(status, ContentView::UnknownRoute, dir).1,
            dir,
        ) == (Status::NotFound, ContentView::UserFile(joined_path(dir, "404.html"@))),
        spec_resolve(status, ContentView::UnknownRoute, dir) == ResolutionView::ReadFile(
            Status::NotFound,
            joined_path(dir, "404.html"@),
        ),
        spec_after_read(Status::NotFound, None::<Seq<char>>) == (
            Status::InternalError,
            "Resource not available."@,
        ),
{
    assert(spec_resolve(status, ContentView::UnknownRoute, dir) == spec_resolve(
        Status::NotFound,
        ContentView::ServerFile("404.html"@),
        dir,
    ));
    assert(spec_resolve(Status::NotFound, ContentView::ServerFile("404.html"@), dir)
        == spec_resolve(Status::NotFound, ContentView::UserFile(joined_path(dir, "404.html"@)), dir));
}

} // verus!
