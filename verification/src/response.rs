//! HTTP response construction: the fixed responses, the directory
//! listing, and file serving with the live-reload script injected
//! into HTML. Responses use `Content-Length` framing; a `HEAD`
//! response carries identical headers with the body suppressed.

use vstd::prelude::*;
use vstd::string::StrSliceExecFns;
use vstd::string::StringSliceAdditionalSpecFns;

use crate::bytesutil::{dec_of, ends_with, push_bytes, spec_dec};

verus! {

/// The two parts of one HTTP response: what is always written, and
/// the body that a `HEAD` request suppresses.
pub struct Response {
    pub header: Vec<u8>,
    pub body: Vec<u8>,
}

/// The mathematical counterpart of [`Response`].
#[verifier::ext_equal]
pub struct SpecResponse {
    pub header: Seq<u8>,
    pub body: Seq<u8>,
}

impl View for Response {
    type V = SpecResponse;

    open spec fn view(&self) -> SpecResponse {
        SpecResponse { header: self.header@, body: self.body@ }
    }
}

/// The response for a route that matches nothing that exists.
pub open spec fn spec_not_found() -> SpecResponse {
    SpecResponse { header: "HTTP/1.1 404 NOT FOUND\r\n\r\n".spec_bytes(), body: Seq::empty() }
}

/// Builds the `404` response.
pub fn not_found_response() -> (r: Response)
    ensures
        r@ == spec_not_found(),
{
    let r = Response { header: "HTTP/1.1 404 NOT FOUND\r\n\r\n".as_bytes_vec(), body: Vec::new() };
    proof {
        assert(r@ =~= spec_not_found());
    }
    r
}

/// The response for an internal failure while listing or serving.
pub open spec fn spec_internal_error() -> SpecResponse {
    SpecResponse {
        header: "HTTP/1.1 500 INTERNAL SERVER ERROR\r\n\r\n".spec_bytes(),
        body: Seq::empty(),
    }
}

/// Builds the `500` response.
pub fn internal_error_response() -> (r: Response)
    ensures
        r@ == spec_internal_error(),
{
    let r = Response {
        header: "HTTP/1.1 500 INTERNAL SERVER ERROR\r\n\r\n".as_bytes_vec(),
        body: Vec::new(),
    };
    proof {
        assert(r@ =~= spec_internal_error());
    }
    r
}

/// The liveness probe's answer: `200` with body `pong`.
pub open spec fn spec_ping() -> SpecResponse {
    SpecResponse {
        header: "HTTP/1.1 200 OK\r\nContent-Type: text\r\n\r\n".spec_bytes(),
        body: "pong".spec_bytes(),
    }
}

/// Builds the `POST /ping` response.
pub fn ping_response() -> (r: Response)
    ensures
        r@ == spec_ping(),
{
    let r = Response {
        header: "HTTP/1.1 200 OK\r\nContent-Type: text\r\n\r\n".as_bytes_vec(),
        body: "pong".as_bytes_vec(),
    };
    proof {
        assert(r@ =~= spec_ping());
    }
    r
}

/// The header every directory listing carries.
pub open spec fn spec_listing_header() -> Seq<u8> {
    "HTTP/1.1 200 OK\r\nContent-Type: text/html\r\nConnection: close\r\n\r\n".spec_bytes()
}

/// One listing line: an anchor for one entry name.
pub open spec fn spec_listing_item(name: Seq<u8>) -> Seq<u8> {
    "<li><a href=\"".spec_bytes() + name + "\">".spec_bytes() + name + "</a></li>".spec_bytes()
}

/// The anchors for a run of entry names, in order.
pub open spec fn spec_listing_items(entries: Seq<Seq<u8>>) -> Seq<u8>
    decreases entries.len(),
{
    if entries.len() == 0 {
        Seq::empty()
    } else {
        spec_listing_items(entries.drop_last()) + spec_listing_item(entries.last())
    }
}

/// A full listing page for a run of entry names.
pub open spec fn spec_listing_body(entries: Seq<Seq<u8>>) -> Seq<u8> {
    "<html><body><ul>".spec_bytes() + spec_listing_items(entries)
        + "</ul></body></html>".spec_bytes()
}

/// The listing response: anchors for exactly the given entries.
pub open spec fn spec_listing_response(entries: Seq<Seq<u8>>, head: bool) -> SpecResponse {
    SpecResponse {
        header: spec_listing_header(),
        body: if head {
            Seq::empty()
        } else {
            spec_listing_body(entries)
        },
    }
}

/// Builds the directory listing for the given entry names.
pub fn listing_response(entries: &Vec<Vec<u8>>, head: bool) -> (r: Response)
    ensures
        r@ == spec_listing_response(entries.deep_view(), head),
{
    let header = "HTTP/1.1 200 OK\r\nContent-Type: text/html\r\nConnection: close\r\n\r\n".as_bytes_vec();
    if head {
        let r = Response { header, body: Vec::new() };
        proof {
            assert(r@ =~= spec_listing_response(entries.deep_view(), head));
        }
        return r;
    }
    let ghost dv = entries.deep_view();
    let mut body: Vec<u8> = Vec::new();
    push_bytes(&mut body, "<html><body><ul>".as_bytes());
    assert(body@ =~= "<html><body><ul>".spec_bytes() + spec_listing_items(dv.take(0)));
    let n = entries.len();
    let mut i: usize = 0;
    while i < n
        invariant
            i <= n,
            n == entries@.len(),
            dv == entries.deep_view(),
            body@ == "<html><body><ul>".spec_bytes() + spec_listing_items(dv.take(i as int)),
        decreases n - i,
    {
        push_bytes(&mut body, "<li><a href=\"".as_bytes());
        push_bytes(&mut body, entries[i].as_slice());
        push_bytes(&mut body, "\">".as_bytes());
        push_bytes(&mut body, entries[i].as_slice());
        push_bytes(&mut body, "</a></li>".as_bytes());
        proof {
            assert(entries@[i as int].deep_view() =~= entries@[i as int]@);
            assert(dv.take(i as int + 1).drop_last() =~= dv.take(i as int));
            assert(dv.take(i as int + 1).last() == dv[i as int]);
            assert(spec_listing_items(dv.take(i as int + 1)) == spec_listing_items(
                dv.take(i as int),
            ) + spec_listing_item(dv[i as int]));
            assert(body@ =~= "<html><body><ul>".spec_bytes() + spec_listing_items(
                dv.take(i as int + 1),
            ));
        }
        i += 1;
    }
    assert(dv.take(n as int) =~= dv);
    push_bytes(&mut body, "</ul></body></html>".as_bytes());
    let r = Response { header, body };
    proof {
        assert(r@.body =~= spec_listing_body(dv));
        assert(r@ =~= spec_listing_response(dv, head));
    }
    r
}

/// Whether a path names an HTML page: it ends in `.html`.
pub open spec fn spec_is_html(path: Seq<u8>) -> bool {
    let suf = ".html".spec_bytes();
    path.len() >= suf.len() && path.skip(path.len() - suf.len() as int) == suf
}

/// The content type guessed for a path's extension, a function of the
/// path alone.
pub uninterp spec fn mime_of(path: Seq<u8>) -> Seq<u8>;

/// Relies on `mime_guess::from_path` and its `first_or_octet_stream`
/// accessor: a static table lookup by extension, a function of the
/// path alone.
#[verifier::external_body]
fn mime_for_path(path: &Vec<u8>) -> (r: Vec<u8>)
    ensures
        r@ == mime_of(path@),
{
    let text = String::from_utf8_lossy(path.as_slice());
    mime_guess::from_path(text.as_ref()).first_or_octet_stream().to_string().into_bytes()
}

/// The script tag appended to every served HTML page: it opens a
/// WebSocket to `/ws`, reloads the page on `reload`, and hot-swaps a
/// stylesheet link on `update-css:///`.
pub open spec fn spec_script_tag() -> Seq<u8> {
    "<script defer>(function(){var ws=new WebSocket(\"ws://\"+location.host+\"/ws\");ws.onmessage=function(e){if(e.data===\"reload\"){location.reload();}else if(e.data.indexOf(\"update-css:///\")===0){var p=\"/\"+e.data.slice(14);var ls=document.querySelectorAll(\"link[rel=stylesheet]\");for(var i=0;i<ls.length;i++){var u=new URL(ls[i].href);if(u.pathname===p){ls[i].href=p+\"?v=\"+Date.now();}}}};})()</script>".spec_bytes()
}

/// Hands out the bytes of the live-reload script tag.
pub fn script_tag_bytes() -> (r: Vec<u8>)
    ensures
        r@ == spec_script_tag(),
{
    "<script defer>(function(){var ws=new WebSocket(\"ws://\"+location.host+\"/ws\");ws.onmessage=function(e){if(e.data===\"reload\"){location.reload();}else if(e.data.indexOf(\"update-css:///\")===0){var p=\"/\"+e.data.slice(14);var ls=document.querySelectorAll(\"link[rel=stylesheet]\");for(var i=0;i<ls.length;i++){var u=new URL(ls[i].href);if(u.pathname===p){ls[i].href=p+\"?v=\"+Date.now();}}}};})()</script>".as_bytes_vec()
}

/// What a served file's bytes become: an HTML page gets exactly one
/// script tag appended, anything else is sent as it is.
pub open spec fn spec_augmented(path: Seq<u8>, content: Seq<u8>) -> Seq<u8> {
    if spec_is_html(path) {
        content + spec_script_tag()
    } else {
        content
    }
}

/// The header of a file response: the guessed content type and the
/// length of the (possibly augmented) body.
pub open spec fn spec_file_header(path: Seq<u8>, full_len: u64) -> Seq<u8> {
    "HTTP/1.1 200 OK\r\nContent-Type: ".spec_bytes() + mime_of(path)
        + "\r\nContent-Length: ".spec_bytes() + spec_dec(full_len)
        + "\r\nConnection: close\r\n\r\n".spec_bytes()
}

/// The full response for one regular file.
pub open spec fn spec_file_response(path: Seq<u8>, content: Seq<u8>, head: bool) -> SpecResponse {
    let aug = spec_augmented(path, content);
    SpecResponse {
        header: spec_file_header(path, aug.len() as u64),
        body: if head {
            Seq::empty()
        } else {
            aug
        },
    }
}

/// Builds the response that serves one file's bytes.
pub fn file_response(path: &Vec<u8>, content: Vec<u8>, head: bool) -> (r: Response)
    ensures
        r@ == spec_file_response(path@, content@, head),
{
    let ghost c0 = content@;
    let mut body = content;
    if ends_with(path.as_slice(), ".html".as_bytes()) {
        let mut tag = script_tag_bytes();
        body.append(&mut tag);
    }
    assert(body@ == spec_augmented(path@, c0));
    let mime = mime_for_path(path);
    let mut header: Vec<u8> = Vec::new();
    push_bytes(&mut header, "HTTP/1.1 200 OK\r\nContent-Type: ".as_bytes());
    push_bytes(&mut header, mime.as_slice());
    push_bytes(&mut header, "\r\nContent-Length: ".as_bytes());
    let mut lenb = dec_of(body.len() as u64);
    header.append(&mut lenb);
    push_bytes(&mut header, "\r\nConnection: close\r\n\r\n".as_bytes());
    assert(header@ =~= spec_file_header(path@, spec_augmented(path@, c0).len() as u64));
    let r = if head {
        Response { header, body: Vec::new() }
    } else {
        Response { header, body }
    };
    proof {
        assert(r@ =~= spec_file_response(path@, c0, head));
    }
    r
}

/// The response that serves the favicon's bytes.
pub open spec fn spec_favicon_response(bytes: Seq<u8>, head: bool) -> SpecResponse {
    SpecResponse {
        header: "HTTP/1.1 200 OK\r\nContent-Type: image/x-icon\r\nContent-Length: ".spec_bytes()
            + spec_dec(bytes.len() as u64) + "\r\nConnection: close\r\n\r\n".spec_bytes(),
        body: if head {
            Seq::empty()
        } else {
            bytes
        },
    }
}

/// Builds the favicon response around the given icon bytes.
pub fn favicon_response(bytes: Vec<u8>, head: bool) -> (r: Response)
    ensures
        r@ == spec_favicon_response(bytes@, head),
{
    let ghost b0 = bytes@;
    let mut header: Vec<u8> = Vec::new();
    push_bytes(
        &mut header,
        "HTTP/1.1 200 OK\r\nContent-Type: image/x-icon\r\nContent-Length: ".as_bytes(),
    );
    let mut lenb = dec_of(bytes.len() as u64);
    header.append(&mut lenb);
    push_bytes(&mut header, "\r\nConnection: close\r\n\r\n".as_bytes());
    let r = if head {
        Response { header, body: Vec::new() }
    } else {
        Response { header, body: bytes }
    };
    proof {
        assert(r@ =~= spec_favicon_response(b0, head));
    }
    r
}

/// Serving an HTML page appends exactly one script tag: the body is
/// the original content followed by the tag and nothing else, and the
/// announced `Content-Length` is the original size plus the tag's
/// length.
pub proof fn lemma_html_augmentation(path: Seq<u8>, content: Seq<u8>)
    requires
        spec_is_html(path),
    ensures
        spec_file_response(path, content, false).body == content + spec_script_tag(),
        spec_augmented(path, content).len() == content.len() + spec_script_tag().len(),
{
}

} // verus!
