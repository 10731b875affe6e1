//! The request router: request-line parsing, dispatch to WebSocket
//! upgrade, favicon, static serving or the liveness probe, and the
//! serving itself over the filesystem seam. Path resolution is the
//! plain join of the root-relative segments onto the configured root;
//! nothing beyond that join is canonicalized.

use vstd::prelude::*;
use vstd::slice::{slice_subrange, slice_to_vec};
use vstd::string::StringSliceAdditionalSpecFns;

use crate::bytesutil::bytes_eq;
use crate::bytesutil::push_bytes;
use crate::fs::{Dir, File, FileSystemInterface, PathKind};
use crate::response::{
    favicon_response, file_response, internal_error_response, listing_response,
    not_found_response, ping_response, spec_favicon_response, spec_file_response,
    spec_internal_error, spec_listing_response, spec_not_found, spec_ping, Response, SpecResponse,
};
use crate::websocket::{handshake_response, spec_handshake_response};

verus! {

/// The bytes treated as token separators in a request head.
pub open spec fn is_ws(b: u8) -> bool {
    b == 32 || b == 9 || b == 13 || b == 10
}

/// How many bytes the token at the front of `s` spans.
pub open spec fn token_len(s: Seq<u8>) -> nat
    decreases s.len(),
{
    if s.len() == 0 || is_ws(s[0]) {
        0
    } else {
        1 + token_len(s.skip(1))
    }
}

/// A token never runs past its sequence.
pub proof fn lemma_token_len_le(s: Seq<u8>)
    ensures
        token_len(s) <= s.len(),
    decreases s.len(),
{
    if s.len() != 0 && !is_ws(s[0]) {
        lemma_token_len_le(s.skip(1));
    }
}

/// The front token spans exactly the leading separator-free run.
proof fn lemma_token_len_is(s: Seq<u8>, k: int)
    requires
        0 <= k <= s.len(),
        forall|j: int| 0 <= j < k ==> !is_ws(s[j]),
        k == s.len() || is_ws(s[k]),
    ensures
        token_len(s) == k,
    decreases k,
{
    if k == 0 {
    } else {
        assert(!is_ws(s[0]));
        let s1 = s.skip(1);
        assert forall|j: int| 0 <= j < k - 1 implies !is_ws(s1[j]) by {
            assert(s1[j] == s[j + 1]);
        }
        if k < s.len() {
            assert(s1[k - 1] == s[k]);
        }
        lemma_token_len_is(s1, k - 1);
    }
}

/// The whitespace-separated tokens of a byte sequence, in order.
pub open spec fn split_ws(s: Seq<u8>) -> Seq<Seq<u8>>
    decreases s.len(),
    via split_ws_dec
{
    if s.len() == 0 {
        Seq::empty()
    } else if is_ws(s[0]) {
        split_ws(s.skip(1))
    } else {
        seq![s.take(token_len(s) as int)] + split_ws(s.skip(token_len(s) as int))
    }
}

#[via_fn]
proof fn split_ws_dec(s: Seq<u8>) {
    lemma_token_len_le(s);
    if s.len() != 0 && !is_ws(s[0]) {
        assert(token_len(s) >= 1);
    }
}

/// The first position at or after `i` whose token equals `target`.
pub open spec fn first_eq(toks: Seq<Seq<u8>>, target: Seq<u8>, i: int) -> Option<int>
    decreases toks.len() - i,
{
    if i < 0 || i >= toks.len() {
        None
    } else if toks[i] == target {
        Some(i)
    } else {
        first_eq(toks, target, i + 1)
    }
}

/// `first_eq` finds exactly the first match.
proof fn lemma_first_eq_at(toks: Seq<Seq<u8>>, target: Seq<u8>, start: int, k: int)
    requires
        0 <= start <= k <= toks.len(),
        forall|j: int| start <= j < k ==> toks[j] != target,
        k == toks.len() || toks[k] == target,
    ensures
        first_eq(toks, target, start) == (if k == toks.len() {
            Option::<int>::None
        } else {
            Option::<int>::Some(k)
        }),
    decreases k - start,
{
    if start < k {
        lemma_first_eq_at(toks, target, start + 1, k)
    }
}

/// The first position at or after `i` of the byte `b`.
pub open spec fn spec_find_byte(s: Seq<u8>, b: u8, i: int) -> Option<int>
    decreases s.len() - i,
{
    if i < 0 || i >= s.len() {
        None
    } else if s[i] == b {
        Some(i)
    } else {
        spec_find_byte(s, b, i + 1)
    }
}

/// `spec_find_byte` finds exactly the first occurrence.
proof fn lemma_find_byte_at(s: Seq<u8>, b: u8, start: int, k: int)
    requires
        0 <= start <= k <= s.len(),
        forall|j: int| start <= j < k ==> s[j] != b,
        k == s.len() || s[k] == b,
    ensures
        spec_find_byte(s, b, start) == (if k == s.len() {
            Option::<int>::None
        } else {
            Option::<int>::Some(k)
        }),
    decreases k - start,
{
    if start < k {
        lemma_find_byte_at(s, b, start + 1, k)
    }
}

/// Decides whether a byte separates tokens.
fn sep_byte(b: u8) -> (r: bool)
    ensures
        r == is_ws(b),
{
    b == 32 || b == 9 || b == 13 || b == 10
}

/// Splits a request head into its whitespace-separated tokens.
pub fn tokenize(s: &[u8]) -> (r: Vec<Vec<u8>>)
    ensures
        r.deep_view() == split_ws(s@),
{
    let mut out: Vec<Vec<u8>> = Vec::new();
    let n = s.len();
    let mut i: usize = 0;
    assert(out.deep_view() + split_ws(s@.skip(0)) =~~= split_ws(s@)) by {
        assert(s@.skip(0) =~= s@);
    }
    while i < n
        invariant
            i <= n,
            n == s@.len(),
            out.deep_view() + split_ws(s@.skip(i as int)) =~~= split_ws(s@),
        decreases n - i,
    {
        let b = s[i];
        if b == 32 || b == 9 || b == 13 || b == 10 {
            assert(s@.skip(i as int).skip(1) =~= s@.skip(i as int + 1));
            i += 1;
        } else {
            let ghost rest = s@.skip(i as int);
            let mut j: usize = i + 1;
            while j < n && !sep_byte(s[j])
                invariant
                    i < j <= n,
                    n == s@.len(),
                    forall|x: int| i <= x < j ==> !is_ws(s@[x]),
                decreases n - j,
            {
                j += 1;
            }
            assert(j == n || is_ws(s@[j as int]));
            proof {
                assert forall|x: int| 0 <= x < j - i implies !is_ws(rest[x]) by {
                    assert(rest[x] == s@[i + x]);
                }
                if j < n {
                    assert(rest[j - i] == s@[j as int]);
                }
                lemma_token_len_is(rest, j as int - i as int);
            }
            let tok = slice_to_vec(slice_subrange(s, i, j));
            proof {
                assert(tok@ =~= rest.take(token_len(rest) as int));
                assert(rest.skip(token_len(rest) as int) =~= s@.skip(j as int));
                let ghost prev = out.deep_view();
                assert(split_ws(rest) == seq![rest.take(token_len(rest) as int)] + split_ws(
                    s@.skip(j as int),
                ));
            }
            let ghost prev_dv = out.deep_view();
            out.push(tok);
            proof {
                assert(out.deep_view() =~~= prev_dv.push(tok@));
                assert(out.deep_view() + split_ws(s@.skip(j as int)) =~~= split_ws(s@));
            }
            i = j;
        }
    }
    assert(s@.skip(n as int) =~= Seq::<u8>::empty());
    assert(out.deep_view() + split_ws(s@.skip(n as int)) =~~= out.deep_view());
    out
}

/// Where one request goes: a WebSocket upgrade carrying the client's
/// key, the favicon, a path to serve, the liveness probe, or nothing
/// at all (a malformed or unhandled request drops the connection).
pub enum Dispatch {
    Upgrade(Vec<u8>),
    Favicon { head: bool },
    ServePath { rel: Vec<u8>, head: bool },
    Ping,
    Ignore,
}

/// The mathematical counterpart of [`Dispatch`].
#[verifier::ext_equal]
pub enum SpecDispatch {
    Upgrade(Seq<u8>),
    Favicon { head: bool },
    ServePath { rel: Seq<u8>, head: bool },
    Ping,
    Ignore,
}

/// The dispatch a [`Dispatch`] denotes.
pub open spec fn dispatch_view(d: Dispatch) -> SpecDispatch {
    match d {
        Dispatch::Upgrade(k) => SpecDispatch::Upgrade(k@),
        Dispatch::Favicon { head } => SpecDispatch::Favicon { head },
        Dispatch::ServePath { rel, head } => SpecDispatch::ServePath { rel: rel@, head },
        Dispatch::Ping => SpecDispatch::Ping,
        Dispatch::Ignore => SpecDispatch::Ignore,
    }
}

/// A path token with everything from the first `?` on removed.
pub open spec fn spec_query_strip(p: Seq<u8>) -> Seq<u8> {
    match spec_find_byte(p, 63, 0) {
        Some(i) => p.take(i),
        None => p,
    }
}

/// The root-relative remainder of a request path: the bytes after the
/// leading slash; the root itself for `/`.
pub open spec fn spec_rel_of(p: Seq<u8>) -> Seq<u8> {
    if p.len() >= 1 {
        p.skip(1)
    } else {
        p
    }
}

/// The client key announced for an upgrade: the token after the first
/// `Sec-WebSocket-Key:` header token, looked for only past the
/// request line.
pub open spec fn spec_ws_key(toks: Seq<Seq<u8>>) -> Option<Seq<u8>> {
    match first_eq(toks, "Sec-WebSocket-Key:".spec_bytes(), 3) {
        Some(i) => if i + 1 < toks.len() {
            Some(toks[i + 1])
        } else {
            None
        },
        None => None,
    }
}

/// Where a request head sends the connection. A request with fewer
/// than three head tokens is dropped; `GET` and `HEAD` serve, with
/// `/ws` upgrading when a key is present and `/favicon.ico` special;
/// `POST /ping` answers the liveness probe; anything else is dropped.
pub open spec fn spec_dispatch(req: Seq<u8>) -> SpecDispatch {
    let toks = split_ws(req);
    if toks.len() < 3 {
        SpecDispatch::Ignore
    } else {
        let method = toks[0];
        let rawpath = toks[1];
        if method == "GET".spec_bytes() || method == "HEAD".spec_bytes() {
            let head = method == "HEAD".spec_bytes();
            let path = spec_query_strip(rawpath);
            if path == "/ws".spec_bytes() && spec_ws_key(toks) is Some {
                SpecDispatch::Upgrade(spec_ws_key(toks).unwrap())
            } else if path == "/favicon.ico".spec_bytes() {
                SpecDispatch::Favicon { head }
            } else {
                SpecDispatch::ServePath { rel: spec_rel_of(path), head }
            }
        } else if method == "POST".spec_bytes() && rawpath == "/ping".spec_bytes() {
            SpecDispatch::Ping
        } else {
            SpecDispatch::Ignore
        }
    }
}

/// Finds the first token at or after `start` equal to `target`.
fn find_first(toks: &Vec<Vec<u8>>, target: &[u8], start: usize) -> (r: Option<usize>)
    ensures
        first_eq(toks.deep_view(), target@, start as int) == (match r {
            Some(i) => Some(i as int),
            None => Option::<int>::None,
        }),
        r matches Some(i) ==> i < toks@.len(),
{
    let n = toks.len();
    let mut i: usize = start;
    if i >= n {
        return None;
    }
    while i < n
        invariant
            start <= i <= n,
            n == toks@.len(),
            forall|j: int| start <= j < i ==> toks.deep_view()[j] != target@,
        decreases n - i,
    {
        if bytes_eq(toks[i].as_slice(), target) {
            proof {
                assert(toks.deep_view()[i as int] =~= toks@[i as int]@);
                lemma_first_eq_at(toks.deep_view(), target@, start as int, i as int);
            }
            return Some(i);
        }
        assert(toks.deep_view()[i as int] =~= toks@[i as int]@);
        i += 1;
    }
    proof {
        lemma_first_eq_at(toks.deep_view(), target@, start as int, n as int);
    }
    None
}

/// Reads one request head and decides where the connection goes.
pub fn dispatch_request(request: &[u8]) -> (d: Dispatch)
    ensures
        dispatch_view(d) == spec_dispatch(request@),
{
    let toks = tokenize(request);
    let ghost tv = toks.deep_view();
    if toks.len() < 3 {
        return Dispatch::Ignore;
    }
    proof {
        assert(tv[0] =~= toks@[0]@);
        assert(tv[1] =~= toks@[1]@);
    }
    let is_get = bytes_eq(toks[0].as_slice(), "GET".as_bytes());
    let is_head = bytes_eq(toks[0].as_slice(), "HEAD".as_bytes());
    if is_get || is_head {
        let rawpath = &toks[1];
        let path: Vec<u8> = match crate::bytesutil::find_byte(rawpath.as_slice(), 63) {
            Some(i) => {
                proof {
                    lemma_find_byte_at(rawpath@, 63, 0, i as int);
                }
                slice_to_vec(slice_subrange(rawpath.as_slice(), 0, i))
            },
            None => {
                proof {
                    lemma_find_byte_at(rawpath@, 63, 0, rawpath@.len() as int);
                }
                slice_to_vec(rawpath.as_slice())
            },
        };
        assert(path@ == spec_query_strip(tv[1]));
        if bytes_eq(path.as_slice(), "/ws".as_bytes()) {
            match find_first(&toks, "Sec-WebSocket-Key:".as_bytes(), 3) {
                Some(i) => {
                    if i + 1 < toks.len() {
                        let key = slice_to_vec(toks[i + 1].as_slice());
                        proof {
                            assert(tv[i as int + 1] =~= toks@[i as int + 1]@);
                        }
                        return Dispatch::Upgrade(key);
                    }
                },
                None => {},
            }
        }
        if bytes_eq(path.as_slice(), "/favicon.ico".as_bytes()) {
            return Dispatch::Favicon { head: is_head };
        }
        let rel: Vec<u8> = if path.len() >= 1 {
            slice_to_vec(slice_subrange(path.as_slice(), 1, path.len()))
        } else {
            path
        };
        assert(rel@ == spec_rel_of(spec_query_strip(tv[1])));
        Dispatch::ServePath { rel, head: is_head }
    } else if bytes_eq(toks[0].as_slice(), "POST".as_bytes()) && bytes_eq(
        toks[1].as_slice(),
        "/ping".as_bytes(),
    ) {
        Dispatch::Ping
    } else {
        Dispatch::Ignore
    }
}

/// Decides whether a directory entry is the index page that stops an
/// enumeration and is served in place of the listing.
pub fn is_index_entry(name: &[u8]) -> (r: bool)
    ensures
        r == (name@ == "index.html".spec_bytes()),
{
    bytes_eq(name, "index.html".as_bytes())
}

/// Walks a directory's entries in order, collecting names until the
/// end or until `index.html` appears; says whether it did. An error
/// from the producer ends the walk like the end of the listing.
fn scan_entries<D: Dir>(d: &mut D) -> (r: (Vec<Vec<u8>>, bool))
    requires
        old(d).pos() == 0,
    ensures
        old(d).reliable() ==> (match first_eq(old(d).entries(), "index.html".spec_bytes(), 0) {
            Some(k) => r.1 && r.0.deep_view() == old(d).entries().take(k),
            None => !r.1 && r.0.deep_view() == old(d).entries(),
        }),
{
    let ghost e = old(d).entries();
    let mut names: Vec<Vec<u8>> = Vec::new();
    loop
        invariant
            e == old(d).entries(),
            d.entries() == e,
            d.reliable() == old(d).reliable(),
            0 <= d.pos() <= e.len(),
            names.deep_view() =~~= e.take(d.pos()),
            forall|j: int| 0 <= j < d.pos() ==> e[j] != "index.html".spec_bytes(),
        decreases e.len() - d.pos(),
    {
        let ghost p = d.pos();
        match d.get_next() {
            Ok(Some(name)) => {
                if is_index_entry(name.as_slice()) {
                    proof {
                        lemma_first_eq_at(e, "index.html".spec_bytes(), 0, p);
                    }
                    return (names, true);
                }
                let ghost prev = names.deep_view();
                names.push(name);
                proof {
                    assert(names.deep_view() =~~= prev.push(e[p]));
                    assert(names.deep_view() =~~= e.take(p + 1));
                }
            },
            Ok(None) => {
                proof {
                    if d.reliable() {
                        lemma_first_eq_at(e, "index.html".spec_bytes(), 0, e.len() as int);
                        assert(names.deep_view() =~~= e);
                    }
                }
                return (names, false);
            },
            Err(_) => {
                return (names, false);
            },
        }
    }
}

/// The joined form of the configured root and a root-relative path:
/// the root itself for the empty remainder, else the segments joined
/// with one separator — the documented join rule, with nothing
/// canonicalized.
pub open spec fn spec_join(root: Seq<u8>, rel: Seq<u8>) -> Seq<u8> {
    if rel.len() == 0 {
        root
    } else {
        root + "/".spec_bytes() + rel
    }
}

/// What serving a resolved path answers, given the filesystem's two
/// maps: a directory lists its entries — unless it holds `index.html`,
/// which is served instead — a regular file is served with its guessed
/// content type, a missing path is `404`, and a failure underneath is
/// `500`.
pub open spec fn spec_serve_path(
    dirs: Map<Seq<u8>, Seq<Seq<u8>>>,
    files: Map<Seq<u8>, Seq<u8>>,
    path: Seq<u8>,
    head: bool,
) -> SpecResponse {
    if dirs.contains_key(path) {
        let e = dirs[path];
        match first_eq(e, "index.html".spec_bytes(), 0) {
            Some(_) => {
                let ip = path + "/index.html".spec_bytes();
                if files.contains_key(ip) {
                    spec_file_response(ip, files[ip], head)
                } else {
                    spec_internal_error()
                }
            },
            None => spec_listing_response(e, head),
        }
    } else if files.contains_key(path) {
        spec_file_response(path, files[path], head)
    } else {
        spec_not_found()
    }
}

/// Serves one resolved path from the filesystem.
pub fn serve_path<T: FileSystemInterface>(fs: &T, full: &Vec<u8>, head: bool) -> (r: Response)
    requires
        fs.inv(),
    ensures
        fs.reliable() ==> r@ == spec_serve_path(fs.dirs(), fs.files(), full@, head),
{
    match fs.classify(full) {
        PathKind::Missing => not_found_response(),
        PathKind::Directory => {
            match fs.get_dir(full) {
                Err(_) => internal_error_response(),
                Ok(mut d) => {
                    let (names, found) = scan_entries(&mut d);
                    if found {
                        let mut ip = slice_to_vec(full.as_slice());
                        push_bytes(&mut ip, "/index.html".as_bytes());
                        match fs.get_file(&ip) {
                            Err(_) => internal_error_response(),
                            Ok(mut f) => {
                                let content = f.read_to_end();
                                file_response(&ip, content, head)
                            },
                        }
                    } else {
                        listing_response(&names, head)
                    }
                },
            }
        },
        PathKind::RegularFile => {
            match fs.get_file(full) {
                Err(_) => internal_error_response(),
                Ok(mut f) => {
                    let content = f.read_to_end();
                    file_response(full, content, head)
                },
            }
        },
    }
}

/// What the router does with one connection after reading the request
/// head.
pub enum ClientAction {
    Respond(Response),
    OpenSession(Vec<u8>),
    Ignore,
}

/// The mathematical counterpart of [`ClientAction`].
#[verifier::ext_equal]
pub enum SpecClientAction {
    Respond(SpecResponse),
    OpenSession(Seq<u8>),
    Ignore,
}

/// The action a [`ClientAction`] denotes.
pub open spec fn client_action_view(a: ClientAction) -> SpecClientAction {
    match a {
        ClientAction::Respond(r) => SpecClientAction::Respond(r@),
        ClientAction::OpenSession(h) => SpecClientAction::OpenSession(h@),
        ClientAction::Ignore => SpecClientAction::Ignore,
    }
}

/// The router's whole answer to one request head: an upgrade hands
/// back the handshake to write before the session starts; the favicon
/// is served from the filesystem or from the given default bytes; a
/// path is joined onto the root and served; the probe answers `pong`;
/// everything else drops the connection.
pub open spec fn spec_handle_request(
    dirs: Map<Seq<u8>, Seq<Seq<u8>>>,
    files: Map<Seq<u8>, Seq<u8>>,
    root: Seq<u8>,
    req: Seq<u8>,
    favicon_default: Seq<u8>,
) -> SpecClientAction {
    match spec_dispatch(req) {
        SpecDispatch::Upgrade(key) => SpecClientAction::OpenSession(spec_handshake_response(key)),
        SpecDispatch::Favicon { head } => {
            let p = root + "/favicon.ico".spec_bytes();
            SpecClientAction::Respond(
                spec_favicon_response(
                    if files.contains_key(p) {
                        files[p]
                    } else {
                        favicon_default
                    },
                    head,
                ),
            )
        },
        SpecDispatch::ServePath { rel, head } => SpecClientAction::Respond(
            spec_serve_path(dirs, files, spec_join(root, rel), head),
        ),
        SpecDispatch::Ping => SpecClientAction::Respond(spec_ping()),
        SpecDispatch::Ignore => SpecClientAction::Ignore,
    }
}

/// Reads one request head and produces the router's whole answer.
pub fn handle_request<T: FileSystemInterface>(
    fs: &T,
    root: &Vec<u8>,
    request: &[u8],
    favicon_default: &Vec<u8>,
) -> (r: ClientAction)
    requires
        fs.inv(),
    ensures
        fs.reliable() ==> client_action_view(r) == spec_handle_request(
            fs.dirs(),
            fs.files(),
            root@,
            request@,
            favicon_default@,
        ),
{
    match dispatch_request(request) {
        Dispatch::Upgrade(key) => ClientAction::OpenSession(handshake_response(&key)),
        Dispatch::Favicon { head } => {
            let mut p = slice_to_vec(root.as_slice());
            push_bytes(&mut p, "/favicon.ico".as_bytes());
            let bytes = match fs.get_file(&p) {
                Ok(mut f) => f.read_to_end(),
                Err(_) => slice_to_vec(favicon_default.as_slice()),
            };
            ClientAction::Respond(favicon_response(bytes, head))
        },
        Dispatch::ServePath { rel, head } => {
            let mut full = slice_to_vec(root.as_slice());
            if rel.len() > 0 {
                push_bytes(&mut full, "/".as_bytes());
                push_bytes(&mut full, rel.as_slice());
            }
            assert(full@ == spec_join(root@, rel@));
            ClientAction::Respond(serve_path(fs, &full, head))
        },
        Dispatch::Ping => ClientAction::Respond(ping_response()),
        Dispatch::Ignore => ClientAction::Ignore,
    }
}

} // verus!
