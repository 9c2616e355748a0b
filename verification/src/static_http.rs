//! Static mode: serve files from a local directory over HTTP/1.1.
//!
//! After the same handshake as for an exposed service, a stream carries HTTP
//! requests. A request is resolved to a path below the root directory; a file
//! or, where that is allowed, a directory listing is served.
//!
//! - A target is served only where its canonical path lies inside the canonical
//!   root, so that neither `..` nor a symbolic link leads outside.
//! - Only GET and HEAD are served; anything else is answered with 405.
use crate::http::{Request, RequestView};
use crate::listing::{entry_views, listing_page, render_directory_listing, ListingEntry};
use crate::scan::{before_char, cut_slashes, split_at_char, without_slashes};
use crate::text::{
    chars_of, decimal, decimal_text, lossy, lossy_text, same_text, string_of, text_option,
    utf8_text,
};
use vstd::prelude::*;
use vstd::string::StringExecFns;
use vstd::utf8::encode_utf8;

verus! {

/// Description of one HTTP static service.
#[derive(Debug, Clone)]
pub struct StaticSpec {
    pub name: String,
    pub root_dir: String,
    pub allow_directory_listing: bool,
    pub shared_secret: Vec<u8>,
}

/// Serves one static service.
#[derive(Debug, Clone)]
pub struct StaticHandler {
    pub spec: StaticSpec,
}

// ---------------------------------------------------------------------------
// Paths
// ---------------------------------------------------------------------------

/// The value of an ASCII hex digit.
pub open spec fn digit_value(b: u8) -> Option<int> {
    crate::endpoint::hex_value(b)
}

/// A URL path with `%XX` and `+` decoded, as bytes; nothing where an escape is
/// cut off or has no hex digits.
pub open spec fn percent_decoded(s: Seq<u8>) -> Option<Seq<u8>>
    decreases s.len(),
{
    if s.len() == 0 {
        Some(Seq::empty())
    } else if s[0] == 37 {
        if s.len() < 3 || digit_value(s[1]) is None || digit_value(s[2]) is None {
            None
        } else {
            match percent_decoded(s.skip(3)) {
                Some(rest) => Some(
                    seq![(16 * digit_value(s[1])->0 + digit_value(s[2])->0) as u8] + rest,
                ),
                None => None,
            }
        }
    } else {
        match percent_decoded(s.skip(1)) {
            Some(rest) => Some(
                seq![
                    if s[0] == 43 {
                        32u8
                    } else {
                        s[0]
                    },
                ] + rest,
            ),
            None => None,
        }
    }
}

/// A URL path decoded to text.
pub open spec fn decoded_path(path: Seq<char>) -> Option<Seq<char>> {
    match percent_decoded(encode_utf8(path)) {
        Some(bytes) => utf8_text(bytes),
        None => None,
    }
}

/// Reads an ASCII hex digit.
fn hex_digit_value(b: u8) -> (r: Option<u8>)
    ensures
        match r {
            Some(v) => v < 16 && digit_value(b) == Some(v as int),
            None => digit_value(b) is None,
        },
{
    if 0x30 <= b && b <= 0x39 {
        Some(b - 0x30)
    } else if 0x41 <= b && b <= 0x46 {
        Some(b - 0x41 + 10)
    } else if 0x61 <= b && b <= 0x66 {
        Some(b - 0x61 + 10)
    } else {
        None
    }
}

/// Decodes a URL path.
pub fn percent_decode(s: &str) -> (r: Result<String, ()>)
    ensures
        match r {
            Ok(text) => decoded_path(s@) == Some(text@),
            Err(_) => decoded_path(s@) is None,
        },
{
    let bytes: &[u8] = s.as_bytes();
    let len: usize = bytes.len();
    let mut out: Vec<u8> = Vec::new();
    let mut i: usize = 0;
    let ghost all = bytes@;
    proof {
        assert(all.skip(0) =~= all);
        if let Some(rest) = percent_decoded(all) {
            assert(out@ + rest =~= rest);
        }
    }
    while i < len
        invariant
            bytes@ == all,
            all == encode_utf8(s@),
            i <= len == all.len(),
            percent_decoded(all) == match percent_decoded(all.skip(i as int)) {
                Some(rest) => Some(out@ + rest),
                None => None,
            },
        decreases len - i,
    {
        let b: u8 = bytes[i];
        let ghost rest = all.skip(i as int);
        let ghost before = out@;
        if b == 37 {
            if len - i < 3 {
                return Err(());
            }
            match (hex_digit_value(bytes[i + 1]), hex_digit_value(bytes[i + 2])) {
                (Some(hi), Some(lo)) => {
                    out.push(16 * hi + lo);
                    proof {
                        assert(rest.skip(3) =~= all.skip(i + 3));
                        if let Some(tail) = percent_decoded(all.skip(i + 3)) {
                            assert(before + (seq![(16 * hi + lo) as u8] + tail) =~= out@ + tail);
                        }
                    }
                    i = i + 3;
                },
                _ => {
                    return Err(());
                },
            }
        } else {
            let c: u8 = if b == 43 {
                32
            } else {
                b
            };
            out.push(c);
            proof {
                assert(rest.skip(1) =~= all.skip(i + 1));
                if let Some(tail) = percent_decoded(all.skip(i + 1)) {
                    assert(before + (seq![c] + tail) =~= out@ + tail);
                }
            }
            i = i + 1;
        }
    }
    proof {
        assert(out@ + Seq::<u8>::empty() =~= out@);
    }
    match String::from_utf8(out) {
        Ok(text) => Ok(text),
        Err(_) => Err(()),
    }
}

/// A path without escapes and plus signs is decoded to itself.
pub proof fn law_plain_path_is_unchanged(path: Seq<char>)
    requires
        forall|i: int|
            0 <= i < encode_utf8(path).len() ==> #[trigger] encode_utf8(path)[i] != 37
                && encode_utf8(path)[i] != 43,
    ensures
        decoded_path(path) == Some(path),
{
    lemma_plain_bytes(encode_utf8(path));
    vstd::utf8::encode_utf8_valid_utf8(path);
    vstd::utf8::encode_utf8_decode_utf8(path);
}

proof fn lemma_plain_bytes(s: Seq<u8>)
    requires
        forall|i: int| 0 <= i < s.len() ==> #[trigger] s[i] != 37 && s[i] != 43,
    ensures
        percent_decoded(s) == Some(s),
    decreases s.len(),
{
    if s.len() > 0 {
        assert forall|i: int| 0 <= i < s.skip(1).len() implies #[trigger] s.skip(1)[i] != 37
            && s.skip(1)[i] != 43 by {
            assert(s.skip(1)[i] == s[i + 1]);
        }
        lemma_plain_bytes(s.skip(1));
        assert(seq![s[0]] + s.skip(1) =~= s);
    } else {
        assert(s =~= Seq::empty());
    }
}

/// The path below the root that a request asks for, or the status that it is
/// answered with: the query and the fragment are cut off, the rest is decoded,
/// and slashes in front are dropped.
pub open spec fn requested_path(method: Seq<char>, path: Seq<char>) -> Result<Seq<char>, u16> {
    if method != "GET"@ && method != "HEAD"@ {
        Err(405)
    } else {
        match decoded_path(before_char(before_char(path, '?'), '#')) {
            Some(text) => Ok(without_slashes(text)),
            None => Err(400),
        }
    }
}

/// All characters as a string.
fn text_of(v: &Vec<char>) -> (s: String)
    ensures
        s@ == v@,
{
    let s = string_of(v, 0, v.len());
    assert(v@.subrange(0, v@.len() as int) =~= v@);
    s
}

/// Resolves a request to a path below the root.
pub fn resolve(req: &Request) -> (r: Result<String, u16>)
    ensures
        match r {
            Ok(path) => requested_path(req@.method, req@.path) == Ok::<Seq<char>, u16>(path@),
            Err(status) => requested_path(req@.method, req@.path) == Err::<Seq<char>, u16>(status),
        },
{
    let method: &str = req.method.as_str();
    if !same_text(method, "GET") && !same_text(method, "HEAD") {
        return Err(405);
    }
    let (without_query, _) = split_at_char(&chars_of(req.path.as_str()), '?');
    let (raw, _) = split_at_char(&without_query, '#');
    match percent_decode(text_of(&raw).as_str()) {
        Ok(decoded) => Ok(text_of(&cut_slashes(&chars_of(decoded.as_str())))),
        Err(_) => Err(400),
    }
}

/// A resolved path is relative: it does not start with a slash.
pub proof fn law_resolved_path_is_relative(method: Seq<char>, path: Seq<char>)
    ensures
        requested_path(method, path) matches Ok(p) ==> p.len() == 0 || p[0] != '/',
{
    if let Some(text) = decoded_path(before_char(before_char(path, '?'), '#')) {
        lemma_no_leading_slash(text);
    }
}

proof fn lemma_no_leading_slash(s: Seq<char>)
    ensures
        without_slashes(s).len() == 0 || without_slashes(s)[0] != '/',
    decreases s.len(),
{
    if s.len() > 0 && s[0] == '/' {
        lemma_no_leading_slash(s.drop_first());
    }
}

/// The components of a path, viewed.
pub open spec fn component_views(path: Seq<Vec<u8>>) -> Seq<Seq<u8>> {
    path.map_values(|c: Vec<u8>| c@)
}

/// The canonical path `target` is `root` or lies below it: its first components are
/// those of `root`.
pub open spec fn is_within(root: Seq<Seq<u8>>, target: Seq<Seq<u8>>) -> bool {
    root.len() <= target.len() && target.take(root.len() as int) == root
}

/// Whether two components are the same.
fn same_component(a: &Vec<u8>, b: &Vec<u8>) -> (r: bool)
    ensures
        r == (a@ == b@),
{
    if a.len() != b.len() {
        return false;
    }
    let mut i: usize = 0;
    while i < a.len()
        invariant
            i <= a@.len() == b@.len(),
            forall|j: int| 0 <= j < i ==> a@[j] == b@[j],
        decreases a.len() - i,
    {
        if a[i] != b[i] {
            return false;
        }
        i = i + 1;
    }
    assert(a@ =~= b@);
    true
}

/// Whether the canonical path `target` is `root` or lies below it. A path is given
/// by its components, so that it does not matter what separates them.
pub fn within_root(root: &Vec<Vec<u8>>, target: &Vec<Vec<u8>>) -> (r: bool)
    ensures
        r == is_within(component_views(root@), component_views(target@)),
{
    let n: usize = root.len();
    if target.len() < n {
        return false;
    }
    let ghost a = component_views(root@);
    let ghost b = component_views(target@);
    let mut i: usize = 0;
    while i < n
        invariant
            i <= n == root@.len(),
            n <= target@.len(),
            a == component_views(root@),
            b == component_views(target@),
            forall|j: int| 0 <= j < i ==> a[j] == b[j],
        decreases n - i,
    {
        assert(a[i as int] == root@[i as int]@ && b[i as int] == target@[i as int]@);
        if !same_component(&root[i], &target[i]) {
            assert(b.take(n as int)[i as int] != a[i as int]);
            return false;
        }
        i = i + 1;
    }
    assert(b.take(n as int) =~= a);
    true
}

/// A target inside the root is the root's path with further components behind it:
/// a sibling whose name only starts with the root's is outside.
pub proof fn law_within_root_is_below(root: Seq<Seq<u8>>, target: Seq<Seq<u8>>)
    ensures
        is_within(root, target) <==> exists|rest: Seq<Seq<u8>>| target == root + rest,
{
    if is_within(root, target) {
        assert(target =~= root + target.skip(root.len() as int));
    }
    assert forall|rest: Seq<Seq<u8>>| target == root + rest implies is_within(root, target) by {
        assert(target.take(root.len() as int) =~= root);
    }
}

/// Components as text, with slashes between them, as a URL has them.
pub open spec fn slashed(parts: Seq<Seq<u8>>) -> Seq<char>
    decreases parts.len(),
{
    if parts.len() == 0 {
        Seq::empty()
    } else if parts.len() == 1 {
        lossy_text(parts[0])
    } else {
        slashed(parts.drop_last()) + "/"@ + lossy_text(parts.last())
    }
}

/// The path of `target` below `root`.
pub open spec fn below_root(root: Seq<Seq<u8>>, target: Seq<Seq<u8>>) -> Seq<char> {
    slashed(target.skip(root.len() as int))
}

/// Writes the path of `target` below the root, which has `skip` components.
fn text_below(target: &Vec<Vec<u8>>, skip: usize) -> (r: String)
    requires
        skip <= target@.len(),
    ensures
        r@ == slashed(component_views(target@).skip(skip as int)),
{
    let ghost parts = component_views(target@).skip(skip as int);
    let mut out: String = String::new();
    let mut i: usize = skip;
    assert(parts.take(0) =~= Seq::empty());
    while i < target.len()
        invariant
            skip <= i <= target@.len(),
            parts == component_views(target@).skip(skip as int),
            out@ == slashed(parts.take(i - skip)),
        decreases target.len() - i,
    {
        let ghost front = parts.take(i - skip);
        let ghost next = parts.take(i - skip + 1);
        assert(next.drop_last() =~= front);
        assert(next.last() == target@[i as int]@);
        if i > skip {
            out.append("/");
        }
        let ghost before = out@;
        out.append(lossy(&target[i]).as_str());
        assert(out@ =~= before + lossy_text(target@[i as int]@));
        i = i + 1;
    }
    assert(parts.take(target@.len() - skip) =~= parts);
    out
}

/// The last component of a path as text.
pub open spec fn last_component(path: Seq<Seq<u8>>) -> Seq<char> {
    if path.len() == 0 {
        Seq::empty()
    } else {
        lossy_text(path.last())
    }
}

/// Takes the last component of a path as text.
fn last_name(path: &Vec<Vec<u8>>) -> (r: String)
    ensures
        r@ == last_component(component_views(path@)),
{
    if path.len() == 0 {
        String::new()
    } else {
        lossy(&path[path.len() - 1])
    }
}

// ---------------------------------------------------------------------------
// Content types
// ---------------------------------------------------------------------------

/// Where `c` stands last in `s`.
pub open spec fn last_index(s: Seq<char>, c: char) -> Option<int>
    decreases s.len(),
{
    if s.len() == 0 {
        None
    } else if s.last() == c {
        Some(s.len() - 1)
    } else {
        last_index(s.drop_last(), c)
    }
}

/// The last component of a path with slashes between its components, slashes and
/// `.` components at its end aside; nothing for the root and for `..`.
pub open spec fn file_name(path: Seq<char>) -> Option<Seq<char>>
    decreases path.len(),
{
    let n = path.len() as int;
    if n > 0 && path.last() == '/' {
        file_name(path.drop_last())
    } else if n > 1 && path.last() == '.' && path[n - 2] == '/' {
        file_name(path.take(n - 2))
    } else {
        let name = match last_index(path, '/') {
            Some(i) => path.skip(i + 1),
            None => path,
        };
        if name == ""@ || name == "."@ || name == ".."@ {
            None
        } else {
            Some(name)
        }
    }
}

/// What stands behind the last dot of a file's name, unless the name starts with
/// its only dot.
pub open spec fn extension(path: Seq<char>) -> Option<Seq<char>> {
    match file_name(path) {
        Some(name) => match last_index(name, '.') {
            Some(i) => if i > 0 {
                Some(name.skip(i + 1))
            } else {
                None
            },
            None => None,
        },
        None => None,
    }
}

/// The content type for an extension.
pub open spec fn content_type(ext: Option<Seq<char>>) -> Seq<char> {
    match ext {
        None => "application/octet-stream"@,
        Some(e) => if e == "html"@ || e == "htm"@ {
            "text/html; charset=utf-8"@
        } else if e == "css"@ {
            "text/css; charset=utf-8"@
        } else if e == "js"@ || e == "mjs"@ {
            "application/javascript; charset=utf-8"@
        } else if e == "json"@ {
            "application/json; charset=utf-8"@
        } else if e == "txt"@ || e == "md"@ {
            "text/plain; charset=utf-8"@
        } else if e == "png"@ {
            "image/png"@
        } else if e == "jpg"@ || e == "jpeg"@ {
            "image/jpeg"@
        } else if e == "gif"@ {
            "image/gif"@
        } else if e == "svg"@ {
            "image/svg+xml"@
        } else if e == "ico"@ {
            "image/x-icon"@
        } else if e == "pdf"@ {
            "application/pdf"@
        } else if e == "zip"@ {
            "application/zip"@
        } else if e == "wasm"@ {
            "application/wasm"@
        } else {
            "application/octet-stream"@
        },
    }
}

/// Finds where `c` stands last in `s[..end]`.
fn find_last(s: &Vec<char>, end: usize, c: char) -> (r: Option<usize>)
    requires
        end <= s@.len(),
    ensures
        match r {
            Some(i) => i < end && last_index(s@.take(end as int), c) == Some(i as int),
            None => last_index(s@.take(end as int), c) is None,
        },
{
    let mut i: usize = end;
    while i > 0
        invariant
            i <= end <= s@.len(),
            last_index(s@.take(end as int), c) == last_index(s@.take(i as int), c),
        decreases i,
    {
        assert(s@.take(i as int).drop_last() =~= s@.take(i - 1));
        if s[i - 1] == c {
            return Some(i - 1);
        }
        i = i - 1;
    }
    None
}

/// The extension of a path, which is one component or several with slashes between
/// them.
pub fn path_extension(path: &str) -> (r: Option<String>)
    ensures
        text_option(r) == extension(path@),
{
    let chars = chars_of(path);
    let mut end: usize = chars.len();
    assert(chars@.take(end as int) =~= chars@);
    while end > 0 && (chars[end - 1] == '/' || (end > 1 && chars[end - 1] == '.' && chars[end - 2]
        == '/'))
        invariant
            chars@ == path@,
            end <= chars@.len(),
            file_name(path@) == file_name(chars@.take(end as int)),
        decreases end,
    {
        let ghost head = chars@.take(end as int);
        if chars[end - 1] == '/' {
            assert(head.drop_last() =~= chars@.take(end - 1));
            end = end - 1;
        } else {
            assert(head.take(end - 2) =~= chars@.take(end - 2));
            end = end - 2;
        }
    }
    let ghost head = chars@.take(end as int);
    let start: usize = match find_last(&chars, end, '/') {
        Some(i) => i + 1,
        None => 0,
    };
    let name = string_of(&chars, start, end);
    assert(name@ =~= head.skip(start as int));
    if same_text(name.as_str(), "") || same_text(name.as_str(), ".") || same_text(
        name.as_str(),
        "..",
    ) {
        return None;
    }
    assert(file_name(path@) == Some(name@));
    let letters = chars_of(name.as_str());
    let len: usize = letters.len();
    assert(letters@.take(len as int) =~= letters@);
    match find_last(&letters, len, '.') {
        Some(i) => if i > 0 {
            let ext = string_of(&letters, i + 1, len);
            assert(ext@ =~= name@.skip(i + 1));
            Some(ext)
        } else {
            None
        },
        None => None,
    }
}

/// Guesses a file's content type by its extension. `path` is the file's name, or a
/// path with slashes between its components.
pub fn guess_content_type(path: &str) -> (r: &'static str)
    ensures
        r@ == content_type(extension(path@)),
{
    let ext = match path_extension(path) {
        Some(e) => e,
        None => {
            return "application/octet-stream";
        },
    };
    let e: &str = ext.as_str();
    if same_text(e, "html") || same_text(e, "htm") {
        "text/html; charset=utf-8"
    } else if same_text(e, "css") {
        "text/css; charset=utf-8"
    } else if same_text(e, "js") || same_text(e, "mjs") {
        "application/javascript; charset=utf-8"
    } else if same_text(e, "json") {
        "application/json; charset=utf-8"
    } else if same_text(e, "txt") || same_text(e, "md") {
        "text/plain; charset=utf-8"
    } else if same_text(e, "png") {
        "image/png"
    } else if same_text(e, "jpg") || same_text(e, "jpeg") {
        "image/jpeg"
    } else if same_text(e, "gif") {
        "image/gif"
    } else if same_text(e, "svg") {
        "image/svg+xml"
    } else if same_text(e, "ico") {
        "image/x-icon"
    } else if same_text(e, "pdf") {
        "application/pdf"
    } else if same_text(e, "zip") {
        "application/zip"
    } else if same_text(e, "wasm") {
        "application/wasm"
    } else {
        "application/octet-stream"
    }
}

// ---------------------------------------------------------------------------
// Responses
// ---------------------------------------------------------------------------

/// A response.
#[derive(Debug)]
pub struct Response {
    pub status: u16,
    pub status_text: &'static str,
    pub headers: Vec<(String, String)>,
    pub body: Vec<u8>,
}

/// What a [`Response`] stands for.
#[verifier::ext_equal]
pub struct ResponseView {
    pub status: u16,
    pub status_text: Seq<char>,
    pub headers: Seq<(Seq<char>, Seq<char>)>,
    pub body: Seq<u8>,
}

/// Views a list of headers.
pub open spec fn header_views(headers: Seq<(String, String)>) -> Seq<(Seq<char>, Seq<char>)> {
    headers.map_values(|h: (String, String)| (h.0@, h.1@))
}

impl View for Response {
    type V = ResponseView;

    open spec fn view(&self) -> ResponseView {
        ResponseView {
            status: self.status,
            status_text: self.status_text@,
            headers: header_views(self.headers@),
            body: self.body@,
        }
    }
}

/// A response with the three headers that every one has. The length is that of
/// the content; a HEAD request is not sent the content itself.
pub open spec fn response(
    status: u16,
    status_text: Seq<char>,
    content_type: Seq<char>,
    content_length: nat,
    keep_alive: bool,
    body: Seq<u8>,
) -> ResponseView {
    ResponseView {
        status,
        status_text,
        headers: seq![
            ("Content-Type"@, content_type),
            ("Content-Length"@, decimal(content_length)),
            (
                "Connection"@,
                if keep_alive {
                    "keep-alive"@
                } else {
                    "close"@
                },
            ),
        ],
        body,
    }
}

/// Makes a response with its three headers.
fn make_response(
    status: u16,
    status_text: &'static str,
    content_type: &str,
    content_length: usize,
    keep_alive: bool,
    body: Vec<u8>,
) -> (r: Response)
    ensures
        r@ == response(
            status,
            status_text@,
            content_type@,
            content_length as nat,
            keep_alive,
            body@,
        ),
{
    let connection = if keep_alive {
        "keep-alive"
    } else {
        "close"
    };
    let mut headers: Vec<(String, String)> = Vec::new();
    headers.push(("Content-Type".to_owned(), content_type.to_owned()));
    headers.push(("Content-Length".to_owned(), decimal_text(content_length as u64)));
    headers.push(("Connection".to_owned(), connection.to_owned()));
    let r = Response { status, status_text, headers, body };
    assert(r@ =~= response(
        status,
        status_text@,
        content_type@,
        content_length as nat,
        keep_alive,
        body@,
    ));
    r
}

/// The reason phrase of an error status.
pub open spec fn reason_phrase(status: u16) -> Seq<char> {
    if status == 400 {
        "Bad Request"@
    } else if status == 403 {
        "Forbidden"@
    } else if status == 404 {
        "Not Found"@
    } else if status == 405 {
        "Method Not Allowed"@
    } else if status == 500 {
        "Internal Server Error"@
    } else {
        "Error"@
    }
}

/// The text that an error status is explained with.
pub open spec fn error_text(status: u16) -> Seq<char> {
    if status == 400 {
        "400 Bad Request\n"@
    } else if status == 403 {
        "403 Forbidden\n"@
    } else if status == 404 {
        "404 Not Found\n"@
    } else if status == 405 {
        "405 Method Not Allowed\n"@
    } else if status == 500 {
        "500 Internal Server Error\n"@
    } else {
        "Error\n"@
    }
}

/// The response to a request that failed with a status. A HEAD request gets no
/// body, and no length either.
pub open spec fn error_view(status: u16, method: Seq<char>, keep_alive: bool) -> ResponseView {
    let body = if method == "HEAD"@ {
        Seq::empty()
    } else {
        encode_utf8(error_text(status))
    };
    response(
        status,
        reason_phrase(status),
        "text/plain; charset=utf-8"@,
        body.len(),
        keep_alive,
        body,
    )
}

/// Makes the response to a request that failed with a status.
pub fn error_response(status: u16, method: &str, keep_alive: bool) -> (r: Response)
    ensures
        r@ == error_view(status, method@, keep_alive),
{
    let (phrase, text): (&'static str, &'static str) = if status == 400 {
        ("Bad Request", "400 Bad Request\n")
    } else if status == 403 {
        ("Forbidden", "403 Forbidden\n")
    } else if status == 404 {
        ("Not Found", "404 Not Found\n")
    } else if status == 405 {
        ("Method Not Allowed", "405 Method Not Allowed\n")
    } else if status == 500 {
        ("Internal Server Error", "500 Internal Server Error\n")
    } else {
        ("Error", "Error\n")
    };
    let body: Vec<u8> = if same_text(method, "HEAD") {
        Vec::new()
    } else {
        vstd::slice::slice_to_vec(text.as_bytes())
    };
    let len: usize = body.len();
    make_response(status, phrase, "text/plain; charset=utf-8", len, keep_alive, body)
}

/// What was found at a target.
#[derive(Debug)]
pub enum Content {
    /// Nothing is known of it.
    Unknown,
    /// A directory, with its children where they could be read and were needed.
    Directory(Option<Vec<ListingEntry>>),
    /// A file, with its content where it could be read.
    File(Option<Vec<u8>>),
}

/// What was found on disk for a requested path.
#[derive(Debug)]
pub enum Lookup {
    /// The root directory has no canonical path.
    NoRoot,
    /// The path below the root has no canonical path.
    NoTarget,
    /// The canonical paths of root and target, each by its components, and what the
    /// target is.
    Target { root: Vec<Vec<u8>>, target: Vec<Vec<u8>>, content: Content },
}

/// The response to a request with a good path, by what was found there, or the
/// status of the failure.
pub open spec fn found_view(allow_listing: bool, req: RequestView, lookup: Lookup) -> Result<
    ResponseView,
    u16,
> {
    match lookup {
        Lookup::NoRoot => Err(500),
        Lookup::NoTarget => Err(404),
        Lookup::Target { root, target, content } => if !is_within(
            component_views(root@),
            component_views(target@),
        ) {
            Err(403)
        } else {
            match content {
                Content::Unknown => Err(404),
                Content::Directory(children) => if !allow_listing {
                    Err(403)
                } else {
                    match children {
                        Some(entries) => {
                            let page = encode_utf8(
                                listing_page(
                                    below_root(component_views(root@), component_views(target@)),
                                    entry_views(entries@),
                                ),
                            );
                            Ok(
                                response(
                                    200,
                                    "OK"@,
                                    "text/html; charset=utf-8"@,
                                    page.len(),
                                    req.keep_alive,
                                    if req.method == "HEAD"@ {
                                        Seq::empty()
                                    } else {
                                        page
                                    },
                                ),
                            )
                        },
                        None => Err(500),
                    }
                },
                Content::File(bytes) => match bytes {
                    Some(body) => Ok(
                        response(
                            200,
                            "OK"@,
                            content_type(extension(last_component(component_views(target@)))),
                            body@.len(),
                            req.keep_alive,
                            if req.method == "HEAD"@ {
                                Seq::empty()
                            } else {
                                body@
                            },
                        ),
                    ),
                    None => Err(404),
                },
            }
        },
    }
}

/// The response to a request, or the status of the failure.
pub open spec fn built_view(allow_listing: bool, req: RequestView, lookup: Lookup) -> Result<
    ResponseView,
    u16,
> {
    match requested_path(req.method, req.path) {
        Ok(_) => found_view(allow_listing, req, lookup),
        Err(status) => Err(status),
    }
}

/// The response that is sent: the one that was built, or that of the failure.
pub open spec fn served_view(allow_listing: bool, req: RequestView, lookup: Lookup) -> ResponseView {
    match built_view(allow_listing, req, lookup) {
        Ok(r) => r,
        Err(status) => error_view(status, req.method, req.keep_alive),
    }
}

/// A result that holds a response, with the response viewed.
pub open spec fn response_result(r: Result<Response, u16>) -> Result<ResponseView, u16> {
    match r {
        Ok(x) => Ok(x@),
        Err(status) => Err(status),
    }
}

/// A successful response whose body a HEAD request is not sent.
fn ok_response(req: &Request, content_type: &str, content: Vec<u8>) -> (r: Response)
    ensures
        r@ == response(
            200,
            "OK"@,
            content_type@,
            content@.len(),
            req.keep_alive,
            if req.method@ == "HEAD"@ {
                Seq::empty()
            } else {
                content@
            },
        ),
{
    let len: usize = content.len();
    let body: Vec<u8> = if same_text(req.method.as_str(), "HEAD") {
        Vec::new()
    } else {
        content
    };
    make_response(200, "OK", content_type, len, req.keep_alive, body)
}

/// Builds the response to a request by what was found for its path.
pub fn build_response(spec: &StaticSpec, req: &Request, lookup: Lookup) -> (r: Result<
    Response,
    u16,
>)
    ensures
        response_result(r) == built_view(spec.allow_directory_listing, req@, lookup),
{
    if let Err(status) = resolve(req) {
        return Err(status);
    }
    match lookup {
        Lookup::NoRoot => Err(500),
        Lookup::NoTarget => Err(404),
        Lookup::Target { root, target, content } => {
            if !within_root(&root, &target) {
                return Err(403);
            }
            match content {
                Content::Unknown => Err(404),
                Content::Directory(children) => {
                    if !spec.allow_directory_listing {
                        return Err(403);
                    }
                    match children {
                        Some(entries) => {
                            let below = text_below(&target, root.len());
                            let page = render_directory_listing(below.as_str(), &entries);
                            let bytes = vstd::slice::slice_to_vec(page.as_str().as_bytes());
                            Ok(ok_response(req, "text/html; charset=utf-8", bytes))
                        },
                        None => Err(500),
                    }
                },
                Content::File(bytes) => match bytes {
                    Some(body) => Ok(
                        ok_response(req, guess_content_type(last_name(&target).as_str()), body),
                    ),
                    None => Err(404),
                },
            }
        },
    }
}

/// The header lines of a response.
pub open spec fn header_text(headers: Seq<(Seq<char>, Seq<char>)>) -> Seq<char>
    decreases headers.len(),
{
    if headers.len() == 0 {
        Seq::empty()
    } else {
        header_text(headers.drop_last()) + headers.last().0 + ": "@ + headers.last().1 + "\r\n"@
    }
}

/// A response as it is written to the stream.
pub open spec fn response_bytes(r: ResponseView) -> Seq<u8> {
    encode_utf8(
        "HTTP/1.1 "@ + decimal(r.status as nat) + " "@ + r.status_text + "\r\n"@ + header_text(
            r.headers,
        ) + "\r\n"@,
    ) + r.body
}

impl Response {
    /// This response as it is written to the stream.
    pub fn encode(&self) -> (bytes: Vec<u8>)
        ensures
            bytes@ == response_bytes(self@),
    {
        let mut lines: String = String::new();
        let mut i: usize = 0;
        let ghost all = header_views(self.headers@);
        assert(all.take(0) =~= Seq::empty());
        while i < self.headers.len()
            invariant
                i <= self.headers@.len(),
                all == header_views(self.headers@),
                lines@ == header_text(all.take(i as int)),
            decreases self.headers.len() - i,
        {
            assert(all.take(i + 1).drop_last() =~= all.take(i as int));
            assert(all.take(i + 1).last() == (
                self.headers@[i as int].0@,
                self.headers@[i as int].1@,
            ));
            lines.append(self.headers[i].0.as_str());
            lines.append(": ");
            lines.append(self.headers[i].1.as_str());
            lines.append("\r\n");
            i = i + 1;
        }
        assert(all.take(all.len() as int) =~= all);
        let head = "HTTP/1.1 ".to_owned().concat(decimal_text(self.status as u64).as_str()).concat(
            " ",
        ).concat(self.status_text).concat("\r\n").concat(lines.as_str()).concat("\r\n");
        let mut bytes = vstd::slice::slice_to_vec(head.as_str().as_bytes());
        bytes.extend_from_slice(self.body.as_slice());
        assert(bytes@ =~= response_bytes(self@));
        bytes
    }
}

impl StaticHandler {
    /// Answers a request by what was found for its path, and tells whether to
    /// read another one.
    pub fn serve_one(&self, req: &Request, lookup: Lookup) -> (r: (Response, bool))
        ensures
            r.0@ == served_view(self.spec.allow_directory_listing, req@, lookup),
            r.1 == req@.keep_alive,
    {
        match build_response(&self.spec, req, lookup) {
            Ok(response) => (response, req.keep_alive),
            Err(status) => (
                error_response(status, req.method.as_str(), req.keep_alive),
                req.keep_alive,
            ),
        }
    }
}

/// Nothing outside the root is served: the answer is 403, whatever is there.
pub proof fn law_outside_the_root_is_forbidden(
    allow_listing: bool,
    req: RequestView,
    lookup: Lookup,
)
    requires
        requested_path(req.method, req.path) is Ok,
        lookup matches Lookup::Target { root, target, .. } && !is_within(
            component_views(root@),
            component_views(target@),
        ),
    ensures
        built_view(allow_listing, req, lookup) == Err::<ResponseView, u16>(403),
{
}

/// Only GET and HEAD are served: the answer to any other method is 405.
pub proof fn law_other_methods_are_not_allowed(
    allow_listing: bool,
    req: RequestView,
    lookup: Lookup,
)
    requires
        req.method != "GET"@,
        req.method != "HEAD"@,
    ensures
        built_view(allow_listing, req, lookup) == Err::<ResponseView, u16>(405),
{
}

/// A directory is listed only where that is allowed.
pub proof fn law_listing_must_be_allowed(req: RequestView, lookup: Lookup)
    requires
        lookup matches Lookup::Target { content: Content::Directory(_), .. },
    ensures
        built_view(false, req, lookup) is Err,
{
}

/// HEAD is GET without the body: the status and the headers are the same, the
/// length included.
pub proof fn law_head_is_get_without_body(
    allow_listing: bool,
    path: Seq<char>,
    keep_alive: bool,
    lookup: Lookup,
)
    ensures
        ({
            let get = built_view(
                allow_listing,
                RequestView { method: "GET"@, path, keep_alive },
                lookup,
            );
            let head = built_view(
                allow_listing,
                RequestView { method: "HEAD"@, path, keep_alive },
                lookup,
            );
            match get {
                Ok(g) => head matches Ok(h) && h.body.len() == 0 && h.status == g.status
                    && h.status_text == g.status_text && h.headers == g.headers
                    && g.headers[1] == ("Content-Length"@, decimal(g.body.len())),
                Err(status) => head == Err::<ResponseView, u16>(status),
            }
        }),
{
    reveal_strlit("GET");
    reveal_strlit("HEAD");
    assert("GET"@.len() != "HEAD"@.len());
}

/// The target lies inside the root: the components of the root are its first ones.
/// Such a file is served whole to GET: the status is 200, the body is the content, and
/// the length is that of the content. HEAD is told the same length.
pub proof fn law_file_is_served_whole(
    allow_listing: bool,
    req: RequestView,
    root: Vec<Vec<u8>>,
    target: Vec<Vec<u8>>,
    content: Vec<u8>,
)
    requires
        req.method == "GET"@ || req.method == "HEAD"@,
        decoded_path(before_char(before_char(req.path, '?'), '#')) is Some,
        root@.len() <= target@.len(),
        forall|i: int| 0 <= i < root@.len() ==> (#[trigger] root@[i])@ == target@[i]@,
    ensures
        ({
            let lookup = Lookup::Target { root, target, content: Content::File(Some(content)) };
            let r = served_view(allow_listing, req, lookup);
            &&& built_view(allow_listing, req, lookup) == Ok::<ResponseView, u16>(r)
            &&& r.status == 200
            &&& r.status_text == "OK"@
            &&& req.method == "GET"@ ==> r.body == content@
            &&& req.method == "HEAD"@ ==> r.body.len() == 0
            &&& r.headers.len() == 3
            &&& r.headers[0].0 == "Content-Type"@
            &&& target@.len() > 0 ==> r.headers[0].1 == content_type(
                extension(lossy_text(target@.last()@)),
            )
            &&& r.headers[1] == ("Content-Length"@, decimal(content@.len()))
            &&& req.keep_alive ==> r.headers[2] == ("Connection"@, "keep-alive"@)
            &&& !req.keep_alive ==> r.headers[2] == ("Connection"@, "close"@)
        }),
{
    reveal_strlit("GET");
    reveal_strlit("HEAD");
    assert("GET"@.len() != "HEAD"@.len());
    assert(component_views(target@).take(root@.len() as int) =~= component_views(root@));
    assert(component_views(target@).len() == target@.len());
}

/// A directory inside the root is listed where that is allowed: the status is 200, the
/// body is the page that lists its children under the target's path below the root,
/// and the length is that of the page. HEAD is told the same length.
pub proof fn law_directory_is_listed(
    req: RequestView,
    root: Vec<Vec<u8>>,
    target: Vec<Vec<u8>>,
    children: Vec<ListingEntry>,
)
    requires
        req.method == "GET"@ || req.method == "HEAD"@,
        decoded_path(before_char(before_char(req.path, '?'), '#')) is Some,
        root@.len() <= target@.len(),
        forall|i: int| 0 <= i < root@.len() ==> (#[trigger] root@[i])@ == target@[i]@,
    ensures
        ({
            let lookup = Lookup::Target {
                root,
                target,
                content: Content::Directory(Some(children)),
            };
            let below = target@.skip(root@.len() as int).map_values(|c: Vec<u8>| c@);
            let page = encode_utf8(listing_page(slashed(below), entry_views(children@)));
            let r = served_view(true, req, lookup);
            &&& built_view(true, req, lookup) == Ok::<ResponseView, u16>(r)
            &&& r.status == 200
            &&& r.status_text == "OK"@
            &&& req.method == "GET"@ ==> r.body == page
            &&& req.method == "HEAD"@ ==> r.body.len() == 0
            &&& r.headers.len() == 3
            &&& r.headers[0] == ("Content-Type"@, "text/html; charset=utf-8"@)
            &&& r.headers[1] == ("Content-Length"@, decimal(page.len()))
            &&& req.keep_alive ==> r.headers[2] == ("Connection"@, "keep-alive"@)
            &&& !req.keep_alive ==> r.headers[2] == ("Connection"@, "close"@)
        }),
{
    reveal_strlit("GET");
    reveal_strlit("HEAD");
    assert("GET"@.len() != "HEAD"@.len());
    assert(component_views(target@).take(root@.len() as int) =~= component_views(root@));
    assert(component_views(target@).skip(root@.len() as int) =~= target@.skip(
        root@.len() as int,
    ).map_values(|c: Vec<u8>| c@));
}

/// Every failure has its status, whatever the request: 405 for another method, 400 for
/// a path that cannot be decoded, 500 for a root that is missing and for a directory
/// that cannot be read, 403 for what lies outside the root and for a listing that is
/// not allowed, and 404 for what is not there or cannot be read.
pub proof fn law_failures_have_their_status(
    allow_listing: bool,
    req: RequestView,
    lookup: Lookup,
)
    ensures
        ({
            let built = built_view(allow_listing, req, lookup);
            let served = served_view(allow_listing, req, lookup);
            let good = (req.method == "GET"@ || req.method == "HEAD"@) && decoded_path(
                before_char(before_char(req.path, '?'), '#'),
            ) is Some;
            &&& req.method != "GET"@ && req.method != "HEAD"@ ==> built == Err::<
                ResponseView,
                u16,
            >(405)
            &&& (req.method == "GET"@ || req.method == "HEAD"@) && !good ==> built == Err::<
                ResponseView,
                u16,
            >(400)
            &&& good ==> match lookup {
                Lookup::NoRoot => built == Err::<ResponseView, u16>(500),
                Lookup::NoTarget => built == Err::<ResponseView, u16>(404),
                Lookup::Target { root, target, content } => {
                    if root@.len() > target@.len() || exists|i: int|
                        0 <= i < root@.len() && (#[trigger] root@[i])@ != target@[i]@ {
                        built == Err::<ResponseView, u16>(403)
                    } else {
                        match content {
                            Content::Unknown => built == Err::<ResponseView, u16>(404),
                            Content::File(None) => built == Err::<ResponseView, u16>(404),
                            Content::File(Some(_)) => built is Ok,
                            Content::Directory(children) => if !allow_listing {
                                built == Err::<ResponseView, u16>(403)
                            } else {
                                &&& children is None ==> built == Err::<ResponseView, u16>(500)
                                &&& children is Some ==> built is Ok
                            },
                        }
                    }
                },
            }
            &&& match built {
                Ok(r) => served == r && r.status == 200,
                Err(status) => served.status == status,
            }
        }),
{
    if let Lookup::Target { root, target, content } = lookup {
        let a = component_views(root@);
        let b = component_views(target@);
        if root@.len() <= target@.len() {
            if is_within(a, b) {
                assert forall|i: int| 0 <= i < root@.len() implies (#[trigger] root@[i])@
                    == target@[i]@ by {
                    assert(b.take(a.len() as int)[i] == a[i]);
                }
            } else if forall|i: int| 0 <= i < root@.len() ==> (#[trigger] root@[i])@ == target@[i]@ {
                assert(b.take(a.len() as int) =~= a);
            }
        }
    }
}

/// A failure is explained in plain text, which is the status, its reason phrase and a
/// line end. HEAD gets no text and a length of 0.
pub proof fn law_failures_are_explained(status: u16, method: Seq<char>, keep_alive: bool)
    ensures
        ({
            let r = error_view(status, method, keep_alive);
            let known = status == 400 || status == 403 || status == 404 || status == 405 || status
                == 500;
            &&& r.status == status
            &&& known ==> error_text(status) == decimal(status as nat) + " "@ + r.status_text
                + "\n"@
            &&& method != "HEAD"@ ==> r.body == encode_utf8(error_text(status))
            &&& method == "HEAD"@ ==> r.body.len() == 0
            &&& r.headers.len() == 3
            &&& r.headers[0] == ("Content-Type"@, "text/plain; charset=utf-8"@)
            &&& r.headers[1] == ("Content-Length"@, decimal(r.body.len()))
            &&& r.headers[2].0 == "Connection"@
            &&& r.headers[2].1 == if keep_alive {
                "keep-alive"@
            } else {
                "close"@
            }
            &&& status == 400 ==> r.status_text == "Bad Request"@
            &&& status == 403 ==> r.status_text == "Forbidden"@
            &&& status == 404 ==> r.status_text == "Not Found"@
            &&& status == 405 ==> r.status_text == "Method Not Allowed"@
            &&& status == 500 ==> r.status_text == "Internal Server Error"@
            &&& !known ==> r.status_text == "Error"@ && error_text(status) == "Error\n"@
        }),
{
    reveal_strlit("400 Bad Request\n");
    reveal_strlit("403 Forbidden\n");
    reveal_strlit("404 Not Found\n");
    reveal_strlit("405 Method Not Allowed\n");
    reveal_strlit("500 Internal Server Error\n");
    reveal_strlit("Bad Request");
    reveal_strlit("Forbidden");
    reveal_strlit("Not Found");
    reveal_strlit("Method Not Allowed");
    reveal_strlit("Internal Server Error");
    reveal_strlit(" ");
    reveal_strlit("\n");
    if status == 400 || status == 403 || status == 404 || status == 405 || status == 500 {
        let n = status as nat;
        reveal_with_fuel(decimal, 3);
        assert(decimal(n) =~= seq![
            crate::text::digit(n / 100),
            crate::text::digit((n / 10) % 10),
            crate::text::digit(n % 10),
        ]);
        assert(error_text(status) =~= decimal(n) + " "@ + reason_phrase(status) + "\n"@);
    }
}

/// On the stream a response is the status line, a line per header, an empty line and
/// the body.
pub proof fn law_response_on_the_stream(
    r: ResponseView,
    a: (Seq<char>, Seq<char>),
    b: (Seq<char>, Seq<char>),
    c: (Seq<char>, Seq<char>),
    more: Seq<(Seq<char>, Seq<char>)>,
)
    ensures
        r.headers == seq![a, b, c] ==> response_bytes(r) == encode_utf8(
            "HTTP/1.1 "@ + decimal(r.status as nat) + " "@ + r.status_text + "\r\n"@ + (a.0 + ": "@
                + a.1 + "\r\n"@ + b.0 + ": "@ + b.1 + "\r\n"@ + c.0 + ": "@ + c.1 + "\r\n"@)
                + "\r\n"@,
        ) + r.body,
        header_text(more.push(a)) == header_text(more) + (a.0 + ": "@ + a.1 + "\r\n"@),
        header_text(Seq::<(Seq<char>, Seq<char>)>::empty()).len() == 0,
{
    reveal_with_fuel(header_text, 4);
    let all = seq![a, b, c];
    assert(all.drop_last() =~= seq![a, b]);
    assert(seq![a, b].drop_last() =~= seq![a]);
    assert(seq![a].drop_last() =~= Seq::empty());
    assert(more.push(a).drop_last() =~= more);
    assert(header_text(more.push(a)) =~= header_text(more) + (a.0 + ": "@ + a.1 + "\r\n"@));
    assert(header_text(all) =~= a.0 + ": "@ + a.1 + "\r\n"@ + b.0 + ": "@ + b.1 + "\r\n"@ + c.0
        + ": "@ + c.1 + "\r\n"@);
}

/// A path is decoded piece by piece.
pub proof fn law_paths_are_decoded_piece_by_piece(a: Seq<u8>, b: Seq<u8>)
    requires
        percent_decoded(a) is Some,
    ensures
        percent_decoded(a + b) == match percent_decoded(b) {
            Some(rest) => Some(percent_decoded(a)->0 + rest),
            None => None,
        },
    decreases a.len(),
{
    let s = a + b;
    if a.len() == 0 {
        assert(s =~= b);
        if let Some(rest) = percent_decoded(b) {
            assert(percent_decoded(a)->0 + rest =~= rest);
        }
    } else {
        assert(s[0] == a[0]);
        let n: int = if a[0] == 37 {
            3
        } else {
            1
        };
        if n == 3 {
            assert(s[1] == a[1] && s[2] == a[2]);
        }
        assert(s.skip(n) =~= a.skip(n) + b);
        law_paths_are_decoded_piece_by_piece(a.skip(n), b);
        if let Some(rest) = percent_decoded(b) {
            let first = percent_decoded(a)->0.take(1);
            let tail = percent_decoded(a.skip(n))->0;
            assert(percent_decoded(a)->0 =~= first + tail);
            assert(percent_decoded(s)->0 =~= first + (tail + rest));
            assert(first + (tail + rest) =~= percent_decoded(a)->0 + rest);
        }
    }
}

/// Every byte is decoded from its two hex digits in either case behind a percent sign;
/// a plus sign is a blank and any other byte itself. A percent sign without two hex
/// digits behind it is refused.
pub proof fn law_escapes_stand_for_bytes(v: u8, high: u8, low: u8, b: u8, tail: Seq<u8>)
    ensures
        ({
            let upper = |d: int|
                if d < 10 {
                    48 + d
                } else {
                    55 + d
                };
            let lower = |d: int|
                if d < 10 {
                    48 + d
                } else {
                    87 + d
                };
            (high == upper(v as int / 16) || high == lower(v as int / 16)) && (low == upper(
                v as int % 16,
            ) || low == lower(v as int % 16)) ==> percent_decoded(seq![37u8, high, low])
                == Some(seq![v])
        }),
        percent_decoded(Seq::<u8>::empty()) == Some(Seq::<u8>::empty()),
        percent_decoded(seq![43u8]) == Some(seq![32u8]),
        b != 37 && b != 43 ==> percent_decoded(seq![b]) == Some(seq![b]),
        percent_decoded(seq![37u8]) is None,
        percent_decoded(seq![37u8, b]) is None,
        !(48 <= b <= 57 || 65 <= b <= 70 || 97 <= b <= 102) ==> percent_decoded(
            seq![37u8, b, low] + tail,
        ) is None && percent_decoded(seq![37u8, high, b] + tail) is None,
{
    reveal_with_fuel(percent_decoded, 2);
    assert(seq![37u8, high, low].skip(3) =~= Seq::empty());
    assert(seq![43u8].skip(1) =~= Seq::empty());
    assert(seq![b].skip(1) =~= Seq::empty());
    assert(seq![32u8] + Seq::empty() =~= seq![32u8]);
    assert(seq![b] + Seq::empty() =~= seq![b]);
    assert(seq![v] + Seq::empty() =~= seq![v]);
    assert((seq![37u8, b, low] + tail)[1] == b);
    assert((seq![37u8, high, b] + tail)[2] == b);
    assert((seq![37u8, b, low] + tail)[0] == 37);
    assert((seq![37u8, high, b] + tail)[0] == 37);
}

/// A request asks for its path, decoded and without the slashes in front, whatever the
/// query and the fragment are.
pub proof fn law_request_asks_for_its_path(
    method: Seq<char>,
    path: Seq<char>,
    more: Seq<char>,
    slashes: Seq<char>,
    text: Seq<char>,
)
    requires
        method == "GET"@ || method == "HEAD"@,
        forall|i: int| 0 <= i < path.len() ==> #[trigger] path[i] != '?' && path[i] != '#',
        forall|i: int| 0 <= i < slashes.len() ==> #[trigger] slashes[i] == '/',
        text.len() > 0 ==> text[0] != '/',
    ensures
        requested_path(method, path + seq!['?'] + more) == requested_path(method, path),
        requested_path(method, path + seq!['#'] + more) == requested_path(method, path),
        decoded_path(path) == Some(slashes + text) ==> requested_path(method, path) == Ok::<
            Seq<char>,
            u16,
        >(text),
        decoded_path(path) is None ==> requested_path(method, path) == Err::<Seq<char>, u16>(400),
{
    crate::scan::law_text_is_cut_at_the_first_mark(path, '?', more);
    crate::scan::law_text_is_cut_at_the_first_mark(path, '#', more);
    crate::scan::law_slashes_are_cut_off(slashes, text);
    let with_fragment = path + seq!['#'] + more;
    crate::scan::lemma_char_index(with_fragment, '?');
    if let Some(i) = crate::scan::char_index(with_fragment, '?') {
        if i < path.len() {
            assert(with_fragment[i] == path[i]);
        }
        let kept = with_fragment.take(i);
        let rest = more.take(i - path.len() - 1);
        assert(i > path.len()) by {
            assert(with_fragment[path.len() as int] == '#');
        }
        assert(kept =~= path + seq!['#'] + rest);
        crate::scan::law_text_is_cut_at_the_first_mark(path, '#', rest);
    }
}

proof fn lemma_last_index(front: Seq<char>, c: char, back: Seq<char>)
    requires
        forall|i: int| 0 <= i < back.len() ==> #[trigger] back[i] != c,
    ensures
        last_index(front + seq![c] + back, c) == Some(front.len() as int),
        last_index(back, c) is None,
    decreases back.len(),
{
    let s = front + seq![c] + back;
    if back.len() > 0 {
        assert(s.drop_last() =~= front + seq![c] + back.drop_last());
        assert(s.last() == back[back.len() - 1]);
        assert forall|i: int| 0 <= i < back.drop_last().len() implies #[trigger] back.drop_last()[i]
            != c by {
            assert(back.drop_last()[i] == back[i]);
        }
        lemma_last_index(front, c, back.drop_last());
    } else {
        assert(s.last() == c);
    }
}

proof fn lemma_file_name(dir: Seq<char>, name: Seq<char>)
    requires
        name.len() > 0,
        name != "."@,
        name != ".."@,
        forall|i: int| 0 <= i < name.len() ==> #[trigger] name[i] != '/',
    ensures
        file_name(name) == Some(name),
        file_name(dir + seq!['/'] + name) == Some(name),
{
    reveal_strlit("");
    reveal_strlit(".");
    let n = name.len() as int;
    let path = dir + seq!['/'] + name;
    lemma_last_index(dir, '/', name);
    assert(name != ""@) by {
        assert(""@.len() == 0);
    }
    assert(name.last() == name[n - 1]);
    assert(path.last() == name[n - 1]);
    assert(path.skip(dir.len() as int + 1) =~= name);
    if n > 1 {
        assert(name[n - 2] != '/');
        assert(path[path.len() - 2] == name[n - 2]);
    } else if name[0] == '.' {
        assert(name =~= "."@);
    }
}

/// The extension of a file's name is what stands behind its last dot, where something
/// stands before that dot; a name without a dot has none. The directories before the
/// name do not matter.
pub proof fn law_extension_is_behind_the_last_dot(
    dir: Seq<char>,
    stem: Seq<char>,
    ext: Seq<char>,
    plain: Seq<char>,
)
    requires
        stem.len() > 0,
        stem + ext != "."@,
        forall|i: int| 0 <= i < stem.len() ==> #[trigger] stem[i] != '/',
        forall|i: int| 0 <= i < ext.len() ==> #[trigger] ext[i] != '/' && ext[i] != '.',
        forall|i: int| 0 <= i < plain.len() ==> #[trigger] plain[i] != '/' && plain[i] != '.',
    ensures
        extension(stem + seq!['.'] + ext) == Some(ext),
        extension(dir + seq!['/'] + (stem + seq!['.'] + ext)) == Some(ext),
        extension(plain) is None,
        extension(seq!['.'] + plain) is None,
{
    reveal_strlit(".");
    reveal_strlit("..");
    let name = stem + seq!['.'] + ext;
    assert(name != "."@ && name != ".."@) by {
        assert(name.len() >= 2);
        if name == ".."@ {
            assert(stem[0] == name[0]);
            assert(stem =~= "."@ && ext =~= Seq::empty());
            assert(stem + ext =~= "."@);
        }
    }
    assert forall|i: int| 0 <= i < name.len() implies #[trigger] name[i] != '/' by {
        if i < stem.len() {
            assert(name[i] == stem[i]);
        } else if i > stem.len() {
            assert(name[i] == ext[i - stem.len() - 1]);
        }
    }
    lemma_file_name(dir, name);
    lemma_last_index(stem, '.', ext);
    assert(name.skip(stem.len() as int + 1) =~= ext);
    lemma_no_extension(plain);
}

proof fn lemma_no_extension(plain: Seq<char>)
    requires
        forall|i: int| 0 <= i < plain.len() ==> #[trigger] plain[i] != '/' && plain[i] != '.',
    ensures
        extension(plain) is None,
        extension(seq!['.'] + plain) is None,
{
    reveal_strlit("");
    reveal_strlit(".");
    reveal_strlit("..");
    let none = Seq::<char>::empty();
    let hidden = seq!['.'] + plain;
    assert(none + seq!['.'] + plain =~= hidden);
    lemma_last_index(none, '.', plain);
    if plain.len() > 0 {
        assert(plain[0] != '.');
        assert(plain != "."@ && plain != ".."@) by {
            assert("."@[0] == '.' && ".."@[0] == '.');
        }
        assert(hidden[1] == plain[0]);
        assert(hidden != "."@ && hidden != ".."@) by {
            assert("."@.len() == 1 && ".."@[1] == '.');
        }
        assert forall|i: int| 0 <= i < hidden.len() implies #[trigger] hidden[i] != '/' by {
            if i > 0 {
                assert(hidden[i] == plain[i - 1]);
            }
        }
        lemma_file_name(none, plain);
        lemma_file_name(none, hidden);
    } else {
        assert(plain =~= none);
        assert(hidden =~= "."@);
        lemma_last_index(none, '/', none);
        lemma_last_index(none, '/', hidden);
        assert(""@ =~= none);
        assert(file_name(plain) is None);
        assert(file_name(hidden) is None);
    }
}

/// The content types that are known by their extensions; all else is a stream of
/// bytes.
pub proof fn law_content_types(ext: Option<Seq<char>>)
    ensures
        content_type(Some("html"@)) == "text/html; charset=utf-8"@,
        content_type(Some("htm"@)) == "text/html; charset=utf-8"@,
        content_type(Some("css"@)) == "text/css; charset=utf-8"@,
        content_type(Some("js"@)) == "application/javascript; charset=utf-8"@,
        content_type(Some("mjs"@)) == "application/javascript; charset=utf-8"@,
        content_type(Some("json"@)) == "application/json; charset=utf-8"@,
        content_type(Some("txt"@)) == "text/plain; charset=utf-8"@,
        content_type(Some("md"@)) == "text/plain; charset=utf-8"@,
        content_type(Some("png"@)) == "image/png"@,
        content_type(Some("jpg"@)) == "image/jpeg"@,
        content_type(Some("jpeg"@)) == "image/jpeg"@,
        content_type(Some("gif"@)) == "image/gif"@,
        content_type(Some("svg"@)) == "image/svg+xml"@,
        content_type(Some("ico"@)) == "image/x-icon"@,
        content_type(Some("pdf"@)) == "application/pdf"@,
        content_type(Some("zip"@)) == "application/zip"@,
        content_type(Some("wasm"@)) == "application/wasm"@,
        content_type(None) == "application/octet-stream"@,
        ext != Some("html"@)
            && ext != Some("htm"@)
            && ext != Some("css"@)
            && ext != Some("js"@)
            && ext != Some("mjs"@)
            && ext != Some("json"@)
            && ext != Some("txt"@)
            && ext != Some("md"@)
            && ext != Some("png"@)
            && ext != Some("jpg"@)
            && ext != Some("jpeg"@)
            && ext != Some("gif"@)
            && ext != Some("svg"@)
            && ext != Some("ico"@)
            && ext != Some("pdf"@)
            && ext != Some("zip"@)
            && ext != Some("wasm"@) ==> content_type(ext) == "application/octet-stream"@,
{
    reveal_strlit("html");
    assert("html"@.len() == 4 && "html"@[0] == 'h' && "html"@[1] == 't');
    reveal_strlit("htm");
    assert("htm"@.len() == 3 && "htm"@[0] == 'h' && "htm"@[1] == 't');
    reveal_strlit("css");
    assert("css"@.len() == 3 && "css"@[0] == 'c' && "css"@[1] == 's');
    reveal_strlit("js");
    assert("js"@.len() == 2 && "js"@[0] == 'j' && "js"@[1] == 's');
    reveal_strlit("mjs");
    assert("mjs"@.len() == 3 && "mjs"@[0] == 'm' && "mjs"@[1] == 'j');
    reveal_strlit("json");
    assert("json"@.len() == 4 && "json"@[0] == 'j' && "json"@[1] == 's');
    reveal_strlit("txt");
    assert("txt"@.len() == 3 && "txt"@[0] == 't' && "txt"@[1] == 'x');
    reveal_strlit("md");
    assert("md"@.len() == 2 && "md"@[0] == 'm' && "md"@[1] == 'd');
    reveal_strlit("png");
    assert("png"@.len() == 3 && "png"@[0] == 'p' && "png"@[1] == 'n');
    reveal_strlit("jpg");
    assert("jpg"@.len() == 3 && "jpg"@[0] == 'j' && "jpg"@[1] == 'p');
    reveal_strlit("jpeg");
    assert("jpeg"@.len() == 4 && "jpeg"@[0] == 'j' && "jpeg"@[1] == 'p');
    reveal_strlit("gif");
    assert("gif"@.len() == 3 && "gif"@[0] == 'g' && "gif"@[1] == 'i');
    reveal_strlit("svg");
    assert("svg"@.len() == 3 && "svg"@[0] == 's' && "svg"@[1] == 'v');
    reveal_strlit("ico");
    assert("ico"@.len() == 3 && "ico"@[0] == 'i' && "ico"@[1] == 'c');
    reveal_strlit("pdf");
    assert("pdf"@.len() == 3 && "pdf"@[0] == 'p' && "pdf"@[1] == 'd');
    reveal_strlit("zip");
    assert("zip"@.len() == 3 && "zip"@[0] == 'z' && "zip"@[1] == 'i');
    reveal_strlit("wasm");
    assert("wasm"@.len() == 4 && "wasm"@[0] == 'w' && "wasm"@[1] == 'a');
}

/// The path of a target below the root is its further components with slashes between
/// them, and its last component is the name that it goes by.
pub proof fn law_path_below_the_root(root: Seq<Seq<u8>>, rest: Seq<Seq<u8>>, name: Seq<u8>)
    ensures
        below_root(root, root).len() == 0,
        below_root(root, root.push(name)) == lossy_text(name),
        rest.len() > 0 ==> below_root(root, (root + rest).push(name)) == below_root(
            root,
            root + rest,
        ) + "/"@ + lossy_text(name),
        last_component(rest.push(name)) == lossy_text(name),
{
    let n = root.len() as int;
    assert(root.skip(n) =~= Seq::empty());
    assert(root.push(name).skip(n) =~= seq![name]);
    assert((root + rest).skip(n) =~= rest);
    assert((root + rest).push(name).skip(n) =~= rest.push(name));
    assert(rest.push(name).drop_last() =~= rest);
}

} // verus!
