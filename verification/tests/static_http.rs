use meshly_core::http::{
    find_header_terminator, read_headers_limited, read_request, read_until_limited, HttpError,
    Progress, ReadStep, Request, RequestReader, MAX_BODY_BYTES, MAX_HEADERS, MAX_REQUEST_LINE,
};
use meshly_core::listing::{
    html_escape, render_directory_listing, size_text, strip_dot_dot, ListingEntry,
};
use meshly_core::static_http::{
    build_response, error_response, guess_content_type, path_extension, percent_decode, resolve,
    within_root, Content, Lookup, StaticHandler, StaticSpec,
};

fn handler(allow_directory_listing: bool) -> StaticHandler {
    StaticHandler {
        spec: StaticSpec {
            name: "files".into(),
            root_dir: "/srv".into(),
            allow_directory_listing,
            shared_secret: b"unused".to_vec(),
        },
    }
}

fn get(method: &str, path: &str, keep_alive: bool) -> Request {
    Request { method: method.into(), path: path.into(), keep_alive }
}

fn parts(path: &str) -> Vec<Vec<u8>> {
    std::path::Path::new(path)
        .components()
        .map(|c| c.as_os_str().as_encoded_bytes().to_vec())
        .collect()
}

fn target(path: &str, content: Content) -> Lookup {
    Lookup::Target { root: parts("/srv"), target: parts(path), content }
}

/// Stands in for the disk below `/srv`, and one file beside it.
fn look_up(path: &str, hello: &str) -> Lookup {
    let mut parts: Vec<&str> = vec!["srv"];
    for part in path.split('/') {
        match part {
            "" | "." => {}
            ".." => {
                parts.pop();
            }
            other => parts.push(other),
        }
    }
    let full = format!("/{}", parts.join("/"));
    let file = |text: &str| Content::File(Some(text.as_bytes().to_vec()));
    let entry = |name: &str| ListingEntry { name: name.into(), is_dir: false, size: 1 };
    let content = match full.as_str() {
        "/srv/hello.txt" => file(hello),
        "/srv/a.txt" => file("x"),
        "/outside/secret.txt" | "/outside" => file("nope"),
        "/srv" => Content::Directory(Some(vec![entry("b.txt"), entry("a.txt")])),
        _ => return Lookup::NoTarget,
    };
    target(&full, content)
}

/// Serves the first request of a stream, as text.
fn serve(allow_directory_listing: bool, hello: &str, stream: &str) -> (String, bool) {
    let (req, used) = read_request(stream.as_bytes()).unwrap().expect("got request");
    assert_eq!(used, stream.len());
    let lookup = match resolve(&req) {
        Ok(path) => look_up(&path, hello),
        Err(_) => Lookup::NoTarget,
    };
    let (response, again) = handler(allow_directory_listing).serve_one(&req, lookup);
    (String::from_utf8_lossy(&response.encode()).into_owned(), again)
}

fn closing(method: &str, path: &str) -> String {
    format!("{method} {path} HTTP/1.1\r\nHost: example\r\nConnection: close\r\n\r\n")
}

#[test]
fn percent_decode_roundtrip() {
    assert_eq!(percent_decode("hello").unwrap(), "hello");
    assert_eq!(percent_decode("hello%20world").unwrap(), "hello world");
    assert_eq!(percent_decode("a%2Bb").unwrap(), "a+b");
    assert_eq!(percent_decode("%E4%B8%AD%E6%96%87").unwrap(), "中文");
    assert!(percent_decode("%").is_err());
    assert!(percent_decode("%2").is_err());
}

#[test]
fn guess_content_type_for_known_extensions() {
    assert_eq!(guess_content_type("a.html"), "text/html; charset=utf-8");
    assert_eq!(guess_content_type("a.png"), "image/png");
    assert_eq!(guess_content_type("a.bin"), "application/octet-stream");
}

#[test]
fn html_escapes_special_chars() {
    assert_eq!(html_escape("<a>&\"'"), "&lt;a&gt;&amp;&quot;&#39;");
}

#[test]
fn serve_one_handles_get_request() {
    let (text, again) = serve(true, "hi there", &closing("GET", "/hello.txt"));
    assert!(text.starts_with("HTTP/1.1 200 OK\r\n"), "got: {text}");
    assert!(text.contains("Content-Type: text/plain"));
    assert!(text.contains("hi there"));
    assert!(!again);
}

#[test]
fn serve_one_blocks_path_traversal() {
    let (text, _) = serve(false, "BODY-CONTENT", &closing("GET", "/../outside"));
    assert!(!text.contains("nope"), "traversal leaked content: {text}");
    assert!(text.starts_with("HTTP/1.1 403"), "{text}");
    let (text, _) = serve(false, "BODY-CONTENT", &closing("GET", "/%2e%2e/outside/secret.txt"));
    assert!(!text.contains("nope"), "traversal leaked content: {text}");
}

#[test]
fn serve_one_rejects_post_with_405() {
    let (text, _) = serve(false, "BODY-CONTENT", &closing("POST", "/a.txt"));
    assert!(text.starts_with("HTTP/1.1 405"), "got: {text}");
}

#[test]
fn serve_one_omits_body_for_head() {
    let (text, _) = serve(false, "BODY-CONTENT", &closing("HEAD", "/hello.txt"));
    assert!(text.starts_with("HTTP/1.1 200"));
    assert!(text.contains("Content-Length: 12"));
    assert!(!text.contains("BODY-CONTENT"));
}

#[test]
fn serve_one_blocks_directory_listing_when_disabled() {
    let (text, _) = serve(false, "BODY-CONTENT", &closing("GET", "/"));
    assert!(text.starts_with("HTTP/1.1 403"));
}

#[test]
fn serve_one_renders_directory_listing_when_enabled() {
    let (text, _) = serve(true, "BODY-CONTENT", &closing("GET", "/"));
    assert!(text.starts_with("HTTP/1.1 200"));
    assert!(text.contains("text/html"));
    assert!(text.contains("a.txt"));
    assert!(text.contains("b.txt"));
}

fn only_request(stream: &[u8]) -> Request {
    read_request(stream).unwrap().expect("got request").0
}

#[test]
fn read_request_parses_connection_keep_alive_for_http11() {
    let req = only_request(b"GET /foo HTTP/1.1\r\nHost: x\r\nConnection: keep-alive\r\n\r\n");
    assert_eq!(req.method, "GET");
    assert_eq!(req.path, "/foo");
    assert!(req.keep_alive, "HTTP/1.1 default is keep-alive");
}

#[test]
fn read_request_parses_connection_close_for_http11() {
    let req = only_request(b"GET /foo HTTP/1.1\r\nHost: x\r\nConnection: close\r\n\r\n");
    assert!(!req.keep_alive);
}

#[test]
fn read_request_defaults_http10_to_close() {
    let req = only_request(b"GET /foo HTTP/1.0\r\nHost: x\r\n\r\n");
    assert!(!req.keep_alive, "HTTP/1.0 default is close");
}

#[test]
fn read_request_opts_in_http10_with_keep_alive() {
    let req = only_request(b"GET /foo HTTP/1.0\r\nHost: x\r\nConnection: keep-alive\r\n\r\n");
    assert!(req.keep_alive);
}

#[test]
fn serve_one_echoes_keep_alive_in_response_header() {
    let (text, again) = serve(false, "BODY", "GET /hello.txt HTTP/1.1\r\nHost: example\r\n\r\n");
    assert!(text.contains("Connection: keep-alive"));
    assert!(text.starts_with("HTTP/1.1 200"));
    assert!(again);
}

#[test]
fn read_until_limited_rejects_runaway_line() {
    let payload = vec![b'X'; 9 * 1024];
    let mut buf = Vec::new();
    let mut refused = false;
    for chunk in payload.chunks(1024) {
        match read_until_limited(&mut buf, chunk, b'\n', 8 * 1024) {
            ReadStep::More => {}
            ReadStep::TooLong => refused = true,
            ReadStep::Done(_) => panic!("no line ends here"),
        }
    }
    assert!(refused);
    assert!(HttpError::LineTooLong(8 * 1024).message().contains("line exceeded"));
}

#[test]
fn read_headers_limited_rejects_runaway_headers() {
    let mut payload = Vec::new();
    for _ in 0..(16 * 1024 / 5) {
        payload.extend_from_slice(b"X: y\r\n");
    }
    let n = payload.len();
    assert!(n > 8 * 1024);
    let mut buf = Vec::new();
    let mut refused = false;
    for chunk in payload.chunks(1000) {
        match read_headers_limited(&mut buf, chunk, 8 * 1024) {
            ReadStep::More => {}
            ReadStep::TooLong => refused = true,
            ReadStep::Done(_) => panic!("no header block ends here"),
        }
    }
    assert!(refused);
    assert!(HttpError::HeadersTooLong(8 * 1024).message().contains("headers exceeded"));
}

// Parsing --------------------------------------------------------------------

#[test]
fn requests_are_refused_for_each_reason() {
    let text = |stream: &[u8]| match read_request(stream) {
        Err(e) => e.message(),
        Ok(_) => panic!("accepted {stream:?}"),
    };
    assert_eq!(text(b"GET"), "static: peer closed mid-line");
    assert_eq!(text(b"GET\r\n"), "static: missing path in request line");
    assert_eq!(text(b"GET /\r\n"), "static: missing HTTP version");
    assert_eq!(text(b"GET / FTP/1\r\n\r\n"), "static: bad HTTP version: \"FTP/1\"");
    assert_eq!(text(b"GET / HTTP/1.1\r\nA: b\r\n"), "static: peer closed mid-headers");
    assert!(text(b"\xff\xff\n").starts_with("static: non-UTF-8 request line"));
    assert!(text(b"GET / HTTP/1.1\r\nA: \xff\r\n\r\n").starts_with("static: non-UTF-8 headers"));
    assert!(text(b"GET / HTTP/1.1\r\nContent-Length: x\r\n\r\n")
        .starts_with("static: bad Content-Length \"x\""));
    assert_eq!(
        text(b"GET / HTTP/1.1\r\ncontent-length: 3\r\n\r\nabc"),
        "static: request body 3 > limit 0"
    );
    let long = vec![b'a'; MAX_REQUEST_LINE + 1];
    assert_eq!(text(&long), "static: line exceeded 8192 bytes");
    let mut headers = b"GET / HTTP/1.1\r\n".to_vec();
    headers.extend_from_slice(&vec![b'h'; MAX_HEADERS + 1]);
    assert_eq!(text(&headers), "static: headers exceeded 65536 bytes");
    assert_eq!(MAX_BODY_BYTES, 0);
}

#[test]
fn a_stream_without_bytes_has_no_request() {
    assert!(read_request(b"").unwrap().is_none());
    let mut reader = RequestReader::new();
    assert!(reader.end().is_ok());
    assert!(matches!(reader.feed(b"G"), Progress::Incomplete));
    assert!(matches!(reader.end(), Err(HttpError::ClosedMidLine)));
    assert!(matches!(reader.feed(b"ET / HTTP/1.1\r\nA: b"), Progress::Incomplete));
    assert!(matches!(reader.end(), Err(HttpError::ClosedMidHeaders)));
}

#[test]
fn it_does_not_matter_where_chunks_are_cut() {
    let stream = b"GET /a HTTP/1.1\r\nConnection: close\r\n\r\nGET /b HTTP/1.1\r\n";
    let (whole, taken) = read_request(stream).unwrap().unwrap();
    let bad = b"GET / FTP/1\r\nA: b\r\n\r\n";
    for size in 1..=stream.len() {
        let mut reader = RequestReader::new();
        let mut seen = 0;
        for chunk in stream.chunks(size) {
            match reader.feed(chunk) {
                Progress::Incomplete => seen += chunk.len(),
                Progress::Complete(req, used) => {
                    assert_eq!((&req.method, &req.path), (&whole.method, &whole.path));
                    assert_eq!((req.keep_alive, seen + used), (whole.keep_alive, taken));
                    seen = usize::MAX;
                    break;
                }
                Progress::Failed(e) => panic!("{}", e.message()),
            }
        }
        assert_eq!(seen, usize::MAX, "no request in chunks of {size}");
        // The reader starts anew, and the same holds of a request that cannot be read.
        let mut failed = false;
        for chunk in bad.chunks(size) {
            if let Progress::Failed(e) = reader.feed(chunk) {
                assert!(matches!(e, HttpError::BadVersion(_)), "{e:?}");
                failed = true;
                break;
            }
        }
        assert!(failed);
    }
}

#[test]
fn headers_are_read_leniently() {
    let keep = |headers: &str| only_request(format!("GET / HTTP/1.1\n{headers}\n\n").as_bytes());
    assert!(!keep("CONNECTION:  foo , Close ,bar").keep_alive);
    assert!(keep("Connection keep").keep_alive);
    assert!(!only_request(b"GET / HTTP/2.0\r\nConnection: keep-alive\r\n\r\n").keep_alive);
    // What stands behind the block is left for the next request.
    let stream = b"GET /a HTTP/1.1\r\nA: b\r\n\r\nGET /b HTTP/1.1\r\nA: b\r\n\r\n";
    let (first, used) = read_request(stream).unwrap().unwrap();
    assert_eq!(first.path, "/a");
    let (second, rest) = read_request(&stream[used..]).unwrap().unwrap();
    assert_eq!(second.path, "/b");
    assert_eq!(used + rest, stream.len());
}

#[test]
fn header_blocks_end_at_either_terminator() {
    assert_eq!(find_header_terminator(b"a\r\n\r\nb"), Some(4));
    assert_eq!(find_header_terminator(b"a\n\nb"), Some(2));
    assert_eq!(find_header_terminator(b"a\r\n\rb"), None);
    assert_eq!(find_header_terminator(b""), None);
}

#[test]
fn terminators_are_found_across_chunks() {
    for cut in 0..8 {
        let block = b"A: b\r\n\r\nrest";
        let mut buf = Vec::new();
        let step = read_headers_limited(&mut buf, &block[..cut], 100);
        assert!(matches!(step, ReadStep::More), "{cut}");
        match read_headers_limited(&mut buf, &block[cut..], 100) {
            ReadStep::Done(used) => assert_eq!(cut + used, 8),
            _ => panic!("no end found with the cut at {cut}"),
        }
        assert_eq!(buf, b"A: b\r\n\r\n");
    }
    let mut line = Vec::new();
    assert!(matches!(read_until_limited(&mut line, b"ab", b'\n', 4), ReadStep::More));
    assert!(matches!(read_until_limited(&mut line, b"c\nd", b'\n', 4), ReadStep::Done(2)));
    assert_eq!(line, b"abc\n");
}

// Paths ----------------------------------------------------------------------

#[test]
fn requests_resolve_below_the_root() {
    let path = |p: &str| resolve(&get("GET", p, true)).unwrap();
    assert_eq!(path("/"), "");
    assert_eq!(path("//a//b"), "a//b");
    assert_eq!(path("/a%20b?x=/c#d"), "a b");
    assert_eq!(path("/a#b?c"), "a");
    assert_eq!(path("plain"), "plain");
    assert_eq!(path("%2Fa+b"), "a b");
    assert_eq!(resolve(&get("GET", "/%zz", true)), Err(400));
    assert_eq!(resolve(&get("GET", "/%ff", true)), Err(400));
    assert_eq!(resolve(&get("PUT", "/%zz", true)), Err(405));
    assert_eq!(resolve(&get("get", "/", true)), Err(405));
}

#[test]
fn roots_hold_what_lies_below_them() {
    let within = |root: &str, target: &str| within_root(&parts(root), &parts(target));
    assert!(within("/srv", "/srv"));
    assert!(within("/srv", "/srv/a"));
    assert!(!within("/srv", "/srv2"));
    assert!(!within("/srv", "/sr"));
    assert!(!within("/srv", "/etc/srv"));
    assert!(within("/", "/etc"));
    // Components are given apart, whatever separates them on disk.
    let drive = |below: &[&str]| {
        let mut path = vec![br"\\?\C:".to_vec(), br"\".to_vec()];
        path.extend(below.iter().map(|c| c.as_bytes().to_vec()));
        path
    };
    assert!(within_root(&drive(&["srv"]), &drive(&["srv", "x", "y.css"])));
    assert!(!within_root(&drive(&["srv"]), &drive(&["other"])));
}

#[test]
fn answers_follow_the_path_of_the_target() {
    let spec = handler(true).spec;
    let req = get("GET", "/x", true);
    let answer = |target: Vec<Vec<u8>>, content: Content| {
        let lookup = Lookup::Target { root: parts("/srv"), target, content };
        build_response(&spec, &req, lookup).unwrap()
    };
    let file = answer(parts("/srv/x.png/y.css"), Content::File(Some(vec![1])));
    assert_eq!(file.headers[0].1, "text/css; charset=utf-8");
    let hidden = answer(parts("/srv/.html"), Content::File(Some(vec![1])));
    assert_eq!(hidden.headers[0].1, "application/octet-stream");
    let entry = || ListingEntry { name: "f".into(), is_dir: false, size: 1 };
    let page = |target: Vec<Vec<u8>>| {
        String::from_utf8(answer(target, Content::Directory(Some(vec![entry()]))).body).unwrap()
    };
    let deep = page(parts("/srv/a/b"));
    assert!(deep.contains("<h1>Index of /a/b</h1>"), "{deep}");
    assert!(deep.contains("<a href=\"a/b/f\">f</a>"), "{deep}");
    assert!(page(parts("/srv")).contains("<a href=\"f\">f</a>"));
    let mut odd = parts("/srv");
    odd.push(vec![b'x', 0xff]);
    assert!(page(odd).contains("<h1>Index of /x\u{fffd}</h1>"));
}

#[test]
fn extensions_follow_the_last_dot() {
    for path in [
        "a.b.c", "a.b/c", ".hidden", ".hidden.txt", "a.", "", "/", ".", "..", "a/..", "x/.y",
        "a.html/", "a.css/.", "a.css/./", "no", "/d.e/f.g", "é.ü", "..a", "a..b", "./", "/.",
    ] {
        let expected = std::path::Path::new(path).extension().map(|e| e.to_str().unwrap());
        assert_eq!(path_extension(path).as_deref(), expected, "{path:?}");
    }
}

#[test]
fn every_content_type() {
    let table = [
        ("html", "text/html; charset=utf-8"),
        ("htm", "text/html; charset=utf-8"),
        ("css", "text/css; charset=utf-8"),
        ("js", "application/javascript; charset=utf-8"),
        ("mjs", "application/javascript; charset=utf-8"),
        ("json", "application/json; charset=utf-8"),
        ("txt", "text/plain; charset=utf-8"),
        ("md", "text/plain; charset=utf-8"),
        ("png", "image/png"),
        ("jpg", "image/jpeg"),
        ("jpeg", "image/jpeg"),
        ("gif", "image/gif"),
        ("svg", "image/svg+xml"),
        ("ico", "image/x-icon"),
        ("pdf", "application/pdf"),
        ("zip", "application/zip"),
        ("wasm", "application/wasm"),
        ("HTML", "application/octet-stream"),
    ];
    for (ext, kind) in table {
        assert_eq!(guess_content_type(&format!("/srv/x.{ext}")), kind);
    }
    assert_eq!(guess_content_type("/srv/html"), "application/octet-stream");
}

// Responses ------------------------------------------------------------------

#[test]
fn failures_are_answered_with_their_status() {
    let spec = handler(true).spec;
    let status = |lookup: Lookup| build_response(&spec, &get("GET", "/x", true), lookup).unwrap_err();
    assert_eq!(status(Lookup::NoRoot), 500);
    assert_eq!(status(Lookup::NoTarget), 404);
    assert_eq!(status(target("/other/x", Content::File(Some(vec![1])))), 403);
    assert_eq!(status(target("/srv/x", Content::Unknown)), 404);
    assert_eq!(status(target("/srv/x", Content::File(None))), 404);
    assert_eq!(status(target("/srv/x", Content::Directory(None))), 500);
    let closed = handler(false).spec;
    let dir = target("/srv/x", Content::Directory(None));
    assert_eq!(build_response(&closed, &get("GET", "/x", true), dir).unwrap_err(), 403);
}

#[test]
fn error_responses_in_full() {
    let text = |status: u16, method: &str, keep: bool| {
        String::from_utf8(error_response(status, method, keep).encode()).unwrap()
    };
    assert_eq!(
        text(404, "GET", true),
        "HTTP/1.1 404 Not Found\r\nContent-Type: text/plain; charset=utf-8\r\n\
         Content-Length: 14\r\nConnection: keep-alive\r\n\r\n404 Not Found\n"
    );
    assert_eq!(
        text(500, "HEAD", false),
        "HTTP/1.1 500 Internal Server Error\r\nContent-Type: text/plain; charset=utf-8\r\n\
         Content-Length: 0\r\nConnection: close\r\n\r\n"
    );
    for (status, phrase) in
        [(400, "Bad Request"), (403, "Forbidden"), (405, "Method Not Allowed"), (418, "Error")]
    {
        let r = error_response(status, "GET", true);
        assert_eq!(r.status_text, phrase);
        let body = if status == 418 { "Error\n".into() } else { format!("{status} {phrase}\n") };
        assert_eq!(r.body, body.as_bytes());
    }
}

#[test]
fn head_has_the_headers_of_get() {
    let spec = handler(true).spec;
    for path in ["/hello.txt", "/"] {
        let answer = |method: &str| {
            let req = get(method, path, true);
            let lookup = look_up(&resolve(&req).unwrap(), "hi");
            build_response(&spec, &req, lookup).unwrap()
        };
        let (full, head) = (answer("GET"), answer("HEAD"));
        assert_eq!(full.headers, head.headers);
        assert_eq!((full.status, full.status_text), (head.status, head.status_text));
        assert_eq!(full.headers[1].1, full.body.len().to_string());
        assert!(head.body.is_empty() && !full.body.is_empty());
    }
}

// Listings -------------------------------------------------------------------

fn child(name: &str, is_dir: bool, size: u64) -> ListingEntry {
    ListingEntry { name: name.into(), is_dir, size }
}

#[test]
fn sizes_are_printed_as_floats_would_be() {
    let by_float = |size: u64| {
        if size < 1024 {
            format!("{size} B")
        } else if size < 1024 * 1024 {
            format!("{:.1} KB", size as f64 / 1024.0)
        } else {
            format!("{:.1} MB", size as f64 / 1024.0 / 1024.0)
        }
    };
    let mut sizes: Vec<u64> = vec![u64::MAX, u64::MAX - 1, (1 << 53) + 1, (1 << 54) + 2];
    sizes.extend(0..5000);
    for shift in 10..64 {
        let n = 1u64 << shift;
        for k in 0..41u64 {
            sizes.push(n - 1 - k);
            sizes.push(n + k * (n / 20 + 1) / 2);
            sizes.push(n + k);
            sizes.push(n.saturating_add(n / 2).saturating_add(k));
        }
    }
    for size in sizes {
        assert_eq!(size_text(size), by_float(size), "{size}");
    }
}

#[test]
fn listing_of_a_subdirectory_in_full() {
    let entries = vec![
        child("B.txt", false, 1536),
        child("a<b", false, 3),
        child("z", true, 0),
        child("Alpha", true, 9),
    ];
    let row = |href: &str, name: &str, size: &str| {
        format!("<tr><td><a href=\"{href}\">{name}</a></td><td class=\"size\">{size}</td></tr>")
    };
    let page = render_directory_listing("sub/dir", &entries);
    assert!(page.starts_with(
        "<!DOCTYPE html>\n<html><head><meta charset=\"utf-8\"><title>Index of /sub/dir</title><style>"
    ));
    assert!(page.contains("<h1>Index of /sub/dir</h1>"));
    let rows = [
        "<tr><td><a href=\"../\">../</a></td><td class=\"size\">—</td></tr>".to_string(),
        row("sub/dir/Alpha/", "Alpha/", "—"),
        row("sub/dir/z/", "z/", "—"),
        row("sub/dir/a&lt;b", "a&lt;b", "3 B"),
        row("sub/dir/B.txt", "B.txt", "1.5 KB"),
    ]
    .concat();
    assert!(page.ends_with(&format!("<tbody>{rows}</tbody></table></body></html>")), "{page}");
}

#[test]
fn the_root_listing_has_no_parent() {
    let page = render_directory_listing("", &Vec::new());
    assert!(page.contains("<title>Index of /</title>"));
    assert!(!page.contains("../"));
    assert!(page.ends_with("<tbody></tbody></table></body></html>"));
    let page = render_directory_listing("", &vec![child("x", false, 0)]);
    assert!(page.contains("<a href=\"x\">x</a>"));
}

#[test]
fn names_are_ordered_by_their_lower_case() {
    let names = ["Öl", "zebra", "ÄPFEL", "İx", "apfel", "Zug", "ß"];
    let entries: Vec<ListingEntry> = names.iter().map(|n| child(n, false, 1)).collect();
    let page = render_directory_listing("", &entries);
    let mut expected: Vec<&str> = names.to_vec();
    expected.sort_by(|a, b| a.to_lowercase().cmp(&b.to_lowercase()));
    let places: Vec<usize> =
        expected.iter().map(|n| page.find(&format!(">{n}</a>")).unwrap()).collect();
    assert!(places.windows(2).all(|w| w[0] < w[1]), "{page}");
}

#[test]
fn equal_names_keep_their_order() {
    let entries = vec![child("A", false, 1), child("a", false, 2), child("A", false, 3)];
    let page = render_directory_listing("", &entries);
    let at = |s: &str| page.find(s).unwrap();
    assert!(at(">1 B<") < at(">2 B<") && at(">2 B<") < at(">3 B<"));
}

#[test]
fn links_lose_their_double_dots() {
    for text in ["a..b", "..", "...", "....", "a.b.c", "x/../y", ".....", "", "."] {
        assert_eq!(strip_dot_dot(text), text.replace("..", ""), "{text:?}");
    }
    assert_eq!(html_escape("plain é"), "plain é");
}

#[test]
fn overlong_part_stays_overlong() {
    let cut = |bytes: &[u8]| {
        let mut buf = Vec::new();
        read_headers_limited(&mut buf, bytes, 8)
    };
    assert_eq!(cut(b"a: 1\r\nb:"), ReadStep::More);
    assert_eq!(cut(b"a: 1\r\nb: "), ReadStep::TooLong);
    assert_eq!(cut(b"a: 1\r\nb: 2\r\n\r\n"), ReadStep::TooLong);
    assert_eq!(cut(b"a: 1\n\nb: 2\r\n\r\n"), ReadStep::Done(6));
    let line = |bytes: &[u8]| {
        let mut buf = Vec::new();
        read_until_limited(&mut buf, bytes, b'\n', 4)
    };
    assert_eq!(line(b"GET /"), ReadStep::TooLong);
    assert_eq!(line(b"GET /\n"), ReadStep::TooLong);
    assert_eq!(line(b"GET\n/"), ReadStep::Done(4));
}
