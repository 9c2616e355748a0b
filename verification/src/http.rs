//! A minimal HTTP/1.1 request reader, just enough for serving files.
//!
//! A request is read in two parts: the request line up to its line feed, and the
//! header block up to an empty line. Both are taken from a stream that comes in
//! chunks, and the outcome does not depend on where one chunk ends and the next
//! begins. Both are bounded, so that a peer cannot make the reader buffer an
//! unbounded amount.
use crate::scan::{
    after_char, before_char, cut_line_end, eq_ignore_ascii_case, parse_unsigned, same_ignoring_case,
    split_at_char, trim, trimmed, unsigned_number, without_line_end,
};
use crate::text::{
    chars_of, decimal, decimal_text, decode_text, quote, quoted, same_text, string_of, utf8_text,
};
use vstd::prelude::*;
use vstd::string::StringExecFns;

verus! {

/// The longest request line, its line feed included.
pub const MAX_REQUEST_LINE: usize = 8 * 1024;

/// The longest header block, its terminator included.
pub const MAX_HEADERS: usize = 64 * 1024;

/// The longest request body: none is accepted.
pub const MAX_BODY_BYTES: usize = 0;

/// What makes a request unreadable.
#[derive(Debug)]
pub enum HttpError {
    /// The request line is longer than this.
    LineTooLong(usize),
    /// The peer closed inside the request line.
    ClosedMidLine,
    /// The request line is not UTF-8.
    LineNotUtf8,
    /// The request line has no path.
    MissingPath,
    /// The request line has no version.
    MissingVersion,
    /// The version does not start with `HTTP/`.
    BadVersion(String),
    /// The header block is longer than this.
    HeadersTooLong(usize),
    /// The peer closed inside the header block.
    ClosedMidHeaders,
    /// The header block is not UTF-8.
    HeadersNotUtf8,
    /// The content length is not a number.
    BadContentLength(String),
    /// The request has a body of this length.
    BodyTooLong(usize),
}

/// What an [`HttpError`] stands for.
pub enum HttpFault {
    LineTooLong(usize),
    ClosedMidLine,
    LineNotUtf8,
    MissingPath,
    MissingVersion,
    BadVersion(Seq<char>),
    HeadersTooLong(usize),
    ClosedMidHeaders,
    HeadersNotUtf8,
    BadContentLength(Seq<char>),
    BodyTooLong(usize),
}

impl View for HttpError {
    type V = HttpFault;

    open spec fn view(&self) -> HttpFault {
        match self {
            HttpError::LineTooLong(max) => HttpFault::LineTooLong(*max),
            HttpError::ClosedMidLine => HttpFault::ClosedMidLine,
            HttpError::LineNotUtf8 => HttpFault::LineNotUtf8,
            HttpError::MissingPath => HttpFault::MissingPath,
            HttpError::MissingVersion => HttpFault::MissingVersion,
            HttpError::BadVersion(v) => HttpFault::BadVersion(v@),
            HttpError::HeadersTooLong(max) => HttpFault::HeadersTooLong(*max),
            HttpError::ClosedMidHeaders => HttpFault::ClosedMidHeaders,
            HttpError::HeadersNotUtf8 => HttpFault::HeadersNotUtf8,
            HttpError::BadContentLength(v) => HttpFault::BadContentLength(v@),
            HttpError::BodyTooLong(n) => HttpFault::BodyTooLong(*n),
        }
    }
}

/// What a fault is reported as.
pub open spec fn http_message(fault: HttpFault) -> Seq<char> {
    match fault {
        HttpFault::LineTooLong(max) => "static: line exceeded "@ + decimal(max as nat)
            + " bytes"@,
        HttpFault::ClosedMidLine => "static: peer closed mid-line"@,
        HttpFault::LineNotUtf8 => "static: non-UTF-8 request line"@,
        HttpFault::MissingPath => "static: missing path in request line"@,
        HttpFault::MissingVersion => "static: missing HTTP version"@,
        HttpFault::BadVersion(v) => "static: bad HTTP version: "@ + quoted(v),
        HttpFault::HeadersTooLong(max) => "static: headers exceeded "@ + decimal(max as nat)
            + " bytes"@,
        HttpFault::ClosedMidHeaders => "static: peer closed mid-headers"@,
        HttpFault::HeadersNotUtf8 => "static: non-UTF-8 headers"@,
        HttpFault::BadContentLength(v) => "static: bad Content-Length "@ + quoted(v),
        HttpFault::BodyTooLong(n) => "static: request body "@ + decimal(n as nat) + " > limit "@
            + decimal(MAX_BODY_BYTES as nat),
    }
}

impl HttpError {
    /// The message for the log.
    pub fn message(&self) -> (text: String)
        ensures
            text@ == http_message(self@),
    {
        match self {
            HttpError::LineTooLong(max) => "static: line exceeded ".to_owned().concat(
                decimal_text(*max as u64).as_str(),
            ).concat(" bytes"),
            HttpError::ClosedMidLine => "static: peer closed mid-line".to_owned(),
            HttpError::LineNotUtf8 => "static: non-UTF-8 request line".to_owned(),
            HttpError::MissingPath => "static: missing path in request line".to_owned(),
            HttpError::MissingVersion => "static: missing HTTP version".to_owned(),
            HttpError::BadVersion(v) => "static: bad HTTP version: ".to_owned().concat(
                quote(v.as_str()).as_str(),
            ),
            HttpError::HeadersTooLong(max) => "static: headers exceeded ".to_owned().concat(
                decimal_text(*max as u64).as_str(),
            ).concat(" bytes"),
            HttpError::ClosedMidHeaders => "static: peer closed mid-headers".to_owned(),
            HttpError::HeadersNotUtf8 => "static: non-UTF-8 headers".to_owned(),
            HttpError::BadContentLength(v) => "static: bad Content-Length ".to_owned().concat(
                quote(v.as_str()).as_str(),
            ),
            HttpError::BodyTooLong(n) => "static: request body ".to_owned().concat(
                decimal_text(*n as u64).as_str(),
            ).concat(" > limit ").concat(decimal_text(MAX_BODY_BYTES as u64).as_str()),
        }
    }
}

// ---------------------------------------------------------------------------
// Reading up to an end
// ---------------------------------------------------------------------------

/// How many bytes of `s` belong to its first line, the delimiter included.
pub open spec fn line_end(s: Seq<u8>, delim: u8) -> Option<int>
    decreases s.len(),
{
    if s.len() == 0 {
        None
    } else if s[0] == delim {
        Some(1)
    } else {
        match line_end(s.drop_first(), delim) {
            Some(n) => Some(n + 1),
            None => None,
        }
    }
}

/// CR LF CR LF stands in `s` at `i`.
pub open spec fn crlf_crlf_at(s: Seq<u8>, i: int) -> bool {
    &&& i + 3 < s.len()
    &&& s[i] == 13
    &&& s[i + 1] == 10
    &&& s[i + 2] == 13
    &&& s[i + 3] == 10
}

/// LF LF stands in `s` at `i`.
pub open spec fn lf_lf_at(s: Seq<u8>, i: int) -> bool {
    &&& i + 1 < s.len()
    &&& s[i] == 10
    &&& s[i + 1] == 10
}

/// The index of the last byte of the first header terminator (CR LF CR LF, or a
/// bare LF LF) that starts at `from` or later.
pub open spec fn terminator(s: Seq<u8>, from: int) -> Option<int>
    decreases s.len() - from,
{
    if from < 0 || from >= s.len() {
        None
    } else if crlf_crlf_at(s, from) {
        Some(from + 3)
    } else if lf_lf_at(s, from) {
        Some(from + 1)
    } else {
        terminator(s, from + 1)
    }
}

/// What a bounded reader has after some bytes of a stream, where `end` tells how
/// many of them it is to take.
#[derive(Debug, Clone, Copy, PartialEq, Eq, Structural)]
pub enum ReadStep {
    /// The part is complete; so many bytes of the chunk belong to it.
    Done(usize),
    /// More bytes are needed; the whole chunk was taken.
    More,
    /// The part is longer than allowed.
    TooLong,
}

/// The outcome of reading bytes `all` of a stream, of which `before` were there
/// already, up to `end`: the step, and the bytes kept.
pub open spec fn bounded_read(
    before: Seq<u8>,
    all: Seq<u8>,
    end: Option<int>,
    max: usize,
) -> (ReadStep, Seq<u8>) {
    match end {
        Some(n) => if n <= max {
            (
                ReadStep::Done(
                    if n >= before.len() {
                        (n - before.len()) as usize
                    } else {
                        0
                    },
                ),
                all.take(n),
            )
        } else {
            (ReadStep::TooLong, before)
        },
        None => if all.len() <= max {
            (ReadStep::More, all)
        } else {
            (ReadStep::TooLong, before)
        },
    }
}

/// Finds how many bytes belong to the first line.
fn find_line_end(s: &Vec<u8>, delim: u8) -> (r: Option<usize>)
    ensures
        match r {
            Some(n) => n <= s@.len() && line_end(s@, delim) == Some(n as int),
            None => line_end(s@, delim) is None,
        },
{
    let mut i: usize = 0;
    assert(s@.skip(0) =~= s@);
    while i < s.len()
        invariant
            i <= s@.len(),
            line_end(s@, delim) == match line_end(s@.skip(i as int), delim) {
                Some(n) => Some(n + i),
                None => None,
            },
        decreases s.len() - i,
    {
        assert(s@.skip(i as int).drop_first() =~= s@.skip(i + 1));
        if s[i] == delim {
            return Some(i + 1);
        }
        i = i + 1;
    }
    None
}

/// Returns the index of the last byte of the first header terminator (CR LF CR LF
/// or a bare LF LF) in `chunk`, or nothing where there is none.
pub fn find_header_terminator(chunk: &[u8]) -> (r: Option<usize>)
    ensures
        match r {
            Some(e) => e < chunk@.len() && terminator(chunk@, 0) == Some(e as int),
            None => terminator(chunk@, 0) is None,
        },
{
    let len: usize = chunk.len();
    let mut i: usize = 0;
    while i < len
        invariant
            i <= len == chunk@.len(),
            terminator(chunk@, 0) == terminator(chunk@, i as int),
        decreases len - i,
    {
        if len - i > 3 && chunk[i] == 13 && chunk[i + 1] == 10 && chunk[i + 2] == 13 && chunk[i + 3]
            == 10 {
            return Some(i + 3);
        }
        if len - i > 1 && chunk[i] == 10 && chunk[i + 1] == 10 {
            return Some(i + 1);
        }
        i = i + 1;
    }
    None
}

/// The first `n` bytes of `s`.
fn first_bytes(s: &Vec<u8>, n: usize) -> (r: Vec<u8>)
    requires
        n <= s@.len(),
    ensures
        r@ == s@.take(n as int),
{
    let r = vstd::slice::slice_to_vec(vstd::slice::slice_subrange(s.as_slice(), 0, n));
    assert(r@ =~= s@.take(n as int));
    r
}

/// Joins two byte sequences.
fn join(a: &Vec<u8>, b: &[u8]) -> (r: Vec<u8>)
    ensures
        r@ == a@ + b@,
{
    let mut r = vstd::slice::slice_to_vec(a.as_slice());
    r.extend_from_slice(b);
    assert(r@ =~= a@ + b@);
    r
}

/// Takes the next chunk of a stream into `buf`, which collects a line that ends
/// with `delim` and has at most `max` bytes.
pub fn read_until_limited(buf: &mut Vec<u8>, chunk: &[u8], delim: u8, max: usize) -> (step: ReadStep)
    ensures
        (step, final(buf)@) == bounded_read(
            old(buf)@,
            old(buf)@ + chunk@,
            line_end(old(buf)@ + chunk@, delim),
            max,
        ),
{
    let all = join(buf, chunk);
    match find_line_end(&all, delim) {
        Some(n) => finish_read(buf, all, n, max),
        None => if all.len() <= max {
            *buf = all;
            ReadStep::More
        } else {
            ReadStep::TooLong
        },
    }
}

/// Takes the next chunk of a stream into `buf`, which collects a header block up
/// to and including its terminator, of at most `max` bytes.
pub fn read_headers_limited(buf: &mut Vec<u8>, chunk: &[u8], max: usize) -> (step: ReadStep)
    ensures
        (step, final(buf)@) == bounded_read(
            old(buf)@,
            old(buf)@ + chunk@,
            headers_end(old(buf)@ + chunk@),
            max,
        ),
{
    let all = join(buf, chunk);
    let len: usize = all.len();
    match find_header_terminator(all.as_slice()) {
        Some(e) => {
            assert(e < len);
            finish_read(buf, all, e + 1, max)
        },
        None => if all.len() <= max {
            *buf = all;
            ReadStep::More
        } else {
            ReadStep::TooLong
        },
    }
}

/// How many bytes of `s` belong to its header block, the terminator included.
pub open spec fn headers_end(s: Seq<u8>) -> Option<int> {
    match terminator(s, 0) {
        Some(e) => Some(e + 1),
        None => None,
    }
}

/// Ends a read whose part is the first `n` of the bytes `all`.
fn finish_read(buf: &mut Vec<u8>, all: Vec<u8>, n: usize, max: usize) -> (step: ReadStep)
    requires
        n <= all@.len(),
        old(buf)@.len() <= all@.len(),
    ensures
        (step, final(buf)@) == bounded_read(old(buf)@, all@, Some(n as int), max),
{
    if n > max {
        return ReadStep::TooLong;
    }
    let had: usize = buf.len();
    *buf = first_bytes(&all, n);
    ReadStep::Done(
        if n >= had {
            n - had
        } else {
            0
        },
    )
}

/// Where the first line ends does not change when more bytes come.
pub proof fn law_line_end_is_stable(s: Seq<u8>, more: Seq<u8>, delim: u8)
    requires
        line_end(s, delim) is Some,
    ensures
        line_end(s + more, delim) == line_end(s, delim),
        0 < line_end(s, delim)->0 <= s.len(),
        (s + more).take(line_end(s, delim)->0) == s.take(line_end(s, delim)->0),
    decreases s.len(),
{
    assert((s + more).drop_first() =~= s.drop_first() + more);
    if s[0] != delim {
        law_line_end_is_stable(s.drop_first(), more, delim);
    }
    let n = line_end(s, delim)->0;
    assert((s + more).take(n) =~= s.take(n));
}

/// Where the header block ends does not change when more bytes come.
pub proof fn law_headers_end_is_stable(s: Seq<u8>, more: Seq<u8>)
    requires
        headers_end(s) is Some,
    ensures
        headers_end(s + more) == headers_end(s),
        0 < headers_end(s)->0 <= s.len(),
        (s + more).take(headers_end(s)->0) == s.take(headers_end(s)->0),
{
    lemma_terminator_is_stable(s, more, 0);
    let n = headers_end(s)->0;
    assert((s + more).take(n) =~= s.take(n));
}

proof fn lemma_terminator_is_stable(s: Seq<u8>, more: Seq<u8>, from: int)
    requires
        0 <= from,
        terminator(s, from) is Some,
    ensures
        terminator(s + more, from) == terminator(s, from),
        terminator(s, from)->0 < s.len(),
        terminator(s, from)->0 > from,
    decreases s.len() - from,
{
    let t = s + more;
    if crlf_crlf_at(s, from) {
        assert(crlf_crlf_at(t, from));
    } else if lf_lf_at(s, from) {
        assert(lf_lf_at(t, from));
        assert(!crlf_crlf_at(t, from));
    } else {
        lemma_terminator_is_stable(s, more, from + 1);
        assert(t[from] == s[from]);
        assert(!lf_lf_at(t, from)) by {
            if from + 1 < s.len() {
                assert(t[from + 1] == s[from + 1]);
            }
        }
        assert(!crlf_crlf_at(t, from)) by {
            if crlf_crlf_at(t, from) {
                if from + 3 < s.len() {
                    assert(t[from + 1] == s[from + 1]);
                    assert(t[from + 2] == s[from + 2]);
                    assert(t[from + 3] == s[from + 3]);
                } else {
                    if from + 2 < s.len() {
                        assert(t[from + 2] == s[from + 2]);
                    }
                    reveal_with_fuel(terminator, 4);
                }
            }
        }
    }
}

/// A line that is longer than allowed stays so when more bytes come.
pub proof fn law_line_overflow_is_stable(s: Seq<u8>, more: Seq<u8>, delim: u8, max: int)
    requires
        line_end(s, delim) is None,
        s.len() > max,
    ensures
        line_end(s + more, delim) matches Some(n) ==> n > max,
        (s + more).len() > max,
    decreases s.len(),
{
    lemma_line_end_after(s, more, delim);
}

/// A header block that is longer than allowed stays so when more bytes come.
pub proof fn law_headers_overflow_is_stable(s: Seq<u8>, more: Seq<u8>, max: int)
    requires
        headers_end(s) is None,
        s.len() > max,
    ensures
        headers_end(s + more) matches Some(n) ==> n > max,
        (s + more).len() > max,
{
    lemma_terminator_after(s, more, 0);
}

proof fn lemma_terminator_after(s: Seq<u8>, more: Seq<u8>, from: int)
    requires
        0 <= from,
        terminator(s, from) is None,
    ensures
        terminator(s + more, from) matches Some(e) ==> e >= s.len() && e > from,
    decreases (s + more).len() - from,
{
    let t = s + more;
    if from < t.len() {
        if crlf_crlf_at(t, from) {
            if from + 3 < s.len() {
                assert(crlf_crlf_at(s, from));
            }
        } else if lf_lf_at(t, from) {
            if from + 1 < s.len() {
                assert(lf_lf_at(s, from));
            }
        } else {
            lemma_terminator_after(s, more, from + 1);
        }
    }
}

proof fn lemma_line_end_after(s: Seq<u8>, more: Seq<u8>, delim: u8)
    requires
        line_end(s, delim) is None,
    ensures
        line_end(s + more, delim) matches Some(n) ==> n > s.len(),
    decreases s.len(),
{
    if s.len() > 0 {
        assert((s + more).drop_first() =~= s.drop_first() + more);
        lemma_line_end_after(s.drop_first(), more, delim);
    } else {
        assert(s + more =~= more);
        lemma_line_end_positive(more, delim);
    }
}

proof fn lemma_line_end_positive(s: Seq<u8>, delim: u8)
    ensures
        line_end(s, delim) matches Some(n) ==> 0 < n <= s.len(),
    decreases s.len(),
{
    if s.len() > 0 {
        lemma_line_end_positive(s.drop_first(), delim);
    }
}

// ---------------------------------------------------------------------------
// The request line
// ---------------------------------------------------------------------------

/// A parsed request line.
#[derive(Debug)]
pub struct RequestLine {
    pub method: String,
    pub path: String,
    pub version: String,
}

/// What a [`RequestLine`] stands for.
pub struct RequestLineView {
    pub method: Seq<char>,
    pub path: Seq<char>,
    pub version: Seq<char>,
}

impl View for RequestLine {
    type V = RequestLineView;

    open spec fn view(&self) -> RequestLineView {
        RequestLineView { method: self.method@, path: self.path@, version: self.version@ }
    }
}

/// `s` starts with `prefix`.
pub open spec fn starts_with(s: Seq<char>, prefix: Seq<char>) -> bool {
    prefix.len() <= s.len() && s.take(prefix.len() as int) == prefix
}

/// The request line in a text: method, path and version, with one space between
/// each two. What follows a further space is ignored.
pub open spec fn request_line(line: Seq<char>) -> Result<RequestLineView, HttpFault> {
    let text = without_line_end(line, true);
    match after_char(text, ' ') {
        None => Err(HttpFault::MissingPath),
        Some(rest) => match after_char(rest, ' ') {
            None => Err(HttpFault::MissingVersion),
            Some(tail) => {
                let version = before_char(tail, ' ');
                if starts_with(version, "HTTP/"@) {
                    Ok(
                        RequestLineView {
                            method: before_char(text, ' '),
                            path: before_char(rest, ' '),
                            version,
                        },
                    )
                } else {
                    Err(HttpFault::BadVersion(version))
                }
            },
        },
    }
}

/// The request line in the bytes of a line.
pub open spec fn request_line_in(bytes: Seq<u8>) -> Result<RequestLineView, HttpFault> {
    match utf8_text(bytes) {
        Some(text) => request_line(text),
        None => Err(HttpFault::LineNotUtf8),
    }
}

/// A result with its value and its error viewed.
pub open spec fn line_result(r: Result<RequestLine, HttpError>) -> Result<
    RequestLineView,
    HttpFault,
> {
    match r {
        Ok(line) => Ok(line@),
        Err(e) => Err(e@),
    }
}

/// All characters as a string.
fn text_of(v: &Vec<char>) -> (s: String)
    ensures
        s@ == v@,
{
    let s = string_of(v, 0, v.len());
    assert(v@.subrange(0, v@.len() as int) =~= v@);
    s
}

/// Whether `s` starts with `HTTP/`.
fn is_http_version(s: &Vec<char>) -> (r: bool)
    ensures
        r == starts_with(s@, "HTTP/"@),
{
    proof {
        reveal_strlit("HTTP/");
        if s@.len() >= 5 {
            assert(s@.take(5).len() == 5);
            if s@[0] == 'H' && s@[1] == 'T' && s@[2] == 'T' && s@[3] == 'P' && s@[4] == '/' {
                assert(s@.take(5) =~= "HTTP/"@);
            }
            if s@.take(5) == "HTTP/"@ {
                assert(s@.take(5)[0] == s@[0]);
                assert(s@.take(5)[1] == s@[1]);
                assert(s@.take(5)[2] == s@[2]);
                assert(s@.take(5)[3] == s@[3]);
                assert(s@.take(5)[4] == s@[4]);
            }
        }
    }
    s.len() >= 5 && s[0] == 'H' && s[1] == 'T' && s[2] == 'T' && s[3] == 'P' && s[4] == '/'
}

/// Parses a request line.
pub fn parse_request_line(bytes: &[u8]) -> (r: Result<RequestLine, HttpError>)
    ensures
        line_result(r) == request_line_in(bytes@),
{
    assert(bytes@.subrange(0, bytes@.len() as int) =~= bytes@);
    let text = match decode_text(bytes, 0, bytes.len()) {
        Some(t) => t,
        None => {
            return Err(HttpError::LineNotUtf8);
        },
    };
    let line = cut_line_end(&chars_of(text.as_str()), true);
    let (method, rest) = split_at_char(&line, ' ');
    let rest = match rest {
        Some(v) => v,
        None => {
            return Err(HttpError::MissingPath);
        },
    };
    let (path, tail) = split_at_char(&rest, ' ');
    let tail = match tail {
        Some(v) => v,
        None => {
            return Err(HttpError::MissingVersion);
        },
    };
    let (version, _) = split_at_char(&tail, ' ');
    if is_http_version(&version) {
        Ok(
            RequestLine {
                method: text_of(&method),
                path: text_of(&path),
                version: text_of(&version),
            },
        )
    } else {
        Err(HttpError::BadVersion(text_of(&version)))
    }
}

// ---------------------------------------------------------------------------
// Headers
// ---------------------------------------------------------------------------

/// What the headers say that matters here.
#[derive(Debug, Clone, Copy, PartialEq, Eq, Structural)]
pub struct HeaderFacts {
    pub content_length: usize,
    pub close: bool,
    pub keep_alive: bool,
}

/// One of the comma-separated tokens in `list` is `name`, up to case and white
/// space around it.
pub open spec fn has_token(list: Seq<char>, name: Seq<char>) -> bool
    decreases list.len(),
{
    same_ignoring_case(trimmed(before_char(list, ',')), name) || match after_char(list, ',') {
        Some(rest) => rest.len() < list.len() && has_token(rest, name),
        None => false,
    }
}

/// What is known after one more header line.
pub open spec fn header_line(line: Seq<char>, facts: HeaderFacts) -> Result<
    HeaderFacts,
    HttpFault,
> {
    match after_char(line, ':') {
        None => Ok(facts),
        Some(rest) => {
            let key = trimmed(before_char(line, ':'));
            let value = trimmed(rest);
            if same_ignoring_case(key, "content-length"@) {
                match unsigned_number(value) {
                    Some(n) => Ok(HeaderFacts { content_length: n, ..facts }),
                    None => Err(HttpFault::BadContentLength(value)),
                }
            } else if same_ignoring_case(key, "connection"@) {
                Ok(
                    HeaderFacts {
                        close: facts.close || has_token(value, "close"@),
                        keep_alive: facts.keep_alive || has_token(value, "keep-alive"@),
                        ..facts
                    },
                )
            } else {
                Ok(facts)
            }
        },
    }
}

/// What is known after the header lines in `text`, up to the first empty one.
pub open spec fn header_lines(text: Seq<char>, facts: HeaderFacts) -> Result<HeaderFacts, HttpFault>
    decreases text.len(),
{
    let line = without_line_end(before_char(text, '\n'), false);
    if line.len() == 0 {
        Ok(facts)
    } else {
        match header_line(line, facts) {
            Err(e) => Err(e),
            Ok(next) => match after_char(text, '\n') {
                Some(rest) => if rest.len() < text.len() {
                    header_lines(rest, next)
                } else {
                    Ok(next)
                },
                None => Ok(next),
            },
        }
    }
}

/// What is known before the first header.
pub open spec fn no_headers() -> HeaderFacts {
    HeaderFacts { content_length: 0, close: false, keep_alive: false }
}

/// What the bytes of a header block say.
pub open spec fn headers_in(bytes: Seq<u8>) -> Result<HeaderFacts, HttpFault> {
    match utf8_text(bytes) {
        Some(text) => header_lines(text, no_headers()),
        None => Err(HttpFault::HeadersNotUtf8),
    }
}

/// A result with its error viewed.
pub open spec fn facts_result(r: Result<HeaderFacts, HttpError>) -> Result<HeaderFacts, HttpFault> {
    match r {
        Ok(f) => Ok(f),
        Err(e) => Err(e@),
    }
}

/// Whether a comma-separated list has a token.
fn list_has_token(list: &Vec<char>, name: &str) -> (r: bool)
    ensures
        r == has_token(list@, name@),
    decreases list@.len(),
{
    let (token, rest) = split_at_char(list, ',');
    if eq_ignore_ascii_case(&trim(&token), name) {
        return true;
    }
    match rest {
        Some(more) => list_has_token(&more, name),
        None => false,
    }
}

/// Takes one header line into account.
fn take_header_line(line: &Vec<char>, facts: HeaderFacts) -> (r: Result<HeaderFacts, HttpError>)
    ensures
        facts_result(r) == header_line(line@, facts),
{
    let (key, rest) = split_at_char(line, ':');
    let rest = match rest {
        Some(v) => v,
        None => {
            return Ok(facts);
        },
    };
    let key = trim(&key);
    let value = trim(&rest);
    if eq_ignore_ascii_case(&key, "content-length") {
        match parse_unsigned(&value) {
            Some(n) => Ok(
                HeaderFacts {
                    content_length: n,
                    close: facts.close,
                    keep_alive: facts.keep_alive,
                },
            ),
            None => Err(HttpError::BadContentLength(text_of(&value))),
        }
    } else if eq_ignore_ascii_case(&key, "connection") {
        let close = list_has_token(&value, "close");
        let keep_alive = list_has_token(&value, "keep-alive");
        Ok(
            HeaderFacts {
                content_length: facts.content_length,
                close: facts.close || close,
                keep_alive: facts.keep_alive || keep_alive,
            },
        )
    } else {
        Ok(facts)
    }
}

/// Parses a header block.
pub fn parse_headers(bytes: &[u8]) -> (r: Result<HeaderFacts, HttpError>)
    ensures
        facts_result(r) == headers_in(bytes@),
{
    assert(bytes@.subrange(0, bytes@.len() as int) =~= bytes@);
    let text = match decode_text(bytes, 0, bytes.len()) {
        Some(t) => t,
        None => {
            return Err(HttpError::HeadersNotUtf8);
        },
    };
    let ghost all = text@;
    let mut rest = chars_of(text.as_str());
    let mut facts = HeaderFacts { content_length: 0, close: false, keep_alive: false };
    loop
        invariant
            headers_in(bytes@) == header_lines(all, no_headers()),
            header_lines(all, no_headers()) == header_lines(rest@, facts),
        decreases rest@.len(),
    {
        let (line, more) = split_at_char(&rest, '\n');
        let line = cut_line_end(&line, false);
        if line.len() == 0 {
            return Ok(facts);
        }
        match take_header_line(&line, facts) {
            Err(e) => {
                return Err(e);
            },
            Ok(next) => match more {
                None => {
                    return Ok(next);
                },
                Some(v) => {
                    facts = next;
                    rest = v;
                },
            },
        }
    }
}

// ---------------------------------------------------------------------------
// Requests
// ---------------------------------------------------------------------------

/// A request as far as it matters for serving files.
#[derive(Debug)]
pub struct Request {
    pub method: String,
    pub path: String,
    /// Whether to keep the connection open after the response.
    pub keep_alive: bool,
}

/// What a [`Request`] stands for.
pub struct RequestView {
    pub method: Seq<char>,
    pub path: Seq<char>,
    pub keep_alive: bool,
}

impl View for Request {
    type V = RequestView;

    open spec fn view(&self) -> RequestView {
        RequestView { method: self.method@, path: self.path@, keep_alive: self.keep_alive }
    }
}

/// Whether to keep the connection open: HTTP/1.1 does unless the peer opts out,
/// HTTP/1.0 does only where the peer opts in, and no other version does.
pub open spec fn stays_open(version: Seq<char>, facts: HeaderFacts) -> bool {
    if version == "HTTP/1.1"@ {
        !facts.close
    } else if version == "HTTP/1.0"@ {
        facts.keep_alive
    } else {
        false
    }
}

/// The request that a request line and a header block make.
pub open spec fn request_of(line: RequestLineView, headers: Seq<u8>) -> Result<
    RequestView,
    HttpFault,
> {
    match headers_in(headers) {
        Ok(facts) => if facts.content_length > MAX_BODY_BYTES {
            Err(HttpFault::BodyTooLong(facts.content_length))
        } else {
            Ok(
                RequestView {
                    method: line.method,
                    path: line.path,
                    keep_alive: stays_open(line.version, facts),
                },
            )
        },
        Err(e) => Err(e),
    }
}

/// A result with its value and its error viewed.
pub open spec fn request_result(r: Result<Request, HttpError>) -> Result<RequestView, HttpFault> {
    match r {
        Ok(q) => Ok(q@),
        Err(e) => Err(e@),
    }
}

/// Makes a request out of its line and its header block.
pub fn finish_request(line: &RequestLine, headers: &[u8]) -> (r: Result<Request, HttpError>)
    ensures
        request_result(r) == request_of(line@, headers@),
{
    match parse_headers(headers) {
        Ok(facts) => {
            if facts.content_length > MAX_BODY_BYTES {
                return Err(HttpError::BodyTooLong(facts.content_length));
            }
            let version: &str = line.version.as_str();
            let keep_alive = if same_text(version, "HTTP/1.1") {
                !facts.close
            } else if same_text(version, "HTTP/1.0") {
                facts.keep_alive
            } else {
                false
            };
            Ok(Request { method: line.method.clone(), path: line.path.clone(), keep_alive })
        },
        Err(e) => Err(e),
    }
}

/// The request that the bytes `s` of a stream start with, and how many of them it
/// takes, or what makes it unreadable; nothing where more bytes are needed to tell.
pub open spec fn request_so_far(s: Seq<u8>) -> Option<Result<(RequestView, int), HttpFault>> {
    match bounded_read(Seq::empty(), s, line_end(s, 10), MAX_REQUEST_LINE) {
        (ReadStep::TooLong, _) => Some(Err(HttpFault::LineTooLong(MAX_REQUEST_LINE))),
        (ReadStep::More, _) => None,
        (ReadStep::Done(n), line) => match request_line_in(line) {
            Err(e) => Some(Err(e)),
            Ok(parsed) => {
                let rest = s.skip(n as int);
                match bounded_read(Seq::empty(), rest, headers_end(rest), MAX_HEADERS) {
                    (ReadStep::TooLong, _) => Some(Err(HttpFault::HeadersTooLong(MAX_HEADERS))),
                    (ReadStep::More, _) => None,
                    (ReadStep::Done(m), headers) => match request_of(parsed, headers) {
                        Ok(request) => Some(Ok((request, n + m))),
                        Err(e) => Some(Err(e)),
                    },
                }
            },
        },
    }
}

/// What the end of a stream means where `s` came of a request that is not
/// complete: nothing where `s` is empty.
pub open spec fn end_fault(s: Seq<u8>) -> Option<HttpFault> {
    if s.len() == 0 {
        None
    } else if line_end(s, 10) is None {
        Some(HttpFault::ClosedMidLine)
    } else {
        Some(HttpFault::ClosedMidHeaders)
    }
}

/// The request at the front of a stream that ends behind `stream`, and how many
/// bytes it takes; nothing where the stream is empty.
pub open spec fn request_in(stream: Seq<u8>) -> Result<Option<(RequestView, int)>, HttpFault> {
    match request_so_far(stream) {
        Some(Ok(found)) => Ok(Some(found)),
        Some(Err(e)) => Err(e),
        None => match end_fault(stream) {
            Some(e) => Err(e),
            None => Ok(None),
        },
    }
}

/// A request that was read out of some bytes, or why it cannot be read, viewed.
pub open spec fn parsed_view(r: Option<Result<(Request, usize), HttpError>>) -> Option<
    Result<(RequestView, int), HttpFault>,
> {
    match r {
        Some(Ok((q, taken))) => Some(Ok((q@, taken as int))),
        Some(Err(e)) => Some(Err(e@)),
        None => None,
    }
}

/// Reads the request that the bytes of a stream start with.
fn parse_so_far(s: &[u8]) -> (r: Option<Result<(Request, usize), HttpError>>)
    ensures
        parsed_view(r) == request_so_far(s@),
{
    let mut line: Vec<u8> = Vec::new();
    assert(line@ + s@ =~= s@);
    assert(line@ =~= Seq::empty());
    proof {
        lemma_line_end_positive(s@, 10);
    }
    let taken: usize = match read_until_limited(&mut line, s, 10, MAX_REQUEST_LINE) {
        ReadStep::TooLong => {
            return Some(Err(HttpError::LineTooLong(MAX_REQUEST_LINE)));
        },
        ReadStep::More => {
            return None;
        },
        ReadStep::Done(n) => n,
    };
    let parsed = match parse_request_line(line.as_slice()) {
        Ok(p) => p,
        Err(e) => {
            return Some(Err(e));
        },
    };
    let rest: &[u8] = vstd::slice::slice_subrange(s, taken, s.len());
    assert(rest@ =~= s@.skip(taken as int));
    let mut headers: Vec<u8> = Vec::new();
    assert(headers@ + rest@ =~= rest@);
    assert(headers@ =~= Seq::empty());
    proof {
        if headers_end(rest@) is Some {
            law_headers_end_is_stable(rest@, Seq::empty());
        }
    }
    match read_headers_limited(&mut headers, rest, MAX_HEADERS) {
        ReadStep::TooLong => Some(Err(HttpError::HeadersTooLong(MAX_HEADERS))),
        ReadStep::More => None,
        ReadStep::Done(n) => match finish_request(&parsed, headers.as_slice()) {
            Ok(q) => Some(Ok((q, taken + n))),
            Err(e) => Some(Err(e)),
        },
    }
}

/// Tells what the end of a stream means where `s` came of a request that is not
/// complete.
fn check_end(s: &Vec<u8>) -> (r: Result<(), HttpError>)
    ensures
        match r {
            Ok(_) => end_fault(s@) is None,
            Err(e) => end_fault(s@) == Some(e@),
        },
{
    if s.len() == 0 {
        Ok(())
    } else if find_line_end(s, 10).is_none() {
        Err(HttpError::ClosedMidLine)
    } else {
        Err(HttpError::ClosedMidHeaders)
    }
}

/// Reads the request at the front of a stream that ends behind `stream`, and
/// tells how many bytes it takes. An empty stream has none.
pub fn read_request(stream: &[u8]) -> (r: Result<Option<(Request, usize)>, HttpError>)
    ensures
        match r {
            Ok(Some((q, taken))) => request_in(stream@) == Ok::<
                Option<(RequestView, int)>,
                HttpFault,
            >(Some((q@, taken as int))),
            Ok(None) => request_in(stream@) == Ok::<Option<(RequestView, int)>, HttpFault>(None),
            Err(e) => request_in(stream@) == Err::<Option<(RequestView, int)>, HttpFault>(e@),
        },
{
    let mut reader = RequestReader::new();
    assert(reader@ + stream@ =~= stream@);
    match reader.feed(stream) {
        Progress::Complete(q, used) => Ok(Some((q, used))),
        Progress::Failed(e) => Err(e),
        Progress::Incomplete => match reader.end() {
            Ok(_) => Ok(None),
            Err(e) => Err(e),
        },
    }
}

/// Reads requests out of a stream that comes in chunks.
#[derive(Debug)]
pub struct RequestReader {
    buf: Vec<u8>,
}

/// What a chunk has brought.
#[derive(Debug)]
pub enum Progress {
    /// The request is not complete; the whole chunk was taken.
    Incomplete,
    /// The request is complete; so many bytes of the chunk belong to it.
    Complete(Request, usize),
    /// The request cannot be read.
    Failed(HttpError),
}

impl View for RequestReader {
    type V = Seq<u8>;

    closed spec fn view(&self) -> Seq<u8> {
        self.buf@
    }
}

impl RequestReader {
    #[verifier::type_invariant]
    spec fn well_formed(self) -> bool {
        request_so_far(self.buf@) is None
    }

    /// A reader that no byte has come to.
    pub fn new() -> (r: RequestReader)
        ensures
            r@ == Seq::<u8>::empty(),
    {
        RequestReader { buf: Vec::new() }
    }

    /// Takes the next chunk of the stream. What was kept of the chunks before, with
    /// this one behind it, is read as if it had come at once. A reader whose request
    /// was complete, or could not be read, starts anew.
    pub fn feed(&mut self, chunk: &[u8]) -> (p: Progress)
        ensures
            match p {
                Progress::Incomplete => {
                    &&& request_so_far(old(self)@ + chunk@) is None
                    &&& final(self)@ == old(self)@ + chunk@
                },
                Progress::Complete(q, used) => {
                    &&& request_so_far(old(self)@ + chunk@) == Some(
                        Ok::<(RequestView, int), HttpFault>((q@, old(self)@.len() + used)),
                    )
                    &&& used <= chunk@.len()
                    &&& final(self)@ == Seq::<u8>::empty()
                },
                Progress::Failed(e) => {
                    &&& request_so_far(old(self)@ + chunk@) == Some(
                        Err::<(RequestView, int), HttpFault>(e@),
                    )
                    &&& final(self)@ == Seq::<u8>::empty()
                },
            },
    {
        proof {
            use_type_invariant(&*self);
            lemma_request_takes(self.buf@, chunk@);
        }
        let had: usize = self.buf.len();
        let all = join(&self.buf, chunk);
        match parse_so_far(all.as_slice()) {
            None => {
                self.buf = all;
                Progress::Incomplete
            },
            Some(Ok((q, taken))) => {
                self.buf = Vec::new();
                Progress::Complete(q, taken - had)
            },
            Some(Err(e)) => {
                self.buf = Vec::new();
                Progress::Failed(e)
            },
        }
    }

    /// Tells whether the stream may end here: between two requests, but not inside
    /// one.
    pub fn end(&self) -> (r: Result<(), HttpError>)
        ensures
            match r {
                Ok(_) => end_fault(self@) is None,
                Err(e) => end_fault(self@) == Some(e@),
            },
    {
        check_end(&self.buf)
    }
}

/// A request that is complete only with `more` takes all of `s` and no more than
/// both.
proof fn lemma_request_takes(s: Seq<u8>, more: Seq<u8>)
    requires
        request_so_far(s) is None,
    ensures
        request_so_far(s + more) matches Some(Ok((_, n))) ==> s.len() <= n <= s.len() + more.len(),
{
    let t = s + more;
    if request_so_far(t) matches Some(Ok(_)) {
        lemma_line_end_positive(t, 10);
        let n = line_end(t, 10)->0;
        let rest = t.skip(n);
        law_headers_end_is_stable(rest, Seq::empty());
        if line_end(s, 10) is None {
            lemma_line_end_after(s, more, 10);
        } else {
            law_line_end_is_stable(s, more, 10);
            assert(rest =~= s.skip(n) + more);
            lemma_terminator_after(s.skip(n), more, 0);
        }
    }
}

/// Reading a line chunk by chunk gives what reading it at once gives: `a` and then
/// `b` is the same as `a + b`.
pub proof fn law_line_chunks_do_not_matter(a: Seq<u8>, b: Seq<u8>, delim: u8, max: usize)
    ensures
        ({
            let first = bounded_read(Seq::empty(), a, line_end(a, delim), max);
            let whole = bounded_read(Seq::empty(), a + b, line_end(a + b, delim), max);
            chunked(first, bounded_read(a, a + b, line_end(a + b, delim), max), whole, a.len())
        }),
{
    lemma_line_end_positive(a, delim);
    lemma_line_end_positive(a + b, delim);
    if line_end(a, delim) is Some {
        law_line_end_is_stable(a, b, delim);
    } else {
        lemma_line_end_after(a, b, delim);
    }
}

/// Reading a header block chunk by chunk gives what reading it at once gives: `a`
/// and then `b` is the same as `a + b`.
pub proof fn law_header_chunks_do_not_matter(a: Seq<u8>, b: Seq<u8>, max: usize)
    ensures
        ({
            let first = bounded_read(Seq::empty(), a, headers_end(a), max);
            let whole = bounded_read(Seq::empty(), a + b, headers_end(a + b), max);
            chunked(first, bounded_read(a, a + b, headers_end(a + b), max), whole, a.len())
        }),
{
    if headers_end(a) is Some {
        law_headers_end_is_stable(a, b);
    } else {
        lemma_terminator_after(a, b, 0);
    }
}

/// `whole` is what the step `first`, and `second` behind it where `first` asks for
/// more, come to, where the first chunk has `len` bytes: the same step, counted from
/// the start of the part, and the same bytes kept.
pub open spec fn chunked(
    first: (ReadStep, Seq<u8>),
    second: (ReadStep, Seq<u8>),
    whole: (ReadStep, Seq<u8>),
    len: nat,
) -> bool {
    match first.0 {
        ReadStep::More => match second.0 {
            ReadStep::Done(n) => whole.0 == ReadStep::Done((len + n) as usize) && whole.1
                == second.1,
            ReadStep::More => whole == second,
            ReadStep::TooLong => whole.0 is TooLong,
        },
        _ => whole == first,
    }
}

/// A request, or what makes it unreadable, is the same whatever follows in the
/// stream. So the outcome does not depend on where one chunk ends and the next
/// begins: a reader that is fed `a` and then `b` finds what one that is fed `a + b`
/// finds.
pub proof fn law_request_is_stable(stream: Seq<u8>, more: Seq<u8>)
    ensures
        request_so_far(stream) is Some ==> request_so_far(stream + more) == request_so_far(stream),
        request_so_far(stream) is Some ==> request_in(stream + more) == request_in(stream),
{
    if request_so_far(stream) is Some {
        if line_end(stream, 10) is None {
            law_line_overflow_is_stable(stream, more, 10, MAX_REQUEST_LINE as int);
        } else {
            law_line_end_is_stable(stream, more, 10);
            let n = line_end(stream, 10)->0;
            let rest = stream.skip(n);
            assert((stream + more).skip(n) =~= rest + more);
            if headers_end(rest) is None {
                if rest.len() > MAX_HEADERS {
                    law_headers_overflow_is_stable(rest, more, MAX_HEADERS as int);
                }
            } else {
                law_headers_end_is_stable(rest, more);
            }
        }
    }
}

/// A line ends with the first byte that is its delimiter.
pub proof fn law_line_ends_with_its_delimiter(s: Seq<u8>, delim: u8)
    ensures
        match line_end(s, delim) {
            Some(n) => 0 < n <= s.len() && s[n - 1] == delim && forall|i: int|
                0 <= i < n - 1 ==> #[trigger] s[i] != delim,
            None => forall|i: int| 0 <= i < s.len() ==> #[trigger] s[i] != delim,
        },
    decreases s.len(),
{
    if s.len() > 0 && s[0] != delim {
        let t = s.drop_first();
        law_line_ends_with_its_delimiter(t, delim);
        match line_end(t, delim) {
            Some(n) => {
                assert forall|i: int| 0 <= i < n implies #[trigger] s[i] != delim by {
                    if i > 0 {
                        assert(t[i - 1] == s[i]);
                    }
                }
            },
            None => {
                assert forall|i: int| 0 <= i < s.len() implies #[trigger] s[i] != delim by {
                    if i > 0 {
                        assert(t[i - 1] == s[i]);
                    }
                }
            },
        }
    }
}

proof fn lemma_terminator_is_first(s: Seq<u8>, from: int)
    requires
        0 <= from,
    ensures
        match terminator(s, from) {
            Some(e) => {
                ||| from <= e - 3 && crlf_crlf_at(s, e - 3) && forall|i: int|
                    from <= i < e - 3 ==> !#[trigger] crlf_crlf_at(s, i) && !lf_lf_at(s, i)
                ||| from <= e - 1 && lf_lf_at(s, e - 1) && forall|i: int|
                    from <= i < e - 1 ==> !#[trigger] crlf_crlf_at(s, i) && !lf_lf_at(s, i)
            },
            None => forall|i: int| from <= i ==> !#[trigger] crlf_crlf_at(s, i) && !lf_lf_at(s, i),
        },
    decreases s.len() - from,
{
    if from < s.len() && !crlf_crlf_at(s, from) && !lf_lf_at(s, from) {
        lemma_terminator_is_first(s, from + 1);
    }
}

/// A header block ends with the first CR LF CR LF or LF LF.
pub proof fn law_headers_end_with_an_empty_line(s: Seq<u8>)
    ensures
        match headers_end(s) {
            Some(n) => exists|at: int|
                #![trigger s[at]]
                0 <= at < n <= s.len() && ((n == at + 4 && s[at] == 13 && s[at + 1] == 10 && s[at
                    + 2] == 13 && s[at + 3] == 10) || (n == at + 2 && s[at] == 10 && s[at + 1]
                    == 10)) && forall|i: int|
                    0 <= i < at ==> !((#[trigger] s[i]) == 10 && s[i + 1] == 10) && !(i + 3
                        < s.len() && s[i] == 13 && s[i + 1] == 10 && s[i + 2] == 13 && s[i + 3]
                        == 10),
            None => forall|i: int|
                0 <= i < s.len() - 1 ==> !((#[trigger] s[i]) == 10 && s[i + 1] == 10) && !(i + 3
                    < s.len() && s[i] == 13 && s[i + 1] == 10 && s[i + 2] == 13 && s[i + 3] == 10),
        },
{
    lemma_terminator_is_first(s, 0);
    match terminator(s, 0) {
        Some(e) => {
            let at = if 0 <= e - 3 && crlf_crlf_at(s, e - 3) && forall|i: int|
                0 <= i < e - 3 ==> !#[trigger] crlf_crlf_at(s, i) && !lf_lf_at(s, i) {
                e - 3
            } else {
                e - 1
            };
            assert forall|i: int| 0 <= i < at implies !((#[trigger] s[i]) == 10 && s[i + 1] == 10)
                && !(i + 3 < s.len() && s[i] == 13 && s[i + 1] == 10 && s[i + 2] == 13 && s[i + 3]
                == 10) by {
                assert(!crlf_crlf_at(s, i) && !lf_lf_at(s, i));
            }
        },
        None => {
            assert forall|i: int| 0 <= i < s.len() - 1 implies !((#[trigger] s[i]) == 10 && s[i + 1]
                == 10) && !(i + 3 < s.len() && s[i] == 13 && s[i + 1] == 10 && s[i + 2] == 13 && s[i
                + 3] == 10) by {
                assert(!crlf_crlf_at(s, i) && !lf_lf_at(s, i));
            }
        },
    }
}

/// A chunked read keeps the bytes of its part and counts those that the chunk gave to
/// it, asks for more while the part may still fit, and fails where it cannot.
pub proof fn law_reads_are_bounded(before: Seq<u8>, chunk: Seq<u8>, end: Option<int>, max: usize)
    requires
        end matches Some(n) ==> before.len() <= n <= before.len() + chunk.len(),
    ensures
        ({
            let (step, kept) = bounded_read(before, before + chunk, end, max);
            match end {
                Some(n) => if n <= max {
                    &&& step matches ReadStep::Done(used)
                    &&& kept == before + chunk.take(n - before.len())
                    &&& used == n - before.len()
                } else {
                    step is TooLong
                },
                None => if before.len() + chunk.len() <= max {
                    step is More && kept == before + chunk
                } else {
                    step is TooLong
                },
            }
        }),
{
    if let Some(n) = end {
        assert((before + chunk).take(n) =~= before + chunk.take(n - before.len()));
    }
}

/// A request line is a method, a path and a version with single blanks between them;
/// its line end does not matter, nor what follows a further blank. Without a first or
/// a second blank the path or the version is missing, and a version has to start with
/// `HTTP/`.
pub proof fn law_request_line_has_three_parts(
    method: Seq<char>,
    path: Seq<char>,
    version: Seq<char>,
    more: Seq<char>,
    ending: Seq<char>,
)
    requires
        forall|i: int| 0 <= i < method.len() ==> #[trigger] method[i] != ' ',
        forall|i: int| 0 <= i < path.len() ==> #[trigger] path[i] != ' ',
        forall|i: int| 0 <= i < version.len() ==> #[trigger] version[i] != ' ',
        forall|i: int| 0 <= i < ending.len() ==> #[trigger] ending[i] == '\r' || ending[i] == '\n',
        method.len() > 0 ==> method.last() != '\r' && method.last() != '\n',
        path.len() > 0 ==> path.last() != '\r' && path.last() != '\n',
        version.len() > 0 ==> version.last() != '\r' && version.last() != '\n',
        more.len() > 0 ==> more.last() != '\r' && more.last() != '\n',
    ensures
        ({
            let short = method + seq![' '] + (path + seq![' '] + version);
            let long = method + seq![' '] + (path + seq![' '] + (version + seq![' '] + more));
            let good = version.len() >= 5 && version.take(5) == seq!['H', 'T', 'T', 'P', '/'];
            let found = RequestLineView { method, path, version };
            &&& good ==> request_line(short + ending) == Ok::<RequestLineView, HttpFault>(found)
            &&& good ==> request_line(long + ending) == Ok::<RequestLineView, HttpFault>(found)
            &&& !good ==> request_line(short + ending) == Err::<RequestLineView, HttpFault>(
                HttpFault::BadVersion(version),
            )
        }),
        request_line(method + ending) == Err::<RequestLineView, HttpFault>(HttpFault::MissingPath),
        request_line(method + seq![' '] + path + ending) == Err::<RequestLineView, HttpFault>(
            HttpFault::MissingVersion,
        ),
{
    reveal_strlit("HTTP/");
    assert("HTTP/"@ =~= seq!['H', 'T', 'T', 'P', '/']);
    let short_tail = path + seq![' '] + version;
    let long_tail = path + seq![' '] + (version + seq![' '] + more);
    let short = method + seq![' '] + short_tail;
    let long = method + seq![' '] + long_tail;
    let two = method + seq![' '] + path;
    assert(short.last() == if version.len() > 0 {
        version.last()
    } else {
        ' '
    });
    assert(long.last() == if more.len() > 0 {
        more.last()
    } else {
        ' '
    });
    assert(two.last() == if path.len() > 0 {
        path.last()
    } else {
        ' '
    });
    crate::scan::law_line_end_is_cut_off(short, ending, true);
    crate::scan::law_line_end_is_cut_off(long, ending, true);
    crate::scan::law_line_end_is_cut_off(two, ending, true);
    crate::scan::law_line_end_is_cut_off(method, ending, true);
    crate::scan::law_text_is_cut_at_the_first_mark(method, ' ', short_tail);
    crate::scan::law_text_is_cut_at_the_first_mark(method, ' ', long_tail);
    crate::scan::law_text_is_cut_at_the_first_mark(method, ' ', path);
    crate::scan::law_text_is_cut_at_the_first_mark(path, ' ', version);
    crate::scan::law_text_is_cut_at_the_first_mark(path, ' ', version + seq![' '] + more);
    crate::scan::law_text_is_cut_at_the_first_mark(version, ' ', more);
}

/// A list of tokens has a token where one of its parts between commas is that token,
/// up to case and to white space around it.
pub proof fn law_tokens_stand_between_commas(a: Seq<char>, b: Seq<char>, name: Seq<char>)
    ensures
        (forall|i: int| 0 <= i < a.len() ==> #[trigger] a[i] != ',') ==> has_token(a, name)
            == same_ignoring_case(trimmed(a), name),
        has_token(a + seq![','] + b, name) == (has_token(a, name) || has_token(b, name)),
    decreases a.len(),
{
    let list = a + seq![','] + b;
    crate::scan::lemma_char_index(a, ',');
    match crate::scan::char_index(a, ',') {
        None => {
            crate::scan::law_text_is_cut_at_the_first_mark(a, ',', b);
        },
        Some(i) => {
            let front = a.take(i);
            let rest = a.skip(i + 1);
            assert(a =~= front + seq![','] + rest);
            assert(list =~= front + seq![','] + (rest + seq![','] + b));
            assert forall|j: int| 0 <= j < front.len() implies #[trigger] front[j] != ',' by {
                assert(front[j] == a[j]);
            }
            crate::scan::law_text_is_cut_at_the_first_mark(front, ',', rest);
            crate::scan::law_text_is_cut_at_the_first_mark(front, ',', rest + seq![','] + b);
            law_tokens_stand_between_commas(rest, b, name);
            assert(a[i] == ',');
        },
    }
}

/// A header line is a name and a value with a colon between them. The names are known
/// in any case: a content length sets the length, a connection header adds to what is
/// known of the connection what its tokens say, and any other line changes nothing.
pub proof fn law_headers_are_read_by_name(
    name: Seq<char>,
    value: Seq<char>,
    facts: HeaderFacts,
    plain: Seq<char>,
)
    requires
        forall|i: int| 0 <= i < name.len() ==> #[trigger] name[i] != ':',
        forall|i: int| 0 <= i < plain.len() ==> #[trigger] plain[i] != ':',
    ensures
        ({
            let line = name + seq![':'] + value;
            let read = header_line(line, facts);
            &&& same_ignoring_case(trimmed(name), "content-length"@) ==> match unsigned_number(
                trimmed(value),
            ) {
                Some(n) => {
                    &&& read matches Ok(next)
                    &&& next.content_length == n
                    &&& next.close == facts.close
                    &&& next.keep_alive == facts.keep_alive
                },
                None => read == Err::<HeaderFacts, HttpFault>(
                    HttpFault::BadContentLength(trimmed(value)),
                ),
            }
            &&& same_ignoring_case(trimmed(name), "connection"@) ==> {
                &&& read matches Ok(next)
                &&& next.content_length == facts.content_length
                &&& next.close == (facts.close || has_token(trimmed(value), "close"@))
                &&& next.keep_alive == (facts.keep_alive || has_token(
                    trimmed(value),
                    "keep-alive"@,
                ))
            }
            &&& !same_ignoring_case(trimmed(name), "content-length"@) && !same_ignoring_case(
                trimmed(name),
                "connection"@,
            ) ==> read == Ok::<HeaderFacts, HttpFault>(facts)
        }),
        header_line(plain, facts) == Ok::<HeaderFacts, HttpFault>(facts),
{
    reveal_strlit("content-length");
    reveal_strlit("connection");
    assert("content-length"@.len() != "connection"@.len());
    crate::scan::law_text_is_cut_at_the_first_mark(name, ':', value);
    crate::scan::law_text_is_cut_at_the_first_mark(plain, ':', value);
}

/// The header lines are read one after the other up to the first empty one; the
/// carriage returns at a line's end do not matter.
pub proof fn law_header_lines_are_read_in_turn(
    line: Seq<char>,
    ending: Seq<char>,
    rest: Seq<char>,
    facts: HeaderFacts,
)
    requires
        forall|i: int| 0 <= i < line.len() ==> #[trigger] line[i] != '\n',
        line.len() > 0 ==> line.last() != '\r',
        forall|i: int| 0 <= i < ending.len() ==> #[trigger] ending[i] == '\r',
    ensures
        line.len() == 0 ==> header_lines(line + ending + seq!['\n'] + rest, facts) == Ok::<
            HeaderFacts,
            HttpFault,
        >(facts),
        line.len() > 0 ==> header_lines(line + ending + seq!['\n'] + rest, facts)
            == match header_line(line, facts) {
            Ok(next) => header_lines(rest, next),
            Err(e) => Err(e),
        },
        line.len() > 0 ==> header_lines(line + ending, facts) == header_line(line, facts),
{
    let full = line + ending;
    assert forall|i: int| 0 <= i < full.len() implies #[trigger] full[i] != '\n' by {
        if i < line.len() {
            assert(full[i] == line[i]);
        } else {
            assert(full[i] == ending[i - line.len()]);
        }
    }
    crate::scan::law_text_is_cut_at_the_first_mark(full, '\n', rest);
    crate::scan::law_line_end_is_cut_off(line, ending, false);
}

/// A request keeps its method and its path; one with a body is refused. The connection
/// stays open with HTTP/1.1 unless the peer asks to close it, with HTTP/1.0 only where
/// the peer asks to keep it, and with nothing else.
pub proof fn law_request_of_line_and_headers(line: RequestLineView, headers: Seq<u8>)
    ensures
        match headers_in(headers) {
            Ok(facts) => if facts.content_length > 0 {
                request_of(line, headers) == Err::<RequestView, HttpFault>(
                    HttpFault::BodyTooLong(facts.content_length),
                )
            } else {
                &&& request_of(line, headers) matches Ok(q)
                &&& q.method == line.method
                &&& q.path == line.path
                &&& line.version == "HTTP/1.1"@ ==> q.keep_alive == !facts.close
                &&& line.version == "HTTP/1.0"@ ==> q.keep_alive == facts.keep_alive
                &&& line.version != "HTTP/1.1"@ && line.version != "HTTP/1.0"@ ==> !q.keep_alive
            },
            Err(e) => request_of(line, headers) == Err::<RequestView, HttpFault>(e),
        },
        utf8_text(headers) is None ==> headers_in(headers) == Err::<HeaderFacts, HttpFault>(
            HttpFault::HeadersNotUtf8,
        ),
        utf8_text(headers) matches Some(text) ==> headers_in(headers) == header_lines(
            text,
            (HeaderFacts { content_length: 0, close: false, keep_alive: false }),
        ),
{
    reveal_strlit("HTTP/1.1");
    reveal_strlit("HTTP/1.0");
    assert("HTTP/1.1"@[7] != "HTTP/1.0"@[7]);
}

/// A stream whose first line is `line` and whose header block is `headers` holds the
/// request that the two make, and it takes their bytes and no more. A line of more than
/// 8 KiB and a block of more than 64 KiB are refused.
pub proof fn law_request_is_line_and_headers(line: Seq<u8>, headers: Seq<u8>, more: Seq<u8>)
    requires
        line_end(line, 10) == Some(line.len() as int),
        headers_end(headers) == Some(headers.len() as int),
    ensures
        ({
            let stream = line + headers + more;
            let found = request_in(stream);
            if line.len() > 8192 {
                found == Err::<Option<(RequestView, int)>, HttpFault>(HttpFault::LineTooLong(8192))
            } else {
                match utf8_text(line) {
                    None => found == Err::<Option<(RequestView, int)>, HttpFault>(
                        HttpFault::LineNotUtf8,
                    ),
                    Some(text) => match request_line(text) {
                        Err(e) => found == Err::<Option<(RequestView, int)>, HttpFault>(e),
                        Ok(parsed) => if headers.len() > 65536 {
                            found == Err::<Option<(RequestView, int)>, HttpFault>(
                                HttpFault::HeadersTooLong(65536),
                            )
                        } else {
                            match request_of(parsed, headers) {
                                Err(e) => found == Err::<Option<(RequestView, int)>, HttpFault>(e),
                                Ok(q) => found == Ok::<Option<(RequestView, int)>, HttpFault>(
                                    Some((q, (line.len() + headers.len()) as int)),
                                ),
                            }
                        },
                    },
                }
            }
        }),
{
    let stream = line + headers + more;
    assert(stream =~= line + (headers + more));
    law_line_end_is_stable(line, headers + more, 10);
    law_headers_end_is_stable(headers, more);
    assert(stream.take(line.len() as int) =~= line);
    assert(stream.skip(line.len() as int) =~= headers + more);
    assert((headers + more).take(headers.len() as int) =~= headers);
}

/// A stream that ends before its line or its header block does was cut off; an empty
/// one just ended.
pub proof fn law_cut_off_requests_are_reported(s: Seq<u8>)
    ensures
        s.len() == 0 ==> request_in(s) == Ok::<Option<(RequestView, int)>, HttpFault>(None),
        s.len() > 0 && s.len() <= 8192 && (forall|i: int| 0 <= i < s.len() ==> #[trigger] s[i] != 10)
            ==> request_in(s) == Err::<Option<(RequestView, int)>, HttpFault>(
            HttpFault::ClosedMidLine,
        ),
        end_fault(s) is None <==> s.len() == 0,
        s.len() > 0 ==> (end_fault(s) == Some(HttpFault::ClosedMidLine) <==> forall|i: int|
            0 <= i < s.len() ==> #[trigger] s[i] != 10),
        s.len() > 0 ==> end_fault(s) == Some(HttpFault::ClosedMidLine) || end_fault(s) == Some(
            HttpFault::ClosedMidHeaders,
        ),
{
    law_line_ends_with_its_delimiter(s, 10);
}

/// The message of a fault holds what is at fault: the version, the content length, the
/// limit that is exceeded or the length of the body.
pub proof fn law_http_message_names_the_fault(fault: HttpFault)
    ensures
        match fault {
            HttpFault::LineTooLong(max) => crate::text::contains_seq(
                http_message(fault),
                decimal(max as nat),
            ),
            HttpFault::HeadersTooLong(max) => crate::text::contains_seq(
                http_message(fault),
                decimal(max as nat),
            ),
            HttpFault::BadVersion(v) => crate::text::contains_seq(http_message(fault), quoted(v)),
            HttpFault::BadContentLength(v) => crate::text::contains_seq(
                http_message(fault),
                quoted(v),
            ),
            HttpFault::BodyTooLong(n) => crate::text::contains_seq(
                http_message(fault),
                decimal(n as nat),
            ),
            _ => true,
        },
{
    match fault {
        HttpFault::LineTooLong(max) => {
            crate::text::lemma_middle_is_contained(
                "static: line exceeded "@,
                decimal(max as nat),
                " bytes"@,
            );
        },
        HttpFault::HeadersTooLong(max) => {
            crate::text::lemma_middle_is_contained(
                "static: headers exceeded "@,
                decimal(max as nat),
                " bytes"@,
            );
        },
        HttpFault::BadVersion(v) => {
            crate::text::lemma_middle_is_contained("static: bad HTTP version: "@, quoted(v), ""@);
        },
        HttpFault::BadContentLength(v) => {
            crate::text::lemma_middle_is_contained("static: bad Content-Length "@, quoted(v), ""@);
        },
        HttpFault::BodyTooLong(n) => {
            let tail = " > limit "@ + decimal(MAX_BODY_BYTES as nat);
            assert(http_message(fault) =~= "static: request body "@ + decimal(n as nat) + tail);
            crate::text::lemma_middle_is_contained("static: request body "@, decimal(n as nat), tail);
        },
        _ => {},
    }
}

} // verus!
