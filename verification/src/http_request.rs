//! The request half of the codec: reading a request line, header lines,
//! and the body length from the wire, and serializing a request back out.
//!
//! Reading from a connection happens outside the library; each line read
//! is handed in as a string, and every decision about it is made here.

use vstd::prelude::*;
use vstd::utf8::encode_utf8;

use crate::http_methods::{http_method_from_string, method_of, method_str, HttpMethods};
use crate::strmap::{header_lines_text, map_has, map_set, map_val, Entries, StrMap};
use crate::text::{
    find_from, lower, parse_usize, parse_usize_spec, skip_non_ws, skip_ws, str_eq, to_lower,
    trim_line_end, trim_line_end_str, trim_ws, trim_ws_str, wire_len,
};
use crate::text::{find_char, scan_non_ws, scan_ws};
use crate::MAX_HEADER_LINE_LEN;

verus! {

/// Why a request could not be read from the wire.
#[derive(Clone, Copy, Debug, PartialEq, Eq, Structural)]
pub enum HttpParseError {
    /// A request or header line was longer than the fixed cap.
    HeaderTooLong,
    /// The version was HTTP/1.1 but no `host` header arrived.
    MissingHostHeader,
    /// The request line did not hold a known method and three tokens.
    MalformedRequestLine,
    /// The transport failed while the request was being read.
    IoError,
}

/// The text a parse error shows to a maintainer.
pub open spec fn error_message(e: HttpParseError) -> Seq<char> {
    match e {
        HttpParseError::HeaderTooLong => "Header line exceeds maximum length"@,
        HttpParseError::MissingHostHeader => "Missing required Host header"@,
        HttpParseError::MalformedRequestLine => "Malformed request line"@,
        HttpParseError::IoError => "IO error"@,
    }
}

impl HttpParseError {
    /// Describes the error in one line.
    pub fn message(&self) -> (r: String)
        ensures
            r@ == error_message(*self),
    {
        match self {
            HttpParseError::HeaderTooLong => String::from_str("Header line exceeds maximum length"),
            HttpParseError::MissingHostHeader => String::from_str("Missing required Host header"),
            HttpParseError::MalformedRequestLine => String::from_str("Malformed request line"),
            HttpParseError::IoError => String::from_str("IO error"),
        }
    }
}

/// What a request holds, as plain mathematical values.
pub ghost struct RequestView {
    pub method: HttpMethods,
    pub target: Seq<char>,
    pub version: Seq<char>,
    pub headers: Entries,
    pub body: Option<Seq<u8>>,
}

/// A parsed request: the request line's three parts, the headers stored
/// under lowered titles, and an optional body.
#[derive(Debug)]
pub struct HttpRequest {
    pub method: HttpMethods,
    pub target: String,
    pub version: String,
    headers: StrMap,
    body: Option<Vec<u8>>,
}

impl View for HttpRequest {
    type V = RequestView;

    closed spec fn view(&self) -> RequestView {
        RequestView {
            method: self.method,
            target: self.target@,
            version: self.version@,
            headers: self.headers@,
            body: match self.body {
                Some(b) => Some(b@),
                None => None,
            },
        }
    }
}

/// How a request line reads: trailing line breaks are dropped, a line over
/// the cap is refused, and the first three whitespace-separated tokens
/// must be a known method, a target, and a version.
pub open spec fn spec_parse_request_line(s: Seq<char>) -> Result<RequestView, HttpParseError> {
    let t = trim_line_end(s);
    if wire_len(t) > MAX_HEADER_LINE_LEN {
        Err(HttpParseError::HeaderTooLong)
    } else {
        let a0 = skip_ws(t, 0);
        let e0 = skip_non_ws(t, a0);
        let a1 = skip_ws(t, e0);
        let e1 = skip_non_ws(t, a1);
        let a2 = skip_ws(t, e1);
        let e2 = skip_non_ws(t, a2);
        if a0 >= t.len() || a1 >= t.len() || a2 >= t.len() {
            Err(HttpParseError::MalformedRequestLine)
        } else {
            match method_of(t.subrange(a0, e0)) {
                None => Err(HttpParseError::MalformedRequestLine),
                Some(m) => Ok(
                    RequestView {
                        method: m,
                        target: t.subrange(a1, e1),
                        version: t.subrange(a2, e2),
                        headers: Seq::<(Seq<char>, Seq<char>)>::empty(),
                        body: None,
                    },
                ),
            }
        }
    }
}

/// Whether a header line, once its line break is dropped, is over the cap.
pub open spec fn header_line_too_long(s: Seq<char>) -> bool {
    wire_len(trim_line_end(s)) > MAX_HEADER_LINE_LEN
}

/// The title and value a header line carries: the text before the first
/// colon, untouched, and the text after it with surrounding whitespace
/// trimmed. An empty line, or one without a colon, carries none and ends
/// the header section.
pub open spec fn spec_header_field(s: Seq<char>) -> Option<(Seq<char>, Seq<char>)> {
    let t = trim_line_end(s);
    if t.len() == 0 {
        None
    } else {
        let j = find_from(t, ':', 0);
        if j >= t.len() {
            None
        } else {
            Some((t.subrange(0, j), trim_ws(t.subrange(j + 1, t.len() as int))))
        }
    }
}

/// One header line as the parser reads it.
pub enum HeaderLine {
    /// A title and its value; the title is stored lowered by `add_header`.
    Field(String, String),
    /// A blank line or one without a colon: the headers are over.
    End,
}

/// The headers after folding lines `i..` in, stopping at the first line
/// that carries no field and refusing any line over the cap.
pub open spec fn spec_add_headers(h: Entries, lines: Seq<Seq<char>>, i: int) -> Result<
    Entries,
    HttpParseError,
>
    decreases lines.len() - i,
{
    if !(0 <= i < lines.len()) {
        Ok(h)
    } else if header_line_too_long(lines[i]) {
        Err(HttpParseError::HeaderTooLong)
    } else {
        match spec_header_field(lines[i]) {
            None => Ok(h),
            Some(p) => spec_add_headers(map_set(h, lower(p.0), p.1), lines, i + 1),
        }
    }
}

/// How a whole head reads: the first line as the request line, the rest
/// folded in as headers, and HTTP/1.1 refused without a `host` header.
pub open spec fn spec_parse_head(lines: Seq<Seq<char>>) -> Result<RequestView, HttpParseError> {
    if lines.len() == 0 {
        Err(HttpParseError::MalformedRequestLine)
    } else {
        match spec_parse_request_line(lines[0]) {
            Err(e) => Err(e),
            Ok(v) => match spec_add_headers(Seq::<(Seq<char>, Seq<char>)>::empty(), lines, 1) {
                Err(e) => Err(e),
                Ok(h) => {
                    if v.version == "HTTP/1.1"@ && !map_has(h, "host"@) {
                        Err(HttpParseError::MissingHostHeader)
                    } else {
                        Ok(RequestView { headers: h, ..v })
                    }
                },
            },
        }
    }
}

/// A request line over the cap is answered with `HeaderTooLong`, never
/// anything else and never a crash.
pub proof fn lemma_long_request_line_refused(s: Seq<char>)
    requires
        wire_len(trim_line_end(s)) > MAX_HEADER_LINE_LEN,
    ensures
        spec_parse_request_line(s) == Err::<RequestView, HttpParseError>(
            HttpParseError::HeaderTooLong,
        ),
{
}

/// An HTTP/1.1 head whose folded headers lack `host` is refused with
/// `MissingHostHeader`.
pub proof fn lemma_missing_host_refused(lines: Seq<Seq<char>>, v: RequestView, h: Entries)
    requires
        lines.len() > 0,
        spec_parse_request_line(lines[0]) == Ok::<RequestView, HttpParseError>(v),
        v.version == "HTTP/1.1"@,
        spec_add_headers(Seq::<(Seq<char>, Seq<char>)>::empty(), lines, 1) == Ok::<
            Entries,
            HttpParseError,
        >(h),
        !map_has(h, "host"@),
    ensures
        spec_parse_head(lines) == Err::<RequestView, HttpParseError>(
            HttpParseError::MissingHostHeader,
        ),
{
}

/// The bytes a body read is owed: the `content-length` value when it
/// parses as a number, and nothing otherwise.
pub open spec fn spec_content_length(h: Entries) -> nat {
    if map_has(h, "content-length"@) {
        match parse_usize_spec(map_val(h, "content-length"@)) {
            Some(v) => v,
            None => 0,
        }
    } else {
        0
    }
}

/// The text of everything before the body: the request line, each header
/// line, and the blank separator line.
pub open spec fn request_head(v: RequestView) -> Seq<char> {
    method_str(v.method) + seq![' '] + v.target + seq![' '] + v.version + seq!['\r', '\n']
        + header_lines_text(v.headers) + seq!['\r', '\n']
}

/// The full wire form: the head encoded as UTF-8, then the raw body bytes.
pub open spec fn request_bytes(v: RequestView) -> Seq<u8> {
    encode_utf8(request_head(v)) + (match v.body {
        Some(b) => b,
        None => Seq::<u8>::empty(),
    })
}

impl HttpRequest {
    /// A request with the given request-line parts, no headers and no
    /// body.
    pub fn build(method: HttpMethods, target: String, version: String) -> (r: HttpRequest)
        ensures
            r@ == (RequestView {
                method,
                target: target@,
                version: version@,
                headers: Seq::<(Seq<char>, Seq<char>)>::empty(),
                body: None,
            }),
    {
        let r = HttpRequest { method, target, version, headers: StrMap::new(), body: None };
        r
    }

    /// Stores a header under the ASCII-lowered title; a later store with
    /// the same title wins.
    pub fn add_header(&mut self, title: String, value: String)
        ensures
            final(self)@ == (RequestView {
                headers: map_set(old(self)@.headers, lower(title@), value@),
                ..old(self)@
            }),
    {
        let key = to_lower(title.as_str());
        self.headers.set(key, value);
    }

    /// Looks a header up under the ASCII-lowered title.
    pub fn try_get_header(&self, title: String) -> (r: Option<String>)
        ensures
            match r {
                Some(v) => map_has(self@.headers, lower(title@)) && v@ == map_val(
                    self@.headers,
                    lower(title@),
                ),
                None => !map_has(self@.headers, lower(title@)),
            },
    {
        let key = to_lower(title.as_str());
        self.headers.get(key.as_str())
    }

    /// Attaches the body.
    pub fn add_body(&mut self, body: Vec<u8>)
        ensures
            final(self)@ == (RequestView { body: Some(body@), ..old(self)@ }),
    {
        self.body = Some(body);
    }

    /// A copy of the body, if one was attached.
    pub fn try_get_body(&self) -> (r: Option<Vec<u8>>)
        ensures
            match r {
                Some(b) => self@.body == Some(b@),
                None => self@.body is None,
            },
    {
        match &self.body {
            Some(b) => {
                let c = b.clone();
                proof {
                    assert(c@ =~= b@);
                }
                Some(c)
            },
            None => None,
        }
    }

    /// The head as text: request line, header lines, blank line.
    fn head_string(&self) -> (s: String)
        ensures
            s@ == request_head(self@),
    {
        let mut s = String::new();
        s.append(self.method.name());
        s.append(" ");
        s.append(self.target.as_str());
        s.append(" ");
        s.append(self.version.as_str());
        s.append("\r\n");
        self.headers.append_lines(&mut s);
        s.append("\r\n");
        proof {
            reveal_strlit(" ");
            reveal_strlit("\r\n");
            assert(" "@ =~= seq![' ']);
            assert("\r\n"@ =~= seq!['\r', '\n']);
            assert(s@ =~= request_head(self@));
        }
        s
    }

    /// The head as bytes, UTF-8 encoded.
    pub fn head_bytes(&self) -> (r: Vec<u8>)
        ensures
            r@ == encode_utf8(request_head(self@)),
    {
        let s = self.head_string();
        s.as_str().as_bytes_vec()
    }

    /// The full wire form of the request.
    pub fn as_bytes(&self) -> (r: Vec<u8>)
        ensures
            r@ == request_bytes(self@),
    {
        let mut r = self.head_bytes();
        match &self.body {
            Some(b) => {
                let ghost head = r@;
                let n: usize = b.len();
                let mut i: usize = 0;
                while i < n
                    invariant
                        i <= n,
                        n == b@.len(),
                        r@ == head + b@.subrange(0, i as int),
                    decreases n - i,
                {
                    r.push(b[i]);
                    proof {
                        assert(head + b@.subrange(0, i + 1) =~= (head + b@.subrange(
                            0,
                            i as int,
                        )).push(b@[i as int]));
                    }
                    i = i + 1;
                }
                proof {
                    assert(b@.subrange(0, n as int) =~= b@);
                }
            },
            None => {
                proof {
                    assert(r@ + Seq::<u8>::empty() =~= r@);
                }
            },
        }
        r
    }

    /// Reads a request line into a request with no headers yet.
    pub fn parse_request_line(line: &str) -> (r: Result<HttpRequest, HttpParseError>)
        ensures
            match r {
                Ok(req) => spec_parse_request_line(line@) == Ok::<RequestView, HttpParseError>(
                    req@,
                ),
                Err(e) => spec_parse_request_line(line@) == Err::<RequestView, HttpParseError>(e),
            },
    {
        let t: &str = trim_line_end_str(line);
        if t.len() > MAX_HEADER_LINE_LEN {
            return Err(HttpParseError::HeaderTooLong);
        }
        let n: usize = t.unicode_len();
        let a0 = scan_ws(t, 0);
        let e0 = scan_non_ws(t, a0);
        let a1 = scan_ws(t, e0);
        let e1 = scan_non_ws(t, a1);
        let a2 = scan_ws(t, e1);
        let e2 = scan_non_ws(t, a2);
        if a0 >= n || a1 >= n || a2 >= n {
            return Err(HttpParseError::MalformedRequestLine);
        }
        let method_tok = t.substring_char(a0, e0);
        match http_method_from_string(method_tok) {
            None => Err(HttpParseError::MalformedRequestLine),
            Some(m) => {
                let target = t.substring_char(a1, e1).to_owned();
                let version = t.substring_char(a2, e2).to_owned();
                Ok(HttpRequest::build(m, target, version))
            },
        }
    }

    /// Reads one header line.
    pub fn parse_header_line(line: &str) -> (r: Result<HeaderLine, HttpParseError>)
        ensures
            match r {
                Ok(HeaderLine::Field(t, v)) => !header_line_too_long(line@) && spec_header_field(
                    line@,
                ) == Some((t@, v@)),
                Ok(HeaderLine::End) => !header_line_too_long(line@) && spec_header_field(line@)
                    is None,
                Err(e) => header_line_too_long(line@) && e == HttpParseError::HeaderTooLong,
            },
    {
        let t: &str = trim_line_end_str(line);
        if t.len() > MAX_HEADER_LINE_LEN {
            return Err(HttpParseError::HeaderTooLong);
        }
        let n: usize = t.unicode_len();
        if n == 0 {
            return Ok(HeaderLine::End);
        }
        let j = find_char(t, ':');
        if j >= n {
            return Ok(HeaderLine::End);
        }
        let title = t.substring_char(0, j).to_owned();
        let rest = t.substring_char(j + 1, n);
        let value = trim_ws_str(rest).to_owned();
        Ok(HeaderLine::Field(title, value))
    }

    /// Refuses an HTTP/1.1 request that arrived without a `host` header.
    pub fn check_host(&self) -> (r: Result<(), HttpParseError>)
        ensures
            r is Err <==> (self@.version == "HTTP/1.1"@ && !map_has(self@.headers, "host"@)),
            r is Err ==> r == Err::<(), HttpParseError>(HttpParseError::MissingHostHeader),
    {
        if str_eq(self.version.as_str(), "HTTP/1.1") && !self.headers.contains("host") {
            Err(HttpParseError::MissingHostHeader)
        } else {
            Ok(())
        }
    }

    /// How many body bytes the headers announce.
    pub fn content_length(&self) -> (n: usize)
        ensures
            n as nat == spec_content_length(self@.headers),
    {
        match self.headers.get("content-length") {
            Some(v) => match parse_usize(v.as_str()) {
                Some(k) => k,
                None => 0,
            },
            None => 0,
        }
    }

    /// Reads a whole head: the first line as the request line, the rest
    /// as headers up to the first blank or colonless line, then the
    /// `host` check.
    pub fn parse_head(lines: &Vec<String>) -> (r: Result<HttpRequest, HttpParseError>)
        ensures
            match r {
                Ok(req) => spec_parse_head(lines.deep_view()) == Ok::<
                    RequestView,
                    HttpParseError,
                >(req@),
                Err(e) => spec_parse_head(lines.deep_view()) == Err::<
                    RequestView,
                    HttpParseError,
                >(e),
            },
    {
        let ghost lv = lines.deep_view();
        if lines.len() == 0 {
            return Err(HttpParseError::MalformedRequestLine);
        }
        proof {
            assert(lv[0] == lines@[0]@);
        }
        let mut req = match Self::parse_request_line(lines[0].as_str()) {
            Ok(q) => q,
            Err(e) => {
                return Err(e);
            },
        };
        let ghost v0 = req@;
        let n: usize = lines.len();
        let mut i: usize = 1;
        while i < n
            invariant
                1 <= i <= n,
                n == lines@.len(),
                lv == lines.deep_view(),
                lv.len() == lines@.len(),
                spec_parse_request_line(lv[0]) == Ok::<RequestView, HttpParseError>(v0),
                req@ == (RequestView { headers: req@.headers, ..v0 }),
                spec_add_headers(Seq::<(Seq<char>, Seq<char>)>::empty(), lv, 1)
                    == spec_add_headers(req@.headers, lv, i as int),
            ensures
                lv == lines.deep_view(),
                spec_parse_request_line(lv[0]) == Ok::<RequestView, HttpParseError>(v0),
                req@ == (RequestView { headers: req@.headers, ..v0 }),
                spec_add_headers(Seq::<(Seq<char>, Seq<char>)>::empty(), lv, 1) == Ok::<
                    Entries,
                    HttpParseError,
                >(req@.headers),
            decreases n - i,
        {
            proof {
                assert(lv[i as int] == lines@[i as int]@);
            }
            match Self::parse_header_line(lines[i].as_str()) {
                Err(e) => {
                    return Err(e);
                },
                Ok(HeaderLine::End) => {
                    break ;
                },
                Ok(HeaderLine::Field(title, value)) => {
                    req.add_header(title, value);
                },
            }
            i = i + 1;
        }
        match req.check_host() {
            Err(e) => Err(e),
            Ok(u) => Ok(req),
        }
    }
}

} // verus!
