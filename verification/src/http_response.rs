//! The response half of the codec: a status line, headers, and an optional
//! body, serialized exactly as they go onto the wire. Attaching a body
//! always records its byte length under `content-length`.

use vstd::prelude::*;
use vstd::utf8::encode_utf8;

use crate::strmap::{header_lines_text, map_has, map_set, map_val, Entries, StrMap};
use crate::text::{dec_str, dec_string, lower, to_lower};

verus! {

/// What a response holds, as plain mathematical values.
pub ghost struct ResponseView {
    pub version: Seq<char>,
    pub status_code: u16,
    pub status_phrase: Seq<char>,
    pub headers: Entries,
    pub body: Option<Seq<u8>>,
}

/// The phrase the status line carries for a code; codes outside the fixed
/// table get an empty phrase.
pub open spec fn spec_status_phrase(code: u16) -> Seq<char> {
    if code == 200 {
        "OK"@
    } else if code == 404 {
        "Not Found"@
    } else if code == 500 {
        "Internal Server Error"@
    } else {
        Seq::<char>::empty()
    }
}

/// Looks a status code's phrase up in the fixed table.
pub fn get_status_phrase(code: u16) -> (r: String)
    ensures
        r@ == spec_status_phrase(code),
{
    if code == 200 {
        String::from_str("OK")
    } else if code == 404 {
        String::from_str("Not Found")
    } else if code == 500 {
        String::from_str("Internal Server Error")
    } else {
        String::new()
    }
}

/// The text of everything before the body: the status line, each header
/// line, and the blank separator line.
pub open spec fn response_head(v: ResponseView) -> Seq<char> {
    v.version + seq![' '] + dec_str(v.status_code as nat) + seq![' '] + v.status_phrase + seq![
        '\r',
        '\n',
    ] + header_lines_text(v.headers) + seq!['\r', '\n']
}

/// The full wire form: the head encoded as UTF-8, then the raw body bytes.
pub open spec fn response_bytes(v: ResponseView) -> Seq<u8> {
    encode_utf8(response_head(v)) + (match v.body {
        Some(b) => b,
        None => Seq::<u8>::empty(),
    })
}

/// Whether a body, if present, is correctly announced by `content-length`.
pub open spec fn content_length_ok(v: ResponseView) -> bool {
    match v.body {
        Some(b) => map_has(v.headers, "content-length"@) && map_val(v.headers, "content-length"@)
            == dec_str(b.len()),
        None => true,
    }
}

/// Storing any header other than `content-length` cannot break the bond
/// between a body and its announced length.
pub proof fn lemma_other_headers_keep_content_length(
    v: ResponseView,
    title: Seq<char>,
    value: Seq<char>,
)
    requires
        content_length_ok(v),
        lower(title) != "content-length"@,
    ensures
        content_length_ok(
            ResponseView { headers: map_set(v.headers, lower(title), value), ..v },
        ),
{
    crate::strmap::lemma_map_set(v.headers, lower(title), value, "content-length"@);
}

/// A response under construction and its serialized form.
pub struct HttpResponse {
    version: String,
    status_code: u16,
    status_phrase: String,
    headers: StrMap,
    body: Option<Vec<u8>>,
}

impl View for HttpResponse {
    type V = ResponseView;

    closed spec fn view(&self) -> ResponseView {
        ResponseView {
            version: self.version@,
            status_code: self.status_code,
            status_phrase: self.status_phrase@,
            headers: self.headers@,
            body: match self.body {
                Some(b) => Some(b@),
                None => None,
            },
        }
    }
}

impl HttpResponse {
    /// A response with the given version and code, its phrase taken from
    /// the fixed table, no headers and no body.
    pub fn build(version: String, code: u16) -> (r: HttpResponse)
        ensures
            r@ == (ResponseView {
                version: version@,
                status_code: code,
                status_phrase: spec_status_phrase(code),
                headers: Seq::<(Seq<char>, Seq<char>)>::empty(),
                body: None,
            }),
    {
        let phrase = get_status_phrase(code);
        HttpResponse {
            version,
            status_code: code,
            status_phrase: phrase,
            headers: StrMap::new(),
            body: None,
        }
    }

    /// Stores a header under the ASCII-lowered title; a later store with
    /// the same title wins.
    pub fn add_header(&mut self, title: String, value: String)
        ensures
            final(self)@ == (ResponseView {
                headers: map_set(old(self)@.headers, lower(title@), value@),
                ..old(self)@
            }),
    {
        let key = to_lower(title.as_str());
        self.headers.set(key, value);
    }

    /// Looks a header up under the ASCII-lowered title.
    pub fn try_get_header(&self, title: String) -> (r: Option<String>)
        ensures
            match r {
                Some(v) => map_has(self@.headers, lower(title@)) && v@ == map_val(
                    self@.headers,
                    lower(title@),
                ),
                None => !map_has(self@.headers, lower(title@)),
            },
    {
        let key = to_lower(title.as_str());
        self.headers.get(key.as_str())
    }

    /// Attaches the body and records its byte length under
    /// `content-length`.
    pub fn add_body(&mut self, body: Vec<u8>)
        ensures
            final(self)@ == (ResponseView {
                headers: map_set(old(self)@.headers, "content-length"@, dec_str(body@.len())),
                body: Some(body@),
                ..old(self)@
            }),
            content_length_ok(final(self)@),
    {
        let len: usize = body.len();
        let len_text = dec_string(len as u64);
        self.headers.set(String::from_str("content-length"), len_text);
        self.body = Some(body);
        proof {
            crate::strmap::lemma_map_set(
                old(self)@.headers,
                "content-length"@,
                dec_str(body@.len()),
                "content-length"@,
            );
        }
    }

    /// A copy of the body, if one was attached.
    pub fn try_get_body(&self) -> (r: Option<Vec<u8>>)
        ensures
            match r {
                Some(b) => self@.body == Some(b@),
                None => self@.body is None,
            },
    {
        match &self.body {
            Some(b) => {
                let c = b.clone();
                proof {
                    assert(c@ =~= b@);
                }
                Some(c)
            },
            None => None,
        }
    }

    /// The head as text: status line, header lines, blank line.
    fn head_string(&self) -> (s: String)
        ensures
            s@ == response_head(self@),
    {
        let mut s = String::new();
        s.append(self.version.as_str());
        s.append(" ");
        let code_text = dec_string(self.status_code as u64);
        s.append(code_text.as_str());
        s.append(" ");
        s.append(self.status_phrase.as_str());
        s.append("\r\n");
        self.headers.append_lines(&mut s);
        s.append("\r\n");
        proof {
            reveal_strlit(" ");
            reveal_strlit("\r\n");
            assert(" "@ =~= seq![' ']);
            assert("\r\n"@ =~= seq!['\r', '\n']);
            assert(s@ =~= response_head(self@));
        }
        s
    }

    /// The head as bytes, UTF-8 encoded.
    pub fn head_bytes(&self) -> (r: Vec<u8>)
        ensures
            r@ == encode_utf8(response_head(self@)),
    {
        let s = self.head_string();
        s.as_str().as_bytes_vec()
    }

    /// The full wire form of the response.
    pub fn as_bytes(&self) -> (r: Vec<u8>)
        ensures
            r@ == response_bytes(self@),
    {
        let mut r = self.head_bytes();
        match &self.body {
            Some(b) => {
                let ghost head = r@;
                let n: usize = b.len();
                let mut i: usize = 0;
                while i < n
                    invariant
                        i <= n,
                        n == b@.len(),
                        r@ == head + b@.subrange(0, i as int),
                    decreases n - i,
                {
                    r.push(b[i]);
                    proof {
                        assert(head + b@.subrange(0, i + 1) =~= (head + b@.subrange(
                            0,
                            i as int,
                        )).push(b@[i as int]));
                    }
                    i = i + 1;
                }
                proof {
                    assert(b@.subrange(0, n as int) =~= b@);
                }
            },
            None => {
                proof {
                    assert(r@ + Seq::<u8>::empty() =~= r@);
                }
            },
        }
        r
    }
}

} // verus!
