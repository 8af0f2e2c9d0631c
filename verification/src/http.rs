//! HTTP requests and responses as they travel between the server and a
//! lapp's wasm module, and their byte layout.

use std::str::FromStr;

use vstd::bytes::*;
use vstd::prelude::*;
use vstd::utf8::*;

use crate::wire::{lemma_field_len, lemma_read_field, lemma_subrange_part, field, push_field, push_u32, read_field, read_u32, take_field, take_u32, u32_le, WireError};

verus! {

broadcast use vstd::seq::group_seq_axioms;

// ---------------------------------------------------------------------------
// What the `http` crate accepts
// ---------------------------------------------------------------------------

/// The text of the URI that `http::Uri` parses from `bytes` (read as UTF-8),
/// or `None` where it refuses them.
pub uninterp spec fn http_uri_parse(bytes: Seq<u8>) -> Option<Seq<char>>;

/// The (lower-cased) name that `http::HeaderName::from_bytes` makes of
/// `bytes`, or `None` where it refuses them.
pub uninterp spec fn http_header_name_parse(bytes: Seq<u8>) -> Option<Seq<u8>>;

/// A token character of RFC 9110, the characters of a method name.
pub open spec fn is_token_byte(b: u8) -> bool {
    ||| 48 <= b <= 57
    ||| 65 <= b <= 90
    ||| 97 <= b <= 122
    ||| b == 33 || b == 35 || b == 36 || b == 37 || b == 38 || b == 39
    ||| b == 42 || b == 43 || b == 45 || b == 46
    ||| b == 94 || b == 95 || b == 96 || b == 124 || b == 126
}

/// The bytes of a method name: one or more token characters.
pub open spec fn is_method_name(b: Seq<u8>) -> bool {
    b.len() > 0 && forall|i: int| 0 <= i < b.len() ==> is_token_byte(#[trigger] b[i])
}

/// Bytes read one for one as characters.
pub open spec fn ascii_chars(b: Seq<u8>) -> Seq<char> {
    b.map_values(|x: u8| x as char)
}

/// A byte that may stand in a header value.
pub open spec fn is_header_value_byte(b: u8) -> bool {
    (b >= 32 && b != 127) || b == 9
}

pub open spec fn is_header_value(v: Seq<u8>) -> bool {
    forall|i: int| 0 <= i < v.len() ==> is_header_value_byte(#[trigger] v[i])
}

/// The method that `http::Method` parses from `bytes`, by its name.
///
/// `Method::from_bytes` accepts exactly the non-empty strings of token
/// characters and gives back the same text from `as_str`.
#[verifier::external_body]
fn parse_method(bytes: &[u8]) -> (r: Option<String>)
    ensures
        match r {
            Some(s) => is_method_name(bytes@) && s@ == ascii_chars(bytes@),
            None => !is_method_name(bytes@),
        },
{
    let text = std::str::from_utf8(bytes).ok()?;
    let method = http::Method::from_str(text).ok()?;
    Some(method.as_str().to_string())
}

/// The canonical text of the URI that `http::Uri::from_str` parses from
/// `bytes` once they are read as UTF-8.
#[verifier::external_body]
fn parse_uri(bytes: &[u8]) -> (r: Option<String>)
    ensures
        match r {
            Some(s) => http_uri_parse(bytes@) == Some(s@),
            None => http_uri_parse(bytes@) is None,
        },
{
    let text = std::str::from_utf8(bytes).ok()?;
    let uri = http::Uri::from_str(text).ok()?;
    Some(uri.to_string())
}

/// The bytes of the header name that `http::HeaderName::from_bytes` makes.
#[verifier::external_body]
fn parse_header_name(bytes: &[u8]) -> (r: Option<Vec<u8>>)
    ensures
        match r {
            Some(n) => http_header_name_parse(bytes@) == Some(n@),
            None => http_header_name_parse(bytes@) is None,
        },
{
    let name = http::HeaderName::from_bytes(bytes).ok()?;
    Some(name.as_str().as_bytes().to_vec())
}

/// Whether `http::HeaderValue::from_bytes` accepts `bytes`: it refuses a
/// byte below 32 other than the tab, and the byte 127.
#[verifier::external_body]
fn check_header_value(bytes: &[u8]) -> (r: bool)
    ensures
        r == is_header_value(bytes@),
{
    http::HeaderValue::from_bytes(bytes).is_ok()
}

/// Whether `http::StatusCode::from_u16` accepts `code`: it takes 100 to 999.
#[verifier::external_body]
fn check_status_code(code: u16) -> (r: bool)
    ensures
        r == (100 <= code <= 999),
{
    http::StatusCode::from_u16(code).is_ok()
}

// ---------------------------------------------------------------------------
// Protocol versions
// ---------------------------------------------------------------------------

/// HTTP protocol version.
#[derive(Debug, Clone, Copy, PartialEq, Eq, Structural)]
pub enum Version {
    Http09,
    Http10,
    Http11,
    Http2,
    Http3,
}

/// The byte that stands for a version on the wire.
pub open spec fn version_code(v: Version) -> u8 {
    match v {
        Version::Http09 => 9,
        Version::Http10 => 10,
        Version::Http11 => 11,
        Version::Http2 => 20,
        Version::Http3 => 30,
    }
}

pub open spec fn version_from_code(c: u8) -> Option<Version> {
    if c == 9 {
        Some(Version::Http09)
    } else if c == 10 {
        Some(Version::Http10)
    } else if c == 11 {
        Some(Version::Http11)
    } else if c == 20 {
        Some(Version::Http2)
    } else if c == 30 {
        Some(Version::Http3)
    } else {
        None
    }
}

/// The version stored at `pos`.
pub open spec fn read_version(data: Seq<u8>, pos: int) -> Result<(Version, int), WireError> {
    if 0 <= pos < data.len() {
        match version_from_code(data[pos]) {
            Some(v) => Ok((v, pos + 1)),
            None => Err(WireError::Unsupported),
        }
    } else {
        Err(WireError::InvalidData)
    }
}

/// Appends the code of `version`.
pub fn serialize_version(version: Version, out: &mut Vec<u8>)
    ensures
        final(out)@ == old(out)@.push(version_code(version)),
{
    let code: u8 = match version {
        Version::Http09 => 9,
        Version::Http10 => 10,
        Version::Http11 => 11,
        Version::Http2 => 20,
        Version::Http3 => 30,
    };
    out.push(code);
}

/// Reads the version stored at `pos`; an unknown code is `Unsupported`.
pub fn deserialize_version(data: &[u8], pos: usize) -> (r: Result<(Version, usize), WireError>)
    ensures
        match r {
            Ok((v, next)) => read_version(data@, pos as int) == Ok::<(Version, int), WireError>((v, next as int)),
            Err(e) => read_version(data@, pos as int) == Err::<(Version, int), WireError>(e),
        },
{
    if pos >= data.len() {
        return Err(WireError::InvalidData);
    }
    let code = data[pos];
    let version = if code == 9 {
        Version::Http09
    } else if code == 10 {
        Version::Http10
    } else if code == 11 {
        Version::Http11
    } else if code == 20 {
        Version::Http2
    } else if code == 30 {
        Version::Http3
    } else {
        return Err(WireError::Unsupported);
    };
    Ok((version, pos + 1))
}

// ---------------------------------------------------------------------------
// Headers
// ---------------------------------------------------------------------------

/// A header as name and value bytes.
pub type Header = (Vec<u8>, Vec<u8>);

pub open spec fn header_view(h: Header) -> (Seq<u8>, Seq<u8>) {
    (h.0@, h.1@)
}

pub open spec fn headers_view(hs: Seq<Header>) -> Seq<(Seq<u8>, Seq<u8>)> {
    hs.map_values(|h: Header| header_view(h))
}

/// A header whose name is the one `http` makes of it and whose value `http` accepts.
pub open spec fn is_canonical_header(h: (Seq<u8>, Seq<u8>)) -> bool {
    http_header_name_parse(h.0) == Some(h.0) && is_header_value(h.1)
}

pub open spec fn headers_encodable(hs: Seq<(Seq<u8>, Seq<u8>)>) -> bool {
    &&& hs.len() <= u32::MAX
    &&& forall|i: int| 0 <= i < hs.len() ==> (#[trigger] hs[i]).0.len() <= u32::MAX && hs[i].1.len() <= u32::MAX
}

pub open spec fn header_items_wire(hs: Seq<(Seq<u8>, Seq<u8>)>) -> Seq<u8>
    decreases hs.len(),
{
    if hs.len() == 0 {
        Seq::empty()
    } else {
        header_items_wire(hs.drop_last()) + field(hs.last().0) + field(hs.last().1)
    }
}

/// Headers on the wire: their number, then name and value of each.
pub open spec fn headers_wire(hs: Seq<(Seq<u8>, Seq<u8>)>) -> Seq<u8> {
    u32_le(hs.len() as u32) + header_items_wire(hs)
}

/// One header stored at `pos`: a name and a value field that `http` accepts.
pub open spec fn read_header(data: Seq<u8>, pos: int) -> Result<((Seq<u8>, Seq<u8>), int), WireError> {
    match read_field(data, pos) {
        None => Err(WireError::InvalidData),
        Some((name, p1)) => match read_field(data, p1) {
            None => Err(WireError::InvalidData),
            Some((value, p2)) => match http_header_name_parse(name) {
                None => Err(WireError::InvalidData),
                Some(n) => if is_header_value(value) {
                    Ok(((n, value), p2))
                } else {
                    Err(WireError::InvalidData)
                },
            },
        },
    }
}

/// `count` headers stored from `pos` on.
pub open spec fn read_header_items(data: Seq<u8>, pos: int, count: nat) -> Result<(Seq<(Seq<u8>, Seq<u8>)>, int), WireError>
    decreases count,
{
    if count == 0 {
        Ok((Seq::empty(), pos))
    } else {
        match read_header(data, pos) {
            Err(e) => Err(e),
            Ok((h, p)) => match read_header_items(data, p, (count - 1) as nat) {
                Err(e) => Err(e),
                Ok((hs, q)) => Ok((seq![h] + hs, q)),
            },
        }
    }
}

/// The headers stored at `pos`: their number, then the headers.
pub open spec fn read_headers(data: Seq<u8>, pos: int) -> Result<(Seq<(Seq<u8>, Seq<u8>)>, int), WireError> {
    match read_u32(data, pos) {
        None => Err(WireError::InvalidData),
        Some(n) => read_header_items(data, pos + 4, n as nat),
    }
}

/// Appends `headers`; `false`, with `out` still starting with what it held,
/// where a count or a length does not fit in a `u32`.
pub fn serialize_headers(headers: &Vec<Header>, out: &mut Vec<u8>) -> (ok: bool)
    ensures
        ok == headers_encodable(headers_view(headers@)),
        ok ==> final(out)@ == old(out)@ + headers_wire(headers_view(headers@)),
        final(out)@.len() >= old(out)@.len(),
        final(out)@.subrange(0, old(out)@.len() as int) == old(out)@,
{
    let ghost hs = headers_view(headers@);
    let ghost start = out@;
    if headers.len() > 0xffff_ffff {
        return false;
    }
    push_u32(out, headers.len() as u32);
    let n = headers.len();
    for i in 0..n
        invariant
            n == headers@.len(),
            hs == headers_view(headers@),
            start == old(out)@,
            n <= u32::MAX,
            out@ == start + u32_le(n as u32) + header_items_wire(hs.take(i as int)),
            forall|j: int| 0 <= j < i ==> (#[trigger] hs[j]).0.len() <= u32::MAX && hs[j].1.len() <= u32::MAX,
    {
        let name = &headers[i].0;
        let value = &headers[i].1;
        if name.len() > 0xffff_ffff || value.len() > 0xffff_ffff {
            assert(out@.subrange(0, start.len() as int) =~= start);
            return false;
        }
        let ghost before = out@;
        push_field(out, name.as_slice());
        push_field(out, value.as_slice());
        assert(hs.take(i + 1).drop_last() =~= hs.take(i as int));
        assert(out@ =~= start + u32_le(n as u32) + header_items_wire(hs.take(i + 1)));
    }
    assert(hs.take(n as int) =~= hs);
    assert(out@ =~= start + headers_wire(hs));
    true
}

/// Reads one header at `pos`.
fn deserialize_header(data: &[u8], pos: usize) -> (r: Result<(Header, usize), WireError>)
    ensures
        match r {
            Ok((h, next)) => read_header(data@, pos as int) == Ok::<_, WireError>((header_view(h), next as int)),
            Err(e) => read_header(data@, pos as int) == Err::<((Seq<u8>, Seq<u8>), int), WireError>(e),
        },
{
    let (name, p1) = match take_field(data, pos) {
        Some(x) => x,
        None => return Err(WireError::InvalidData),
    };
    let (value, p2) = match take_field(data, p1) {
        Some(x) => x,
        None => return Err(WireError::InvalidData),
    };
    let name = match parse_header_name(name.as_slice()) {
        Some(n) => n,
        None => return Err(WireError::InvalidData),
    };
    if !check_header_value(value.as_slice()) {
        return Err(WireError::InvalidData);
    }
    Ok(((name, value), p2))
}

/// Reads the headers stored at `pos`.
pub fn deserialize_headers(data: &[u8], pos: usize) -> (r: Result<(Vec<Header>, usize), WireError>)
    ensures
        match r {
            Ok((hs, next)) => read_headers(data@, pos as int) == Ok::<_, WireError>((headers_view(hs@), next as int)),
            Err(e) => read_headers(data@, pos as int) == Err::<(Seq<(Seq<u8>, Seq<u8>)>, int), WireError>(e),
        },
{
    let count = match take_u32(data, pos) {
        Some(n) => n,
        None => return Err(WireError::InvalidData),
    };
    assert(pos + 4 <= data.len());
    let mut headers: Vec<Header> = Vec::new();
    let mut p: usize = pos + 4;
    let mut i: u32 = 0;
    while i < count
        invariant
            i <= count,
            read_u32(data@, pos as int) == Some(count),
            read_headers(data@, pos as int) == match read_header_items(data@, p as int, (count - i) as nat) {
                Ok((rest, q)) => Ok::<_, WireError>((headers_view(headers@) + rest, q)),
                Err(e) => Err(e),
            },
        decreases count - i,
    {
        let (h, next) = match deserialize_header(data, p) {
            Ok(x) => x,
            Err(e) => return Err(e),
        };
        let ghost before = headers@;
        headers.push(h);
        assert(headers_view(headers@) =~= headers_view(before) + seq![header_view(h)]);
        proof {
            let r = read_header_items(data@, next as int, (count - i - 1) as nat);
            match r {
                Ok((rest, q)) => {
                    assert(headers_view(before) + (seq![header_view(h)] + rest) =~= headers_view(headers@) + rest);
                },
                Err(e) => {},
            }
        }
        p = next;
        i = i + 1;
    }
    assert(headers_view(headers@) + Seq::empty() =~= headers_view(headers@));
    Ok((headers, p))
}

// ---------------------------------------------------------------------------
// Requests
// ---------------------------------------------------------------------------

/// An HTTP request as the lapp sees it.
pub struct RequestView {
    pub method: Seq<char>,
    pub uri: Seq<char>,
    pub version: Version,
    pub headers: Seq<(Seq<u8>, Seq<u8>)>,
    pub body: Seq<u8>,
}

/// An HTTP request handed to a lapp; the headers stand in the order in which
/// they are iterated.
pub struct Request {
    pub method: String,
    pub uri: String,
    pub version: Version,
    pub headers: Vec<Header>,
    pub body: Vec<u8>,
}

impl View for Request {
    type V = RequestView;

    open spec fn view(&self) -> RequestView {
        RequestView {
            method: self.method@,
            uri: self.uri@,
            version: self.version,
            headers: headers_view(self.headers@),
            body: self.body@,
        }
    }
}

/// A request as `http` builds one: a method name, a URI in its canonical
/// text, canonical headers.
pub open spec fn request_is_canonical(r: RequestView) -> bool {
    &&& is_method_name(encode_utf8(r.method))
    &&& ascii_chars(encode_utf8(r.method)) == r.method
    &&& http_uri_parse(encode_utf8(r.uri)) == Some(r.uri)
    &&& forall|i: int| 0 <= i < r.headers.len() ==> is_canonical_header(#[trigger] r.headers[i])
}

/// Every count and length of the request fits in a `u32`.
pub open spec fn request_encodable(r: RequestView) -> bool {
    &&& encode_utf8(r.method).len() <= u32::MAX
    &&& encode_utf8(r.uri).len() <= u32::MAX
    &&& headers_encodable(r.headers)
    &&& r.body.len() <= u32::MAX
}

/// The bytes of a request: method, URI, version, headers, body.
pub open spec fn request_wire(r: RequestView) -> Seq<u8> {
    field(encode_utf8(r.method)) + field(encode_utf8(r.uri)) + seq![version_code(r.version)]
        + headers_wire(r.headers) + field(r.body)
}

/// The request stored at `pos` and the position after it.
pub open spec fn read_request(data: Seq<u8>, pos: int) -> Result<(RequestView, int), WireError> {
    match read_field(data, pos) {
        None => Err(WireError::InvalidData),
        Some((m, p1)) => if !is_method_name(m) {
            Err(WireError::InvalidData)
        } else {
            match read_field(data, p1) {
                None => Err(WireError::InvalidData),
                Some((u, p2)) => match http_uri_parse(u) {
                    None => Err(WireError::InvalidData),
                    Some(uri) => match read_version(data, p2) {
                        Err(e) => Err(e),
                        Ok((version, p3)) => match read_headers(data, p3) {
                            Err(e) => Err(e),
                            Ok((headers, p4)) => match read_field(data, p4) {
                                None => Err(WireError::InvalidData),
                                Some((body, p5)) => Ok(
                                    (
                                        RequestView {
                                            method: ascii_chars(m),
                                            uri,
                                            version,
                                            headers,
                                            body,
                                        },
                                        p5,
                                    ),
                                ),
                            },
                        },
                    },
                },
            }
        },
    }
}

/// The request that all of `data` holds.
pub open spec fn request_from_bytes(data: Seq<u8>) -> Result<RequestView, WireError> {
    match read_request(data, 0) {
        Ok((r, n)) => if n == data.len() {
            Ok(r)
        } else {
            Err(WireError::InvalidData)
        },
        Err(e) => Err(e),
    }
}

impl Default for Request {
    fn default() -> (r: Self)
        ensures
            r.method@ == "GET"@,
            r.uri@ == "/"@,
            r.version == Version::Http11,
            r.headers@.len() == 0,
            r.body@.len() == 0,
    {
        Request {
            method: "GET".to_owned(),
            uri: "/".to_owned(),
            version: Version::Http11,
            headers: Vec::new(),
            body: Vec::new(),
        }
    }
}

impl Request {
    /// A `GET /` request over HTTP/1.1 with no headers and the given body.
    pub fn new(body: Vec<u8>) -> (r: Self)
        ensures
            r.method@ == "GET"@,
            r.uri@ == "/"@,
            r.version == Version::Http11,
            r.headers@.len() == 0,
            r.body@ == body@,
    {
        let mut r = Self::default();
        r.body = body;
        r
    }

    /// Appends the bytes of this request; `InvalidData` where a count or a
    /// length does not fit in a `u32`.
    pub fn serialize(&self, out: &mut Vec<u8>) -> (r: Result<(), WireError>)
        ensures
            r is Ok <==> request_encodable(self@),
            r is Ok ==> final(out)@ == old(out)@ + request_wire(self@),
            r matches Err(e) ==> e == WireError::InvalidData,
    {
        let ghost start = out@;
        let method = self.method.as_str().as_bytes();
        let uri = self.uri.as_str().as_bytes();
        if method.len() > 0xffff_ffff || uri.len() > 0xffff_ffff {
            return Err(WireError::InvalidData);
        }
        push_field(out, method);
        push_field(out, uri);
        serialize_version(self.version, out);
        let ghost before_headers = out@;
        if !serialize_headers(&self.headers, out) {
            return Err(WireError::InvalidData);
        }
        if self.body.len() > 0xffff_ffff {
            return Err(WireError::InvalidData);
        }
        push_field(out, self.body.as_slice());
        assert(out@ =~= start + request_wire(self@));
        Ok(())
    }

    /// The bytes of this request.
    pub fn to_vec(&self) -> (r: Result<Vec<u8>, WireError>)
        ensures
            r is Ok <==> request_encodable(self@),
            r matches Ok(b) ==> b@ == request_wire(self@),
            r matches Err(e) ==> e == WireError::InvalidData,
    {
        let mut out: Vec<u8> = Vec::new();
        match self.serialize(&mut out) {
            Ok(()) => {
                assert(out@ =~= request_wire(self@));
                Ok(out)
            },
            Err(e) => Err(e),
        }
    }

    /// Reads the request stored at `pos`; gives it and the position after it.
    pub fn deserialize_reader(data: &[u8], pos: usize) -> (r: Result<(Self, usize), WireError>)
        ensures
            match r {
                Ok((req, next)) => read_request(data@, pos as int) == Ok::<_, WireError>((req@, next as int)),
                Err(e) => read_request(data@, pos as int) == Err::<(RequestView, int), WireError>(e),
            },
    {
        let (m, p1) = match take_field(data, pos) {
            Some(x) => x,
            None => return Err(WireError::InvalidData),
        };
        let method = match parse_method(m.as_slice()) {
            Some(x) => x,
            None => return Err(WireError::InvalidData),
        };
        let (u, p2) = match take_field(data, p1) {
            Some(x) => x,
            None => return Err(WireError::InvalidData),
        };
        let uri = match parse_uri(u.as_slice()) {
            Some(x) => x,
            None => return Err(WireError::InvalidData),
        };
        let (version, p3) = match deserialize_version(data, p2) {
            Ok(x) => x,
            Err(e) => return Err(e),
        };
        let (headers, p4) = match deserialize_headers(data, p3) {
            Ok(x) => x,
            Err(e) => return Err(e),
        };
        let (body, p5) = match take_field(data, p4) {
            Some(x) => x,
            None => return Err(WireError::InvalidData),
        };
        let req = Request { method, uri, version, headers, body };
        Ok((req, p5))
    }

    /// The request that all of `data` holds; trailing bytes are `InvalidData`.
    pub fn try_from_slice(data: &[u8]) -> (r: Result<Self, WireError>)
        ensures
            match r {
                Ok(req) => request_from_bytes(data@) == Ok::<_, WireError>(req@),
                Err(e) => request_from_bytes(data@) == Err::<RequestView, WireError>(e),
            },
    {
        let (req, n) = Self::deserialize_reader(data, 0)?;
        if n == data.len() {
            Ok(req)
        } else {
            Err(WireError::InvalidData)
        }
    }
}

// ---------------------------------------------------------------------------
// Reading back what was written
// ---------------------------------------------------------------------------

proof fn lemma_header_items_prepend(h: (Seq<u8>, Seq<u8>), hs: Seq<(Seq<u8>, Seq<u8>)>)
    ensures
        header_items_wire(seq![h] + hs) == field(h.0) + field(h.1) + header_items_wire(hs),
    decreases hs.len(),
{
    let s = seq![h] + hs;
    if hs.len() == 0 {
        assert(s.drop_last() =~= Seq::<(Seq<u8>, Seq<u8>)>::empty());
        assert(header_items_wire(Seq::<(Seq<u8>, Seq<u8>)>::empty()) == Seq::<u8>::empty());
        assert(s.last() == h);
        assert(header_items_wire(s) == header_items_wire(s.drop_last()) + field(s.last().0) + field(s.last().1));
        assert(header_items_wire(s) =~= field(h.0) + field(h.1) + header_items_wire(hs));
    } else {
        assert(s.drop_last() =~= seq![h] + hs.drop_last());
        lemma_header_items_prepend(h, hs.drop_last());
        assert(s.last() == hs.last());
        assert(header_items_wire(s) == header_items_wire(s.drop_last()) + field(s.last().0) + field(s.last().1));
        assert(header_items_wire(hs) == header_items_wire(hs.drop_last()) + field(hs.last().0) + field(hs.last().1));
        assert(header_items_wire(s) =~= field(h.0) + field(h.1) + header_items_wire(hs));
    }
}

proof fn lemma_read_header_items(data: Seq<u8>, pos: int, hs: Seq<(Seq<u8>, Seq<u8>)>)
    requires
        0 <= pos,
        pos + header_items_wire(hs).len() <= data.len(),
        data.subrange(pos, pos + header_items_wire(hs).len()) == header_items_wire(hs),
        headers_encodable(hs),
        forall|i: int| 0 <= i < hs.len() ==> is_canonical_header(#[trigger] hs[i]),
    ensures
        read_header_items(data, pos, hs.len()) == Ok::<_, WireError>((hs, pos + header_items_wire(hs).len())),
    decreases hs.len(),
{
    if hs.len() > 0 {
        let h = hs[0];
        let t = hs.drop_first();
        assert(hs =~= seq![h] + t);
        lemma_header_items_prepend(h, t);
        let w = header_items_wire(hs);
        let f0 = field(h.0);
        let f1 = field(h.1);
        let wt = header_items_wire(t);
        assert(w == f0 + f1 + wt);
        lemma_field_len(h.0);
        lemma_field_len(h.1);
        assert(hs[0] == h);
        assert(w.subrange(0, f0.len() as int) =~= f0);
        lemma_subrange_part(data, pos, w, 0, f0);
        lemma_read_field(data, pos, h.0);
        let p1 = pos + f0.len();
        assert(w.subrange(f0.len() as int, (f0.len() + f1.len()) as int) =~= f1);
        lemma_subrange_part(data, pos, w, f0.len() as int, f1);
        lemma_read_field(data, p1, h.1);
        let p2 = p1 + f1.len();
        assert(w.subrange((f0.len() + f1.len()) as int, w.len() as int) =~= wt);
        lemma_subrange_part(data, pos, w, (f0.len() + f1.len()) as int, wt);
        assert forall|i: int| 0 <= i < t.len() implies is_canonical_header(#[trigger] t[i]) by {
            assert(t[i] == hs[i + 1]);
        }
        assert forall|i: int| 0 <= i < t.len() implies (#[trigger] t[i]).0.len() <= u32::MAX && t[i].1.len() <= u32::MAX by {
            assert(t[i] == hs[i + 1]);
        }
        assert(is_canonical_header(hs[0]));
        lemma_read_header_items(data, p2, t);
        assert(read_field(data, pos) == Some((h.0, p1)));
        assert(read_field(data, p1) == Some((h.1, p2)));
        assert(http_header_name_parse(h.0) == Some(h.0));
        assert(is_header_value(h.1));
        assert(read_header(data, pos) == Ok::<_, WireError>((h, p2)));
        assert(t.len() == (hs.len() - 1) as nat);
        assert(p2 + wt.len() == pos + w.len());
        assert(read_header_items(data, p2, t.len()) == Ok::<_, WireError>((t, p2 + wt.len())));
        assert(read_header_items(data, pos, hs.len()) == Ok::<_, WireError>((seq![h] + t, p2 + wt.len())));
        assert(seq![h] + t =~= hs);
    } else {
        assert(hs =~= Seq::<(Seq<u8>, Seq<u8>)>::empty());
        assert(header_items_wire(hs) == Seq::<u8>::empty());
    }
}

proof fn lemma_read_headers(data: Seq<u8>, pos: int, hs: Seq<(Seq<u8>, Seq<u8>)>)
    requires
        0 <= pos,
        pos + headers_wire(hs).len() <= data.len(),
        data.subrange(pos, pos + headers_wire(hs).len()) == headers_wire(hs),
        headers_encodable(hs),
        forall|i: int| 0 <= i < hs.len() ==> is_canonical_header(#[trigger] hs[i]),
    ensures
        read_headers(data, pos) == Ok::<_, WireError>((hs, pos + headers_wire(hs).len())),
{
    let w = headers_wire(hs);
    let c = u32_le(hs.len() as u32);
    let items = header_items_wire(hs);
    crate::wire::lemma_u32_le(hs.len() as u32);
    assert(w.subrange(0, 4) =~= c);
    lemma_subrange_part(data, pos, w, 0, c);
    assert(data.subrange(pos, pos + 4) == c);
    assert(read_u32(data, pos) == Some(hs.len() as u32));
    assert(w.subrange(4, w.len() as int) =~= items);
    lemma_subrange_part(data, pos, w, 4, items);
    lemma_read_header_items(data, pos + 4, hs);
}

/// A request reads back from its own bytes, whatever follows them.
pub proof fn lemma_request_roundtrip(r: RequestView, rest: Seq<u8>)
    requires
        request_is_canonical(r),
        request_encodable(r),
    ensures
        read_request(request_wire(r) + rest, 0) == Ok::<_, WireError>((r, request_wire(r).len() as int)),
{
    let m = encode_utf8(r.method);
    let u = encode_utf8(r.uri);
    let fm = field(m);
    let fu = field(u);
    let v = seq![version_code(r.version)];
    let hw = headers_wire(r.headers);
    let fb = field(r.body);
    let w = request_wire(r);
    let data = w + rest;
    assert(w == fm + fu + v + hw + fb);
    lemma_field_len(m);
    lemma_field_len(u);
    lemma_field_len(r.body);
    assert(data.subrange(0, w.len() as int) =~= w);
    assert(w.subrange(0, fm.len() as int) =~= fm);
    lemma_subrange_part(data, 0, w, 0, fm);
    lemma_read_field(data, 0, m);
    let p1 = fm.len() as int;
    assert(w.subrange(p1, p1 + fu.len()) =~= fu);
    lemma_subrange_part(data, 0, w, p1, fu);
    lemma_read_field(data, p1, u);
    let p2 = p1 + fu.len();
    assert(data[p2] == version_code(r.version));
    let p3 = p2 + 1;
    assert(read_version(data, p2) == Ok::<_, WireError>((r.version, p3)));
    assert(w.subrange(p3, p3 + hw.len()) =~= hw);
    lemma_subrange_part(data, 0, w, p3, hw);
    lemma_read_headers(data, p3, r.headers);
    let p4 = p3 + hw.len();
    assert(w.subrange(p4, p4 + fb.len()) =~= fb);
    lemma_subrange_part(data, 0, w, p4, fb);
    lemma_read_field(data, p4, r.body);
}

/// The bytes of a request, and nothing more, hold that request.
pub proof fn lemma_request_from_own_bytes(r: RequestView)
    requires
        request_is_canonical(r),
        request_encodable(r),
    ensures
        request_from_bytes(request_wire(r)) == Ok::<_, WireError>(r),
{
    lemma_request_roundtrip(r, Seq::empty());
    assert(request_wire(r) + Seq::<u8>::empty() =~= request_wire(r));
}

// ---------------------------------------------------------------------------
// Responses
// ---------------------------------------------------------------------------

/// An HTTP response as the lapp gives it.
pub struct ResponseView {
    pub status: u16,
    pub version: Version,
    pub headers: Seq<(Seq<u8>, Seq<u8>)>,
    pub body: Seq<u8>,
}

/// An HTTP response given by a lapp; the headers stand in the order in
/// which they are iterated.
pub struct Response {
    pub status: u16,
    pub version: Version,
    pub headers: Vec<Header>,
    pub body: Vec<u8>,
}

impl View for Response {
    type V = ResponseView;

    open spec fn view(&self) -> ResponseView {
        ResponseView {
            status: self.status,
            version: self.version,
            headers: headers_view(self.headers@),
            body: self.body@,
        }
    }
}

/// A response as `http` builds one: a status code from 100 to 999 and
/// canonical headers.
pub open spec fn response_is_canonical(r: ResponseView) -> bool {
    &&& 100 <= r.status <= 999
    &&& forall|i: int| 0 <= i < r.headers.len() ==> is_canonical_header(#[trigger] r.headers[i])
}

pub open spec fn response_encodable(r: ResponseView) -> bool {
    headers_encodable(r.headers) && r.body.len() <= u32::MAX
}

/// The bytes of a response: status, version, headers, body.
pub open spec fn response_wire(r: ResponseView) -> Seq<u8> {
    spec_u16_to_le_bytes(r.status) + seq![version_code(r.version)] + headers_wire(r.headers) + field(r.body)
}

/// The `u16` stored at `pos`.
pub open spec fn read_u16(data: Seq<u8>, pos: int) -> Option<u16> {
    if 0 <= pos && pos + 2 <= data.len() {
        Some(spec_u16_from_le_bytes(data.subrange(pos, pos + 2)))
    } else {
        None
    }
}

/// The response stored at `pos` and the position after it.
pub open spec fn read_response(data: Seq<u8>, pos: int) -> Result<(ResponseView, int), WireError> {
    match read_u16(data, pos) {
        None => Err(WireError::InvalidData),
        Some(status) => if !(100 <= status <= 999) {
            Err(WireError::InvalidData)
        } else {
            match read_version(data, pos + 2) {
                Err(e) => Err(e),
                Ok((version, p1)) => match read_headers(data, p1) {
                    Err(e) => Err(e),
                    Ok((headers, p2)) => match read_field(data, p2) {
                        None => Err(WireError::InvalidData),
                        Some((body, p3)) => Ok((ResponseView { status, version, headers, body }, p3)),
                    },
                },
            }
        },
    }
}

/// The response that all of `data` holds.
pub open spec fn response_from_bytes(data: Seq<u8>) -> Result<ResponseView, WireError> {
    match read_response(data, 0) {
        Ok((r, n)) => if n == data.len() {
            Ok(r)
        } else {
            Err(WireError::InvalidData)
        },
        Err(e) => Err(e),
    }
}

impl Default for Response {
    fn default() -> (r: Self)
        ensures
            r.status == 200,
            r.version == Version::Http11,
            r.headers@.len() == 0,
            r.body@.len() == 0,
    {
        Response { status: 200, version: Version::Http11, headers: Vec::new(), body: Vec::new() }
    }
}

impl Response {
    /// A `200 OK` HTTP/1.1 response with no headers and the given body.
    pub fn new(body: Vec<u8>) -> (r: Self)
        ensures
            r.status == 200,
            r.version == Version::Http11,
            r.headers@.len() == 0,
            r.body@ == body@,
    {
        let mut r = Self::default();
        r.body = body;
        r
    }

    /// Appends the bytes of this response; `InvalidData` where a count or a
    /// length does not fit in a `u32`.
    pub fn serialize(&self, out: &mut Vec<u8>) -> (r: Result<(), WireError>)
        ensures
            r is Ok <==> response_encodable(self@),
            r is Ok ==> final(out)@ == old(out)@ + response_wire(self@),
            r matches Err(e) ==> e == WireError::InvalidData,
    {
        let ghost start = out@;
        let status = u16_to_le_bytes(self.status);
        out.push(status[0]);
        out.push(status[1]);
        proof {
            lemma_auto_spec_u16_to_from_le_bytes();
            assert(spec_u16_to_le_bytes(self.status).len() == 2);
        }
        assert(out@ =~= start + spec_u16_to_le_bytes(self.status));
        serialize_version(self.version, out);
        if !serialize_headers(&self.headers, out) {
            return Err(WireError::InvalidData);
        }
        if self.body.len() > 0xffff_ffff {
            return Err(WireError::InvalidData);
        }
        push_field(out, self.body.as_slice());
        assert(out@ =~= start + response_wire(self@));
        Ok(())
    }

    /// The bytes of this response.
    pub fn to_vec(&self) -> (r: Result<Vec<u8>, WireError>)
        ensures
            r is Ok <==> response_encodable(self@),
            r matches Ok(b) ==> b@ == response_wire(self@),
            r matches Err(e) ==> e == WireError::InvalidData,
    {
        let mut out: Vec<u8> = Vec::new();
        match self.serialize(&mut out) {
            Ok(()) => {
                assert(out@ =~= response_wire(self@));
                Ok(out)
            },
            Err(e) => Err(e),
        }
    }

    /// Reads the response stored at `pos`; gives it and the position after it.
    pub fn deserialize_reader(data: &[u8], pos: usize) -> (r: Result<(Self, usize), WireError>)
        ensures
            match r {
                Ok((resp, next)) => read_response(data@, pos as int) == Ok::<_, WireError>((resp@, next as int)),
                Err(e) => read_response(data@, pos as int) == Err::<(ResponseView, int), WireError>(e),
            },
    {
        if pos > data.len() || data.len() - pos < 2 {
            return Err(WireError::InvalidData);
        }
        let status = u16_from_le_bytes(vstd::slice::slice_subrange(data, pos, pos + 2));
        if !check_status_code(status) {
            return Err(WireError::InvalidData);
        }
        let (version, p1) = match deserialize_version(data, pos + 2) {
            Ok(x) => x,
            Err(e) => return Err(e),
        };
        let (headers, p2) = match deserialize_headers(data, p1) {
            Ok(x) => x,
            Err(e) => return Err(e),
        };
        let (body, p3) = match take_field(data, p2) {
            Some(x) => x,
            None => return Err(WireError::InvalidData),
        };
        Ok((Response { status, version, headers, body }, p3))
    }

    /// The response that all of `data` holds; trailing bytes are `InvalidData`.
    pub fn try_from_slice(data: &[u8]) -> (r: Result<Self, WireError>)
        ensures
            match r {
                Ok(resp) => response_from_bytes(data@) == Ok::<_, WireError>(resp@),
                Err(e) => response_from_bytes(data@) == Err::<ResponseView, WireError>(e),
            },
    {
        let (resp, n) = Self::deserialize_reader(data, 0)?;
        if n == data.len() {
            Ok(resp)
        } else {
            Err(WireError::InvalidData)
        }
    }
}

/// A response reads back from its own bytes, wherever they stand and
/// whatever follows them.
pub proof fn lemma_response_roundtrip_at(r: ResponseView, prefix: Seq<u8>, rest: Seq<u8>)
    requires
        response_is_canonical(r),
        response_encodable(r),
    ensures
        read_response(prefix + response_wire(r) + rest, prefix.len() as int)
            == Ok::<_, WireError>((r, (prefix.len() + response_wire(r).len()) as int)),
{
    let st = spec_u16_to_le_bytes(r.status);
    let hw = headers_wire(r.headers);
    let fb = field(r.body);
    let w = response_wire(r);
    let data = prefix + w + rest;
    let b: int = prefix.len() as int;
    lemma_auto_spec_u16_to_from_le_bytes();
    assert(st.len() == 2);
    lemma_field_len(r.body);
    assert(data.subrange(b, b + w.len()) =~= w);
    assert(data.subrange(b, b + 2) =~= st);
    assert(read_u16(data, b) == Some(r.status));
    assert(data[b + 2] == version_code(r.version));
    assert(read_version(data, b + 2) == Ok::<_, WireError>((r.version, b + 3)));
    assert(w.subrange(3, 3 + hw.len() as int) =~= hw);
    lemma_subrange_part(data, b, w, 3, hw);
    lemma_read_headers(data, b + 3, r.headers);
    let p2: int = 3 + hw.len() as int;
    assert(w.subrange(p2, p2 + fb.len()) =~= fb);
    lemma_subrange_part(data, b, w, p2, fb);
    lemma_read_field(data, b + p2, r.body);
}

/// A response reads back from its own bytes, whatever follows them.
pub proof fn lemma_response_roundtrip(r: ResponseView, rest: Seq<u8>)
    requires
        response_is_canonical(r),
        response_encodable(r),
    ensures
        read_response(response_wire(r) + rest, 0) == Ok::<_, WireError>((r, response_wire(r).len() as int)),
{
    lemma_response_roundtrip_at(r, Seq::empty(), rest);
    assert(Seq::<u8>::empty() + response_wire(r) + rest =~= response_wire(r) + rest);
}

/// The bytes of a response, and nothing more, hold that response.
pub proof fn lemma_response_from_own_bytes(r: ResponseView)
    requires
        response_is_canonical(r),
        response_encodable(r),
    ensures
        response_from_bytes(response_wire(r)) == Ok::<_, WireError>(r),
{
    lemma_response_roundtrip(r, Seq::empty());
    assert(response_wire(r) + Seq::<u8>::empty() =~= response_wire(r));
}

} // verus!
