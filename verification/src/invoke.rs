//! Outgoing HTTP requests of lapps: what they may do, how a refusal reads,
//! and how the outcome travels back to the lapp.

use std::str::FromStr;

use vstd::bytes::*;
use vstd::prelude::*;
use vstd::string::*;
use vstd::utf8::*;

use crate::http::{read_response, request_from_bytes, response_encodable, response_is_canonical, response_wire, Request, Response, ResponseView};
use crate::lapp::{HttpHosts, HttpMethod, HttpMethods, LappHttpSettings};
use crate::text::{decimal, push_decimal, str_eq};
use crate::wire::{field, lemma_field_len, lemma_read_field, lemma_subrange_part, push_field, read_field, take_field, WireError};

verus! {

broadcast use vstd::seq::group_seq_axioms;

/// The status code of a failed request as text: its digits, or `None`.
pub fn display_code(code: &Option<u16>) -> (r: String)
    ensures
        r@ == match code {
            Some(c) => decimal(*c as nat),
            None => "None"@,
        },
{
    match code {
        Some(c) => {
            let mut s = String::new();
            push_decimal(&mut s, *c as u64);
            assert(s@ =~= decimal(*c as nat));
            s
        },
        None => "None".to_owned(),
    }
}

// ---------------------------------------------------------------------------
// Errors of an outgoing request
// ---------------------------------------------------------------------------

/// Why an outgoing HTTP request of a lapp failed.
#[derive(Debug)]
pub enum InvokeError {
    EmptyContext,
    CanNotReadWasmData,
    FailDeserializeRequest,
    FailBuildResponse(String),
    ForbiddenMethod(String),
    ForbiddenHost(String),
    FailRequest(Option<u16>, String),
}

pub open spec fn quoted(before: Seq<char>, s: Seq<char>, after: Seq<char>) -> Seq<char> {
    before + s + after
}

impl InvokeError {
    /// The message of the error.
    pub open spec fn message_spec(&self) -> Seq<char> {
        match self {
            InvokeError::EmptyContext => "HTTP context is empty"@,
            InvokeError::CanNotReadWasmData => "Read from WASM error"@,
            InvokeError::FailDeserializeRequest => "HTTP request deserialization error"@,
            InvokeError::FailBuildResponse(s) => "HTTP response building error: "@ + s@,
            InvokeError::ForbiddenMethod(m) => quoted("HTTP method \""@, m@, "\" not allowed"@),
            InvokeError::ForbiddenHost(h) => quoted("HTTP host \""@, h@, "\" not allowed"@),
            InvokeError::FailRequest(code, s) => "HTTP request error: "@ + match code {
                Some(c) => decimal(*c as nat),
                None => "None"@,
            } + ", "@ + s@,
        }
    }

    /// The message of the error.
    pub fn to_string(&self) -> (r: String)
        ensures
            r@ == self.message_spec(),
    {
        match self {
            InvokeError::EmptyContext => "HTTP context is empty".to_owned(),
            InvokeError::CanNotReadWasmData => "Read from WASM error".to_owned(),
            InvokeError::FailDeserializeRequest => "HTTP request deserialization error".to_owned(),
            InvokeError::FailBuildResponse(s) => {
                let mut r = "HTTP response building error: ".to_owned();
                r.append(s.as_str());
                r
            },
            InvokeError::ForbiddenMethod(m) => {
                let mut r = "HTTP method \"".to_owned();
                r.append(m.as_str());
                r.append("\" not allowed");
                r
            },
            InvokeError::ForbiddenHost(h) => {
                let mut r = "HTTP host \"".to_owned();
                r.append(h.as_str());
                r.append("\" not allowed");
                r
            },
            InvokeError::FailRequest(code, s) => {
                let mut r = "HTTP request error: ".to_owned();
                let c = display_code(code);
                r.append(c.as_str());
                r.append(", ");
                r.append(s.as_str());
                r
            },
        }
    }
}

// ---------------------------------------------------------------------------
// What an outgoing request may do
// ---------------------------------------------------------------------------

/// The host part of a URI as `http::Uri::host` gives it.
pub uninterp spec fn http_uri_host(uri: Seq<char>) -> Option<Seq<char>>;

/// The host of `uri`, through `http::Uri`.
#[verifier::external_body]
fn uri_host(uri: &str) -> (r: Option<String>)
    ensures
        match r {
            Some(h) => http_uri_host(uri@) == Some(h@),
            None => http_uri_host(uri@) is None,
        },
{
    let uri = http::Uri::from_str(uri).ok()?;
    Some(uri.host()?.to_string())
}

pub open spec fn method_matches(item: HttpMethod, method: Seq<char>) -> bool {
    match item {
        HttpMethod::Get => method == "GET"@,
        HttpMethod::Post => method == "POST"@,
    }
}

/// The settings let requests with `method` through.
pub open spec fn method_allowed(methods: &HttpMethods, method: Seq<char>) -> bool {
    match methods {
        HttpMethods::All => true,
        HttpMethods::List(list) => exists|i: int| 0 <= i < list@.len() && method_matches(#[trigger] list@[i], method),
    }
}

/// The settings let requests to `host` through.
pub open spec fn host_allowed(hosts: &HttpHosts, host: Seq<char>) -> bool {
    match hosts {
        HttpHosts::All => true,
        HttpHosts::List(list) => exists|i: int| 0 <= i < list@.len() && (#[trigger] list@[i])@ == host,
    }
}

/// Whether the method is one that the settings allow.
pub fn is_method_allowed(method: &str, methods: &HttpMethods) -> (r: bool)
    ensures
        r == match methods {
            HttpMethods::All => true,
            HttpMethods::List(list) => exists|i: int| 0 <= i < list@.len() && method_matches(#[trigger] list@[i], method@),
        },
{
    match methods {
        HttpMethods::All => true,
        HttpMethods::List(list) => {
            let n = list.len();
            for i in 0..n
                invariant
                    n == list@.len(),
                    *methods == HttpMethods::List(*list),
                    forall|j: int| 0 <= j < i ==> !method_matches(#[trigger] list@[j], method@),
            {
                let matches = match list[i] {
                    HttpMethod::Get => str_eq(method, "GET"),
                    HttpMethod::Post => str_eq(method, "POST"),
                };
                if matches {
                    assert(method_matches(list@[i as int], method@));
                    assert(method_matches(methods->0@[i as int], method@));
                    return true;
                }
            }
            false
        },
    }
}

/// Whether the host is one that the settings allow.
pub fn is_host_allowed(host: &str, hosts: &HttpHosts) -> (r: bool)
    ensures
        r == match hosts {
            HttpHosts::All => true,
            HttpHosts::List(list) => exists|i: int| 0 <= i < list@.len() && (#[trigger] list@[i])@ == host@,
        },
{
    match hosts {
        HttpHosts::All => true,
        HttpHosts::List(list) => {
            let n = list.len();
            for i in 0..n
                invariant
                    n == list@.len(),
                    *hosts == HttpHosts::List(*list),
                    forall|j: int| 0 <= j < i ==> (#[trigger] list@[j])@ != host@,
            {
                let item: &String = &list[i];
                if str_eq(item.as_str(), host) {
                    assert(list@[i as int]@ == host@);
                    assert(hosts->0@[i as int]@ == host@);
                    return true;
                }
            }
            false
        },
    }
}

pub open spec fn host_or_empty(uri: Seq<char>) -> Seq<char> {
    match http_uri_host(uri) {
        Some(h) => h,
        None => Seq::empty(),
    }
}

/// Whether a lapp may send a request with `method` to `uri`: the method must
/// be allowed, then the host (empty where the URI has none).
pub fn check_http_request(settings: &LappHttpSettings, method: &str, uri: &str) -> (r: Result<(), InvokeError>)
    ensures
        match r {
            Ok(()) => {
                &&& (match &settings.methods {
                    HttpMethods::All => true,
                    HttpMethods::List(list) => exists|i: int| 0 <= i < list@.len() && method_matches(#[trigger] list@[i], method@),
                })
                &&& (match &settings.hosts {
                    HttpHosts::All => true,
                    HttpHosts::List(list) => exists|i: int| 0 <= i < list@.len() && (#[trigger] list@[i])@ == host_or_empty(uri@),
                })
            },
            Err(InvokeError::ForbiddenMethod(m)) => m@ == method@ && !(match &settings.methods {
                HttpMethods::All => true,
                HttpMethods::List(list) => exists|i: int| 0 <= i < list@.len() && method_matches(#[trigger] list@[i], method@),
            }),
            Err(InvokeError::ForbiddenHost(h)) => h@ == host_or_empty(uri@) && (match &settings.methods {
                HttpMethods::All => true,
                HttpMethods::List(list) => exists|i: int| 0 <= i < list@.len() && method_matches(#[trigger] list@[i], method@),
            }) && !(match &settings.hosts {
                HttpHosts::All => true,
                HttpHosts::List(list) => exists|i: int| 0 <= i < list@.len() && (#[trigger] list@[i])@ == host_or_empty(uri@),
            }),
            Err(_) => false,
        },
{
    if !is_method_allowed(method, &settings.methods) {
        return Err(InvokeError::ForbiddenMethod(method.to_owned()));
    }
    let host = match uri_host(uri) {
        Some(h) => h,
        None => String::new(),
    };
    if !is_host_allowed(host.as_str(), &settings.hosts) {
        return Err(InvokeError::ForbiddenHost(host));
    }
    Ok(())
}

// ---------------------------------------------------------------------------
// The outcome of an outgoing request on the wire
// ---------------------------------------------------------------------------

/// An `InvokeError` with its texts as characters.
pub enum InvokeErrorView {
    EmptyContext,
    CanNotReadWasmData,
    FailDeserializeRequest,
    FailBuildResponse(Seq<char>),
    ForbiddenMethod(Seq<char>),
    ForbiddenHost(Seq<char>),
    FailRequest(Option<u16>, Seq<char>),
}

impl View for InvokeError {
    type V = InvokeErrorView;

    open spec fn view(&self) -> InvokeErrorView {
        match self {
            InvokeError::EmptyContext => InvokeErrorView::EmptyContext,
            InvokeError::CanNotReadWasmData => InvokeErrorView::CanNotReadWasmData,
            InvokeError::FailDeserializeRequest => InvokeErrorView::FailDeserializeRequest,
            InvokeError::FailBuildResponse(s) => InvokeErrorView::FailBuildResponse(s@),
            InvokeError::ForbiddenMethod(s) => InvokeErrorView::ForbiddenMethod(s@),
            InvokeError::ForbiddenHost(s) => InvokeErrorView::ForbiddenHost(s@),
            InvokeError::FailRequest(c, s) => InvokeErrorView::FailRequest(*c, s@),
        }
    }
}

/// A text as a byte field of its UTF-8 bytes.
pub open spec fn text_field(s: Seq<char>) -> Seq<u8> {
    field(encode_utf8(s))
}

/// The text stored at `pos`: a byte field holding valid UTF-8.
pub open spec fn read_text(data: Seq<u8>, pos: int) -> Option<(Seq<char>, int)> {
    match read_field(data, pos) {
        Some((b, p)) => if valid_utf8(b) {
            Some((decode_utf8(b), p))
        } else {
            None
        },
        None => None,
    }
}

pub open spec fn invoke_error_encodable(e: InvokeErrorView) -> bool {
    match e {
        InvokeErrorView::FailBuildResponse(s) => encode_utf8(s).len() <= u32::MAX,
        InvokeErrorView::ForbiddenMethod(s) => encode_utf8(s).len() <= u32::MAX,
        InvokeErrorView::ForbiddenHost(s) => encode_utf8(s).len() <= u32::MAX,
        InvokeErrorView::FailRequest(_, s) => encode_utf8(s).len() <= u32::MAX,
        _ => true,
    }
}

/// The bytes of an error: the number of its kind, then its fields.
pub open spec fn invoke_error_wire(e: InvokeErrorView) -> Seq<u8> {
    match e {
        InvokeErrorView::EmptyContext => seq![0u8],
        InvokeErrorView::CanNotReadWasmData => seq![1u8],
        InvokeErrorView::FailDeserializeRequest => seq![2u8],
        InvokeErrorView::FailBuildResponse(s) => seq![3u8] + text_field(s),
        InvokeErrorView::ForbiddenMethod(s) => seq![4u8] + text_field(s),
        InvokeErrorView::ForbiddenHost(s) => seq![5u8] + text_field(s),
        InvokeErrorView::FailRequest(code, s) => seq![6u8] + match code {
            Some(c) => seq![1u8] + spec_u16_to_le_bytes(c),
            None => seq![0u8],
        } + text_field(s),
    }
}

/// The optional status code stored at `pos`.
pub open spec fn read_code(data: Seq<u8>, pos: int) -> Option<(Option<u16>, int)> {
    if 0 <= pos < data.len() {
        if data[pos] == 0 {
            Some((None, pos + 1))
        } else if data[pos] == 1 && pos + 3 <= data.len() {
            Some((Some(spec_u16_from_le_bytes(data.subrange(pos + 1, pos + 3))), pos + 3))
        } else {
            None
        }
    } else {
        None
    }
}

/// The error stored at `pos`.
pub open spec fn read_invoke_error(data: Seq<u8>, pos: int) -> Option<(InvokeErrorView, int)> {
    if 0 <= pos < data.len() {
        let tag = data[pos];
        if tag == 0 {
            Some((InvokeErrorView::EmptyContext, pos + 1))
        } else if tag == 1 {
            Some((InvokeErrorView::CanNotReadWasmData, pos + 1))
        } else if tag == 2 {
            Some((InvokeErrorView::FailDeserializeRequest, pos + 1))
        } else if tag == 3 || tag == 4 || tag == 5 {
            match read_text(data, pos + 1) {
                Some((s, p)) => Some((
                    if tag == 3 {
                        InvokeErrorView::FailBuildResponse(s)
                    } else if tag == 4 {
                        InvokeErrorView::ForbiddenMethod(s)
                    } else {
                        InvokeErrorView::ForbiddenHost(s)
                    },
                    p,
                )),
                None => None,
            }
        } else if tag == 6 {
            match read_code(data, pos + 1) {
                Some((code, p1)) => match read_text(data, p1) {
                    Some((s, p2)) => Some((InvokeErrorView::FailRequest(code, s), p2)),
                    None => None,
                },
                None => None,
            }
        } else {
            None
        }
    } else {
        None
    }
}

/// The outcome of a request, as the lapp receives it.
pub enum InvokeResultView {
    Response(ResponseView),
    Failure(InvokeErrorView),
}

pub open spec fn invoke_result_view(r: &Result<Response, InvokeError>) -> InvokeResultView {
    match r {
        Ok(resp) => InvokeResultView::Response(resp@),
        Err(e) => InvokeResultView::Failure(e@),
    }
}

/// The bytes of an outcome: `1` and the response, or `0` and the error.
pub open spec fn invoke_result_wire(r: InvokeResultView) -> Seq<u8> {
    match r {
        InvokeResultView::Response(resp) => seq![1u8] + response_wire(resp),
        InvokeResultView::Failure(e) => seq![0u8] + invoke_error_wire(e),
    }
}

pub open spec fn invoke_result_encodable(r: InvokeResultView) -> bool {
    match r {
        InvokeResultView::Response(resp) => response_encodable(resp),
        InvokeResultView::Failure(e) => invoke_error_encodable(e),
    }
}

/// The outcome that all of `data` holds.
pub open spec fn invoke_result_from_bytes(data: Seq<u8>) -> Result<InvokeResultView, WireError> {
    if data.len() == 0 {
        Err(WireError::InvalidData)
    } else if data[0] == 1 {
        match read_response(data, 1) {
            Ok((resp, n)) => if n == data.len() {
                Ok(InvokeResultView::Response(resp))
            } else {
                Err(WireError::InvalidData)
            },
            Err(e) => Err(e),
        }
    } else if data[0] == 0 {
        match read_invoke_error(data, 1) {
            Some((e, n)) => if n == data.len() {
                Ok(InvokeResultView::Failure(e))
            } else {
                Err(WireError::InvalidData)
            },
            None => Err(WireError::InvalidData),
        }
    } else {
        Err(WireError::InvalidData)
    }
}

/// `String::from_utf8`: the text of `bytes` where they are valid UTF-8.
#[verifier::external_body]
pub(crate) fn utf8_text(bytes: Vec<u8>) -> (r: Option<String>)
    ensures
        match r {
            Some(s) => valid_utf8(bytes@) && s@ == decode_utf8(bytes@),
            None => !valid_utf8(bytes@),
        },
{
    String::from_utf8(bytes).ok()
}

pub(crate) fn push_text(out: &mut Vec<u8>, s: &String) -> (ok: bool)
    ensures
        ok == (encode_utf8(s@).len() <= u32::MAX),
        ok ==> final(out)@ == old(out)@ + text_field(s@),
        !ok ==> final(out)@ == old(out)@,
{
    let bytes = s.as_str().as_bytes();
    if bytes.len() > 0xffff_ffff {
        return false;
    }
    push_field(out, bytes);
    true
}

pub(crate) fn take_text(data: &[u8], pos: usize) -> (r: Option<(String, usize)>)
    ensures
        match r {
            Some((s, next)) => read_text(data@, pos as int) == Some((s@, next as int)),
            None => read_text(data@, pos as int) is None,
        },
{
    let (bytes, next) = take_field(data, pos)?;
    let text = utf8_text(bytes)?;
    Some((text, next))
}

/// The bytes of an error; `None` where a text does not fit.
pub fn invoke_error_to_vec(e: &InvokeError) -> (r: Option<Vec<u8>>)
    ensures
        r is Some <==> invoke_error_encodable(e@),
        r matches Some(b) ==> b@ == invoke_error_wire(e@),
{
    let mut out: Vec<u8> = Vec::new();
    let ok = match e {
        InvokeError::EmptyContext => {
            out.push(0);
            true
        },
        InvokeError::CanNotReadWasmData => {
            out.push(1);
            true
        },
        InvokeError::FailDeserializeRequest => {
            out.push(2);
            true
        },
        InvokeError::FailBuildResponse(s) => {
            out.push(3);
            push_text(&mut out, s)
        },
        InvokeError::ForbiddenMethod(s) => {
            out.push(4);
            push_text(&mut out, s)
        },
        InvokeError::ForbiddenHost(s) => {
            out.push(5);
            push_text(&mut out, s)
        },
        InvokeError::FailRequest(code, s) => {
            out.push(6);
            match code {
                Some(c) => {
                    out.push(1);
                    let b = u16_to_le_bytes(*c);
                    out.push(b[0]);
                    out.push(b[1]);
                    proof {
                        lemma_auto_spec_u16_to_from_le_bytes();
                        assert(spec_u16_to_le_bytes(*c).len() == 2);
                    }
                },
                None => {
                    out.push(0);
                },
            }
            push_text(&mut out, s)
        },
    };
    if ok {
        assert(out@ =~= invoke_error_wire(e@));
        Some(out)
    } else {
        None
    }
}

/// Reads the error stored at `pos`.
pub fn invoke_error_from_slice(data: &[u8], pos: usize) -> (r: Option<(InvokeError, usize)>)
    ensures
        match r {
            Some((e, next)) => read_invoke_error(data@, pos as int) == Some((e@, next as int)),
            None => read_invoke_error(data@, pos as int) is None,
        },
{
    if pos >= data.len() {
        return None;
    }
    let tag = data[pos];
    if tag == 0 {
        Some((InvokeError::EmptyContext, pos + 1))
    } else if tag == 1 {
        Some((InvokeError::CanNotReadWasmData, pos + 1))
    } else if tag == 2 {
        Some((InvokeError::FailDeserializeRequest, pos + 1))
    } else if tag == 3 || tag == 4 || tag == 5 {
        let (s, p) = take_text(data, pos + 1)?;
        let e = if tag == 3 {
            InvokeError::FailBuildResponse(s)
        } else if tag == 4 {
            InvokeError::ForbiddenMethod(s)
        } else {
            InvokeError::ForbiddenHost(s)
        };
        Some((e, p))
    } else if tag == 6 {
        let p = pos + 1;
        if p >= data.len() {
            return None;
        }
        let (code, p1) = if data[p] == 0 {
            (None, p + 1)
        } else if data[p] == 1 && data.len() - p >= 3 {
            let c = u16_from_le_bytes(vstd::slice::slice_subrange(data, p + 1, p + 3));
            (Some(c), p + 3)
        } else {
            return None;
        };
        let (s, p2) = take_text(data, p1)?;
        Some((InvokeError::FailRequest(code, s), p2))
    } else {
        None
    }
}

/// The bytes of the outcome of a request, as handed to the lapp.
pub fn invoke_result_to_vec(r: &Result<Response, InvokeError>) -> (b: Result<Vec<u8>, WireError>)
    ensures
        b is Ok <==> invoke_result_encodable(invoke_result_view(r)),
        b matches Ok(bytes) ==> bytes@ == invoke_result_wire(invoke_result_view(r)),
        b matches Err(e) ==> e == WireError::InvalidData,
{
    match r {
        Ok(resp) => {
            let mut out: Vec<u8> = Vec::new();
            out.push(1);
            resp.serialize(&mut out)?;
            assert(out@ =~= invoke_result_wire(invoke_result_view(r)));
            Ok(out)
        },
        Err(e) => match invoke_error_to_vec(e) {
            Some(bytes) => {
                let mut out: Vec<u8> = Vec::new();
                out.push(0);
                let mut bytes = bytes;
                out.append(&mut bytes);
                assert(out@ =~= invoke_result_wire(invoke_result_view(r)));
                Ok(out)
            },
            None => Err(WireError::InvalidData),
        },
    }
}

/// The outcome of a request that all of `data` holds.
pub fn invoke_result_from_slice(data: &[u8]) -> (r: Result<Result<Response, InvokeError>, WireError>)
    ensures
        match r {
            Ok(res) => invoke_result_from_bytes(data@) == Ok::<_, WireError>(invoke_result_view(&res)),
            Err(e) => invoke_result_from_bytes(data@) == Err::<InvokeResultView, WireError>(e),
        },
{
    if data.len() == 0 {
        return Err(WireError::InvalidData);
    }
    if data[0] == 1 {
        let (resp, n) = Response::deserialize_reader(data, 1)?;
        if n == data.len() {
            Ok(Ok(resp))
        } else {
            Err(WireError::InvalidData)
        }
    } else if data[0] == 0 {
        match invoke_error_from_slice(data, 1) {
            Some((e, n)) => if n == data.len() {
                Ok(Err(e))
            } else {
                Err(WireError::InvalidData)
            },
            None => Err(WireError::InvalidData),
        }
    } else {
        Err(WireError::InvalidData)
    }
}

pub(crate) proof fn lemma_read_text(data: Seq<u8>, pos: int, s: Seq<char>)
    requires
        0 <= pos,
        encode_utf8(s).len() <= u32::MAX,
        pos + text_field(s).len() <= data.len(),
        data.subrange(pos, pos + text_field(s).len()) == text_field(s),
    ensures
        read_text(data, pos) == Some((s, pos + text_field(s).len())),
{
    lemma_field_len(encode_utf8(s));
    lemma_read_field(data, pos, encode_utf8(s));
    encode_utf8_valid_utf8(s);
    encode_utf8_decode_utf8(s);
}

/// An error reads back from its own bytes, wherever they stand and
/// whatever follows them.
pub proof fn lemma_invoke_error_roundtrip(e: InvokeErrorView, prefix: Seq<u8>, rest: Seq<u8>)
    requires
        invoke_error_encodable(e),
    ensures
        read_invoke_error(prefix + invoke_error_wire(e) + rest, prefix.len() as int)
            == Some((e, (prefix.len() + invoke_error_wire(e).len()) as int)),
{
    let w = invoke_error_wire(e);
    let data = prefix + w + rest;
    let b: int = prefix.len() as int;
    assert(data.subrange(b, b + w.len()) =~= w);
    assert(data[b] == w[0]);
    match e {
        InvokeErrorView::FailBuildResponse(s) => {
            lemma_field_len(encode_utf8(s));
            assert(w.subrange(1, w.len() as int) =~= text_field(s));
            lemma_subrange_part(data, b, w, 1, text_field(s));
            lemma_read_text(data, b + 1, s);
        },
        InvokeErrorView::ForbiddenMethod(s) => {
            lemma_field_len(encode_utf8(s));
            assert(w.subrange(1, w.len() as int) =~= text_field(s));
            lemma_subrange_part(data, b, w, 1, text_field(s));
            lemma_read_text(data, b + 1, s);
        },
        InvokeErrorView::ForbiddenHost(s) => {
            lemma_field_len(encode_utf8(s));
            assert(w.subrange(1, w.len() as int) =~= text_field(s));
            lemma_subrange_part(data, b, w, 1, text_field(s));
            lemma_read_text(data, b + 1, s);
        },
        InvokeErrorView::FailRequest(code, s) => {
            lemma_field_len(encode_utf8(s));
            lemma_auto_spec_u16_to_from_le_bytes();
            let c: Seq<u8> = match code {
                Some(c) => seq![1u8] + spec_u16_to_le_bytes(c),
                None => seq![0u8],
            };
            assert(w == seq![6u8] + c + text_field(s));
            let p1: int = 1 + c.len() as int;
            match code {
                Some(v) => {
                    assert(spec_u16_to_le_bytes(v).len() == 2);
                    assert(data[b + 1] == 1u8);
                    assert(data.subrange(b + 2, b + 4) =~= spec_u16_to_le_bytes(v));
                    assert(read_code(data, b + 1) == Some((Some(v), b + 4)));
                },
                None => {
                    assert(data[b + 1] == 0u8);
                    assert(read_code(data, b + 1) == Some((None::<u16>, b + 2)));
                },
            }
            assert(w.subrange(p1, w.len() as int) =~= text_field(s));
            lemma_subrange_part(data, b, w, p1, text_field(s));
            lemma_read_text(data, b + p1, s);
        },
        _ => {},
    }
}

/// An outcome reads back from its own bytes.
pub proof fn lemma_invoke_result_roundtrip(r: InvokeResultView)
    requires
        invoke_result_encodable(r),
        r matches InvokeResultView::Response(resp) ==> response_is_canonical(resp),
    ensures
        invoke_result_from_bytes(invoke_result_wire(r)) == Ok::<_, WireError>(r),
{
    let w = invoke_result_wire(r);
    match r {
        InvokeResultView::Response(resp) => {
            crate::http::lemma_response_roundtrip_at(resp, seq![1u8], Seq::empty());
            assert(seq![1u8] + response_wire(resp) + Seq::<u8>::empty() =~= w);
        },
        InvokeResultView::Failure(e) => {
            lemma_invoke_error_roundtrip(e, seq![0u8], Seq::empty());
            assert(seq![0u8] + invoke_error_wire(e) + Seq::<u8>::empty() =~= w);
        },
    }
}

/// The request a lapp asks the server to send, before it goes out: there
/// must be HTTP settings for the lapp (`EmptyContext`), its bytes must have
/// been read (`CanNotReadWasmData`) and hold a request
/// (`FailDeserializeRequest`), and the settings must allow its method
/// (`ForbiddenMethod`) and then its host (`ForbiddenHost`).
pub fn invoke_request(settings: Option<&LappHttpSettings>, request_bytes: Option<Vec<u8>>) -> (r: Result<Request, InvokeError>)
    ensures
        settings is None ==> r matches Err(InvokeError::EmptyContext),
        settings is Some && request_bytes is None ==> r matches Err(InvokeError::CanNotReadWasmData),
        settings matches Some(s) ==> (request_bytes matches Some(b) ==> match request_from_bytes(b@) {
            Err(_) => r matches Err(InvokeError::FailDeserializeRequest),
            Ok(req) => {
                let host = host_or_empty(req.uri);
                if !method_allowed(&s.methods, req.method) {
                    r matches Err(InvokeError::ForbiddenMethod(m)) && m@ == req.method
                } else if !host_allowed(&s.hosts, host) {
                    r matches Err(InvokeError::ForbiddenHost(h)) && h@ == host
                } else {
                    r matches Ok(q) && q@ == req
                }
            },
        }),
{
    let settings = match settings {
        Some(s) => s,
        None => return Err(InvokeError::EmptyContext),
    };
    let bytes = match request_bytes {
        Some(b) => b,
        None => return Err(InvokeError::CanNotReadWasmData),
    };
    let request = match Request::try_from_slice(bytes.as_slice()) {
        Ok(req) => req,
        Err(_) => return Err(InvokeError::FailDeserializeRequest),
    };
    match check_http_request(settings, request.method.as_str(), request.uri.as_str()) {
        Ok(()) => Ok(request),
        Err(e) => Err(e),
    }
}

/// The failure of a lapp's outgoing request is written as borsh writes it:
/// its variant's index among `EmptyContext`, `CanNotReadWasmData`,
/// `FailDeserializeRequest`, `FailBuildResponse`, `ForbiddenMethod`,
/// `ForbiddenHost`, `FailRequest` (0 to 6), then its fields; an outcome is
/// `0` and the failure, or `1` and the response.
pub proof fn lemma_invoke_error_layout(s: Seq<char>, code: Option<u16>, resp: ResponseView)
    ensures
        invoke_error_wire(InvokeErrorView::EmptyContext) == seq![0u8],
        invoke_error_wire(InvokeErrorView::CanNotReadWasmData) == seq![1u8],
        invoke_error_wire(InvokeErrorView::FailDeserializeRequest) == seq![2u8],
        invoke_error_wire(InvokeErrorView::FailBuildResponse(s)) == seq![3u8] + text_field(s),
        invoke_error_wire(InvokeErrorView::ForbiddenMethod(s)) == seq![4u8] + text_field(s),
        invoke_error_wire(InvokeErrorView::ForbiddenHost(s)) == seq![5u8] + text_field(s),
        invoke_error_wire(InvokeErrorView::FailRequest(code, s)) == seq![6u8] + match code {
            Some(c) => seq![1u8] + spec_u16_to_le_bytes(c),
            None => seq![0u8],
        } + text_field(s),
        invoke_result_wire(InvokeResultView::Failure(InvokeErrorView::ForbiddenMethod(s)))
            == seq![0u8, 4u8] + text_field(s),
        invoke_result_wire(InvokeResultView::Response(resp)) == seq![1u8] + response_wire(resp),
{
    assert(seq![0u8] + (seq![4u8] + text_field(s)) =~= seq![0u8, 4u8] + text_field(s));
}

/// A failure is read by the same indices: the byte at `pos` decides the
/// variant, and its text follows.
pub proof fn lemma_read_invoke_error_by_index(data: Seq<u8>, pos: int)
    requires
        0 <= pos < data.len(),
    ensures
        data[pos] == 0 ==> read_invoke_error(data, pos) == Some((InvokeErrorView::EmptyContext, pos + 1)),
        data[pos] == 1 ==> read_invoke_error(data, pos) == Some((InvokeErrorView::CanNotReadWasmData, pos + 1)),
        data[pos] == 2 ==> read_invoke_error(data, pos) == Some((InvokeErrorView::FailDeserializeRequest, pos + 1)),
        data[pos] == 3 ==> read_invoke_error(data, pos) == match read_text(data, pos + 1) {
            Some((s, p)) => Some((InvokeErrorView::FailBuildResponse(s), p)),
            None => None,
        },
        data[pos] == 4 ==> read_invoke_error(data, pos) == match read_text(data, pos + 1) {
            Some((s, p)) => Some((InvokeErrorView::ForbiddenMethod(s), p)),
            None => None,
        },
        data[pos] == 5 ==> read_invoke_error(data, pos) == match read_text(data, pos + 1) {
            Some((s, p)) => Some((InvokeErrorView::ForbiddenHost(s), p)),
            None => None,
        },
        data[pos] > 6 ==> read_invoke_error(data, pos) is None,
{
}

} // verus!
