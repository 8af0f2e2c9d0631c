use laplace::http::{
    deserialize_headers, deserialize_version, serialize_headers, serialize_version, Request, Response, Version,
};
use laplace::instance::init_outcome;
use laplace::invoke::{
    display_code, invoke_error_from_slice, invoke_error_to_vec, invoke_result_from_slice, invoke_result_to_vec,
    InvokeError,
};
use laplace::error::ServerError;
use laplace::wire::{push_field, push_u32, take_field, take_u32, WireError};

type Headers = Vec<(Vec<u8>, Vec<u8>)>;

fn sample_request() -> Request {
    Request {
        method: "POST".to_string(),
        uri: "http://example.com/api?x=1".to_string(),
        version: Version::Http2,
        headers: vec![
            (b"content-type".to_vec(), b"text/plain".to_vec()),
            (b"x-token".to_vec(), b"abc".to_vec()),
        ],
        body: b"hello".to_vec(),
    }
}

#[test]
fn request_bytes_match_borsh_layout() {
    let request = sample_request();
    let bytes = request.to_vec().unwrap();
    let headers: Headers = request.headers.clone();
    let expected = borsh::to_vec(&(
        "POST".to_string(),
        "http://example.com/api?x=1".to_string(),
        20u8,
        headers,
        b"hello".to_vec(),
    ))
    .unwrap();
    assert_eq!(bytes, expected);
}

#[test]
fn request_roundtrip() {
    let request = sample_request();
    let bytes = request.to_vec().unwrap();
    let back = Request::try_from_slice(&bytes).unwrap();
    assert_eq!(back.method, "POST");
    assert_eq!(back.uri, "http://example.com/api?x=1");
    assert_eq!(back.version, Version::Http2);
    assert_eq!(back.headers, request.headers);
    assert_eq!(back.body, b"hello".to_vec());
}

#[test]
fn request_new_is_get_root() {
    let request = Request::new(b"body".to_vec());
    assert_eq!(request.method, "GET");
    assert_eq!(request.uri, "/");
    assert_eq!(request.version, Version::Http11);
    assert!(request.headers.is_empty());
    assert_eq!(request.body, b"body".to_vec());
    let bytes = request.to_vec().unwrap();
    let expected = borsh::to_vec(&("GET".to_string(), "/".to_string(), 11u8, Headers::new(), b"body".to_vec())).unwrap();
    assert_eq!(bytes, expected);
}

#[test]
fn request_with_trailing_bytes_is_invalid() {
    let mut bytes = sample_request().to_vec().unwrap();
    bytes.push(0);
    assert!(matches!(Request::try_from_slice(&bytes), Err(WireError::InvalidData)));
}

#[test]
fn request_reader_reports_position() {
    let mut bytes = vec![7u8, 7];
    let start = bytes.len();
    sample_request().serialize(&mut bytes).unwrap();
    let end = bytes.len();
    bytes.extend_from_slice(&[1, 2, 3]);
    let (request, next) = Request::deserialize_reader(&bytes, start).unwrap();
    assert_eq!(next, end);
    assert_eq!(request.method, "POST");
}

#[test]
fn request_with_bad_method_is_invalid() {
    let bytes = borsh::to_vec(&("G ET".to_string(), "/".to_string(), 11u8, Headers::new(), Vec::<u8>::new())).unwrap();
    assert!(matches!(Request::try_from_slice(&bytes), Err(WireError::InvalidData)));
}

#[test]
fn request_with_unknown_version_is_unsupported() {
    let bytes = borsh::to_vec(&("GET".to_string(), "/".to_string(), 12u8, Headers::new(), Vec::<u8>::new())).unwrap();
    assert!(matches!(Request::try_from_slice(&bytes), Err(WireError::Unsupported)));
}

#[test]
fn request_with_bad_header_name_is_invalid() {
    let headers: Headers = vec![(b"bad name".to_vec(), b"v".to_vec())];
    let bytes = borsh::to_vec(&("GET".to_string(), "/".to_string(), 11u8, headers, Vec::<u8>::new())).unwrap();
    assert!(matches!(Request::try_from_slice(&bytes), Err(WireError::InvalidData)));
}

#[test]
fn request_header_name_is_lowercased_on_read() {
    let headers: Headers = vec![(b"Content-Type".to_vec(), b"text/html".to_vec())];
    let bytes = borsh::to_vec(&("GET".to_string(), "/".to_string(), 11u8, headers, Vec::<u8>::new())).unwrap();
    let request = Request::try_from_slice(&bytes).unwrap();
    assert_eq!(request.headers, vec![(b"content-type".to_vec(), b"text/html".to_vec())]);
}

#[test]
fn truncated_request_is_invalid() {
    let bytes = sample_request().to_vec().unwrap();
    assert!(matches!(Request::try_from_slice(&bytes[..bytes.len() - 1]), Err(WireError::InvalidData)));
    assert!(matches!(Request::try_from_slice(&[]), Err(WireError::InvalidData)));
}

#[test]
fn response_bytes_match_borsh_layout() {
    let response = Response {
        status: 404,
        version: Version::Http10,
        headers: vec![(b"server".to_vec(), b"laplace".to_vec())],
        body: b"missing".to_vec(),
    };
    let bytes = response.to_vec().unwrap();
    let headers: Headers = vec![(b"server".to_vec(), b"laplace".to_vec())];
    let expected = borsh::to_vec(&(404u16, 10u8, headers, b"missing".to_vec())).unwrap();
    assert_eq!(bytes, expected);
    let back = Response::try_from_slice(&bytes).unwrap();
    assert_eq!(back.status, 404);
    assert_eq!(back.version, Version::Http10);
    assert_eq!(back.headers, response.headers);
    assert_eq!(back.body, b"missing".to_vec());
}

#[test]
fn response_new_is_ok() {
    let response = Response::new(b"x".to_vec());
    assert_eq!(response.status, 200);
    assert_eq!(response.version, Version::Http11);
    assert!(response.headers.is_empty());
    assert_eq!(response.body, b"x".to_vec());
}

#[test]
fn response_status_out_of_range_is_invalid() {
    let bytes = borsh::to_vec(&(99u16, 11u8, Headers::new(), Vec::<u8>::new())).unwrap();
    assert!(matches!(Response::try_from_slice(&bytes), Err(WireError::InvalidData)));
    let bytes = borsh::to_vec(&(1000u16, 11u8, Headers::new(), Vec::<u8>::new())).unwrap();
    assert!(matches!(Response::try_from_slice(&bytes), Err(WireError::InvalidData)));
    let bytes = borsh::to_vec(&(999u16, 11u8, Headers::new(), Vec::<u8>::new())).unwrap();
    assert_eq!(Response::try_from_slice(&bytes).unwrap().status, 999);
}

#[test]
fn response_with_control_byte_in_header_value_is_invalid() {
    let headers: Headers = vec![(b"x".to_vec(), vec![b'a', 0x01])];
    let bytes = borsh::to_vec(&(200u16, 11u8, headers, Vec::<u8>::new())).unwrap();
    assert!(matches!(Response::try_from_slice(&bytes), Err(WireError::InvalidData)));
}

#[test]
fn versions_have_their_codes() {
    let all = [
        (Version::Http09, 9u8),
        (Version::Http10, 10),
        (Version::Http11, 11),
        (Version::Http2, 20),
        (Version::Http3, 30),
    ];
    for (version, code) in all {
        let mut out = vec![1u8];
        serialize_version(version, &mut out);
        assert_eq!(out, vec![1, code]);
        assert_eq!(deserialize_version(&out, 1).unwrap(), (version, 2));
    }
    assert!(matches!(deserialize_version(&[21], 0), Err(WireError::Unsupported)));
    assert!(matches!(deserialize_version(&[], 0), Err(WireError::InvalidData)));
}

#[test]
fn headers_roundtrip() {
    let headers: Headers = vec![(b"a".to_vec(), b"1".to_vec()), (b"b".to_vec(), b"".to_vec())];
    let mut out = Vec::new();
    assert!(serialize_headers(&headers, &mut out));
    assert_eq!(out, borsh::to_vec(&headers).unwrap());
    let (back, next) = deserialize_headers(&out, 0).unwrap();
    assert_eq!(back, headers);
    assert_eq!(next, out.len());
}

#[test]
fn fields_and_numbers() {
    let mut out = Vec::new();
    push_u32(&mut out, 0x0403_0201);
    assert_eq!(out, vec![1, 2, 3, 4]);
    push_field(&mut out, b"ab");
    assert_eq!(out, vec![1, 2, 3, 4, 2, 0, 0, 0, b'a', b'b']);
    assert_eq!(take_u32(&out, 0), Some(0x0403_0201));
    assert_eq!(take_u32(&out, 7), None);
    assert_eq!(take_field(&out, 4), Some((b"ab".to_vec(), 10)));
    assert_eq!(take_field(&out, 5), None);
}

#[test]
fn display_code_of_status() {
    assert_eq!(display_code(&Some(404)), "404");
    assert_eq!(display_code(&Some(0)), "0");
    assert_eq!(display_code(&None), "None");
}

#[test]
fn invoke_error_messages() {
    assert_eq!(InvokeError::EmptyContext.to_string(), "HTTP context is empty");
    assert_eq!(InvokeError::CanNotReadWasmData.to_string(), "Read from WASM error");
    assert_eq!(InvokeError::FailDeserializeRequest.to_string(), "HTTP request deserialization error");
    assert_eq!(
        InvokeError::FailBuildResponse("bad".to_string()).to_string(),
        "HTTP response building error: bad"
    );
    assert_eq!(
        InvokeError::ForbiddenMethod("PUT".to_string()).to_string(),
        "HTTP method \"PUT\" not allowed"
    );
    assert_eq!(
        InvokeError::ForbiddenHost("evil.com".to_string()).to_string(),
        "HTTP host \"evil.com\" not allowed"
    );
    assert_eq!(
        InvokeError::FailRequest(Some(500), "boom".to_string()).to_string(),
        "HTTP request error: 500, boom"
    );
    assert_eq!(
        InvokeError::FailRequest(None, "boom".to_string()).to_string(),
        "HTTP request error: None, boom"
    );
}

#[test]
fn invoke_error_bytes_match_borsh_layout() {
    assert_eq!(invoke_error_to_vec(&InvokeError::EmptyContext).unwrap(), vec![0]);
    assert_eq!(invoke_error_to_vec(&InvokeError::FailDeserializeRequest).unwrap(), vec![2]);
    assert_eq!(
        invoke_error_to_vec(&InvokeError::ForbiddenHost("h".to_string())).unwrap(),
        borsh::to_vec(&(5u8, "h".to_string())).unwrap()
    );
    assert_eq!(
        invoke_error_to_vec(&InvokeError::FailRequest(Some(418), "tea".to_string())).unwrap(),
        borsh::to_vec(&(6u8, Some(418u16), "tea".to_string())).unwrap()
    );
    assert_eq!(
        invoke_error_to_vec(&InvokeError::FailRequest(None, "x".to_string())).unwrap(),
        borsh::to_vec(&(6u8, Option::<u16>::None, "x".to_string())).unwrap()
    );
}

#[test]
fn invoke_error_roundtrip() {
    let bytes = invoke_error_to_vec(&InvokeError::ForbiddenMethod("DELETE".to_string())).unwrap();
    let (e, next) = invoke_error_from_slice(&bytes, 0).unwrap();
    assert_eq!(next, bytes.len());
    assert!(matches!(e, InvokeError::ForbiddenMethod(m) if m == "DELETE"));
    assert!(invoke_error_from_slice(&[7], 0).is_none());
}

#[test]
fn invoke_result_roundtrip() {
    let ok: Result<Response, InvokeError> = Ok(Response::new(b"done".to_vec()));
    let bytes = invoke_result_to_vec(&ok).unwrap();
    assert_eq!(bytes[0], 1);
    match invoke_result_from_slice(&bytes).unwrap() {
        Ok(response) => assert_eq!(response.body, b"done".to_vec()),
        Err(e) => panic!("unexpected error {e:?}"),
    }
    let failed: Result<Response, InvokeError> = Err(InvokeError::CanNotReadWasmData);
    let bytes = invoke_result_to_vec(&failed).unwrap();
    assert_eq!(bytes, vec![0, 1]);
    assert!(matches!(invoke_result_from_slice(&bytes).unwrap(), Err(InvokeError::CanNotReadWasmData)));
    assert!(matches!(invoke_result_from_slice(&[2]), Err(WireError::InvalidData)));
    assert!(matches!(invoke_result_from_slice(&[0, 1, 0]), Err(WireError::InvalidData)));
}

#[test]
fn init_outcome_reads_lapp_result() {
    let ok: Result<(), String> = Ok(());
    assert!(init_outcome(&borsh::to_vec(&ok).unwrap()).is_ok());
    let failed: Result<(), String> = Err("no config".to_string());
    match init_outcome(&borsh::to_vec(&failed).unwrap()) {
        Err(ServerError::LappInitError(text)) => assert_eq!(text, "no config"),
        other => panic!("unexpected {other:?}"),
    }
    assert!(matches!(init_outcome(&[]), Err(ServerError::ResultNotParsed)));
    assert!(matches!(init_outcome(&[1, 0]), Err(ServerError::ResultNotParsed)));
    assert!(matches!(init_outcome(&[0, 1, 0, 0, 0, 0xff]), Err(ServerError::ResultNotParsed)));
    assert!(matches!(init_outcome(&[2]), Err(ServerError::ResultNotParsed)));
}
