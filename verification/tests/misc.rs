use laplace::interop::{check_wasm_slice, is_memory_enough, needs_growth, page_size, pages_to_grow, MemoryManagementError};
use laplace::http::Request;
use laplace::invoke::{check_http_request, invoke_request, is_host_allowed, is_method_allowed, InvokeError};
use laplace::lapp::{
    ApplicationSettings, GossipsubSettings, HttpHosts, HttpMethod, HttpMethods, LappHttpSettings, LappSettings,
    NetworkSettings, PermissionsSettings,
};
use laplace::logging::source_path;
use laplace::manager::LappsManager;
use laplace::order::bytes_less;
use laplace::settings::{
    certificate_path_default, default_keep_log_for_days, default_spec, private_key_path_default, HttpSettings,
    LoggerSettings, Opts, Settings,
};
use laplace::text::{chars_of, find_in, matches_at, push_decimal, range_eq, str_eq, string_of_range};
use laplace::ui::{default_errors_id, Errors, ErrorsMsg, ErrorsProps, RawHtml, RawHtmlProps, SnackbarAction};
use laplace::urls::{lapp_url, laplace_url, root_url, startup_lapp_urls};

fn lapp(name: &str, token: Option<&str>, enabled: bool, autoload: bool) -> LappSettings {
    LappSettings {
        lapp_name: name.to_string(),
        application: ApplicationSettings {
            title: name.to_string(),
            enabled,
            autoload,
            access_token: token.map(|t| t.to_string()),
            additional_static_dirs: vec![],
        },
        permissions: PermissionsSettings { required: vec![], allowed: vec![] },
        network: NetworkSettings {
            http: LappHttpSettings { methods: HttpMethods::All, hosts: HttpHosts::All, timeout_ms: 0 },
            gossipsub: GossipsubSettings { addr: "/ip4/0.0.0.0/tcp/0".to_string(), dial_ports: vec![] },
        },
        database_path: "data.db".to_string(),
        data_dir: "data".to_string(),
    }
}

#[test]
fn settings_defaults() {
    let s = Settings::default();
    assert_eq!(s.http.host, "localhost");
    assert_eq!(s.http.port, 8080);
    assert!(s.http.web_root.is_empty());
    assert!(s.http.access_token.is_none());
    assert_eq!(s.http.upload_file_limit, 2 * 1024 * 1024 * 1024);
    assert!(s.http.print_url);
    assert!(!s.ssl.enabled);
    assert_eq!(s.ssl.private_key_path, "key.pem");
    assert_eq!(s.ssl.certificate_path, "cert.pem");
    assert!(!s.p2p.mdns_discovery_enabled);
    assert_eq!(s.log.spec, "info");
    assert!(s.log.path.is_none());
    assert!(!s.log.duplicate_to_stdout);
    assert_eq!(s.log.keep_log_for_days, 7);
    assert_eq!(s.lapps.path, "lapps");
    assert!(s.lapps.allowed.is_none());
    assert_eq!(private_key_path_default(), "key.pem");
    assert_eq!(certificate_path_default(), "cert.pem");
    assert_eq!(default_spec(), "info");
    assert_eq!(default_keep_log_for_days(), 7);
    assert_eq!(HttpSettings::default().port, 8080);
    assert_eq!(LoggerSettings::default().keep_log_for_days, 7);
    assert_eq!(Opts::default().config, "Laplace.toml");
}

#[test]
fn urls_of_server_and_lapps() {
    let mut s = Settings::default();
    assert_eq!(root_url(&s), "http://localhost:8080");
    s.ssl.enabled = true;
    s.http.host = "127.0.0.1".to_string();
    s.http.port = 443;
    assert_eq!(root_url(&s), "https://127.0.0.1:443");
    s.http.port = 0;
    assert_eq!(root_url(&s), "https://127.0.0.1:0");
    assert_eq!(laplace_url("http://h:1", ""), "http://h:1/");
    assert_eq!(laplace_url("http://h:1", "tok"), "http://h:1/?access_token=tok");
    assert_eq!(lapp_url("http://h:1", &lapp("chat", Some("t"), true, true)), "http://h:1/chat?access_token=t");
    assert_eq!(lapp_url("http://h:1", &lapp("chat", Some(""), true, true)), "http://h:1/chat?access_token=");
    assert_eq!(lapp_url("http://h:1", &lapp("chat", None, true, true)), "http://h:1/chat");
}

#[test]
fn startup_urls_list_active_lapps() {
    let mut m = LappsManager::new("lapps".to_string());
    m.insert_lapp_settings(lapp("a", None, true, true));
    m.insert_lapp_settings(lapp("b", None, false, true));
    m.insert_lapp_settings(lapp("c", Some("k"), true, true));
    m.insert_lapp_settings(lapp("d", None, true, false));
    assert_eq!(startup_lapp_urls(&m, "http://x:1"), vec!["http://x:1/a", "http://x:1/c?access_token=k"]);
}

#[test]
fn log_source_paths() {
    assert_eq!(source_path(Some("/home/u/laplace/laplace_server/src/lib.rs")), "laplace_server/src/lib.rs");
    assert_eq!(source_path(Some("laplace_server/src/lib.rs")), "laplace_server/src/lib.rs");
    assert_eq!(source_path(Some("/a/src/b/src/c.rs")), "b/src/c.rs");
    assert_eq!(source_path(Some("main.rs")), "main.rs");
    assert_eq!(source_path(Some("/srcx")), "/srcx");
    assert_eq!(source_path(None), "<unnamed>");
}

#[test]
fn outgoing_http_checks() {
    let list = HttpMethods::List(vec![HttpMethod::Get]);
    assert!(is_method_allowed("GET", &list));
    assert!(!is_method_allowed("POST", &list));
    assert!(!is_method_allowed("get", &list));
    assert!(is_method_allowed("DELETE", &HttpMethods::All));
    let hosts = HttpHosts::List(vec!["example.com".to_string()]);
    assert!(is_host_allowed("example.com", &hosts));
    assert!(!is_host_allowed("other.com", &hosts));
    assert!(is_host_allowed("", &HttpHosts::All));

    let settings = LappHttpSettings { methods: list, hosts, timeout_ms: 1000 };
    assert!(check_http_request(&settings, "GET", "https://example.com/path").is_ok());
    assert!(matches!(
        check_http_request(&settings, "POST", "https://example.com/path"),
        Err(InvokeError::ForbiddenMethod(m)) if m == "POST"
    ));
    assert!(matches!(
        check_http_request(&settings, "GET", "https://other.com/"),
        Err(InvokeError::ForbiddenHost(h)) if h == "other.com"
    ));
    assert!(matches!(
        check_http_request(&settings, "GET", "/relative"),
        Err(InvokeError::ForbiddenHost(h)) if h.is_empty()
    ));
}

#[test]
fn wasm_memory_checks() {
    assert_eq!(page_size(), 65536);
    assert!(is_memory_enough(100, 10, 90));
    assert!(!is_memory_enough(100, 10, 91));
    assert!(is_memory_enough(100, 100, 0));
    assert!(needs_growth(100, 50, 51));
    assert!(!needs_growth(100, 50, 50));
    assert!(check_wasm_slice(100, 0, 100).is_ok());
    assert!(matches!(check_wasm_slice(100, 1, 100), Err(MemoryManagementError::WrongMemorySize)));
}

#[test]
fn byte_order_of_names() {
    assert!(bytes_less(b"abc", b"abd"));
    assert!(bytes_less(b"ab", b"abc"));
    assert!(!bytes_less(b"abc", b"abc"));
    assert!(!bytes_less(b"b", b"abc"));
    assert!(bytes_less(b"Z", b"a"));
}

#[test]
fn text_helpers() {
    let v = chars_of("héllo");
    assert_eq!(v, vec!['h', 'é', 'l', 'l', 'o']);
    assert!(matches_at(&v, 2, &chars_of("llo")));
    assert!(!matches_at(&v, 3, &chars_of("llo")));
    assert!(range_eq(&v, 0, 2, &chars_of("hé")));
    assert_eq!(find_in(&v, 0, 5, 'l'), 2);
    assert_eq!(find_in(&v, 0, 2, 'l'), 2);
    assert_eq!(string_of_range(&v, 1, 4), "éll");
    assert!(str_eq("abc", "abc"));
    assert!(!str_eq("abc", "ab"));
    let mut s = "n=".to_string();
    push_decimal(&mut s, 1234567890);
    assert_eq!(s, "n=1234567890");
    let mut z = String::new();
    push_decimal(&mut z, 0);
    assert_eq!(z, "0");
}

#[test]
fn errors_snackbar_counts() {
    assert_eq!(default_errors_id(), "errors-snackbar");
    let props = ErrorsProps::default();
    assert_eq!(props.id, "errors-snackbar");
    assert_eq!(props.timeout_ms, -1);
    let mut errors: Errors<()> = Errors::create(props);
    assert_eq!(errors.id(), "errors-snackbar");
    assert_eq!(errors.timeout_ms(), -1);
    assert_eq!(errors.update(ErrorsMsg::Add("fail".to_string())), SnackbarAction::Keep);
    assert_eq!(errors.update(ErrorsMsg::Spawn("fail".to_string())), SnackbarAction::Open);
    errors.add("other".to_string());
    assert_eq!(errors.messages(), vec!["(2) fail", "(1) other"]);
    assert_eq!(errors.update(ErrorsMsg::Open), SnackbarAction::Open);
    assert_eq!(errors.messages().len(), 2);
    assert_eq!(errors.update(ErrorsMsg::Close), SnackbarAction::Close);
    assert!(errors.messages().is_empty());
    errors.add("again".to_string());
    errors.close();
    assert!(errors.messages().is_empty());
}

#[test]
fn errors_snackbar_from_props() {
    let props = ErrorsProps { id: "e".to_string(), timeout_ms: 5000, errors: vec![("x".to_string(), 3)] };
    let errors: Errors<()> = Errors::create(props);
    assert_eq!(errors.id(), "e");
    assert_eq!(errors.timeout_ms(), 5000);
    assert_eq!(errors.messages(), vec!["(3) x"]);
}

#[test]
fn raw_html_redraws_on_change() {
    let mut html = RawHtml::create(RawHtmlProps { inner_html: "<b>a</b>".to_string() });
    assert!(!html.changed(RawHtmlProps { inner_html: "<b>a</b>".to_string() }));
    assert!(html.changed(RawHtmlProps { inner_html: "<i>b</i>".to_string() }));
    assert_eq!(html.props.inner_html, "<i>b</i>");
}

#[test]
fn outgoing_request_preparation() {
    let settings = LappHttpSettings {
        methods: HttpMethods::List(vec![HttpMethod::Post]),
        hosts: HttpHosts::List(vec!["api.test".to_string()]),
        timeout_ms: 10,
    };
    let mut request = Request::new(b"{}".to_vec());
    request.method = "POST".to_string();
    request.uri = "http://api.test/v1".to_string();
    let bytes = request.to_vec().unwrap();

    assert!(matches!(invoke_request(None, Some(bytes.clone())), Err(InvokeError::EmptyContext)));
    assert!(matches!(invoke_request(Some(&settings), None), Err(InvokeError::CanNotReadWasmData)));
    assert!(matches!(invoke_request(Some(&settings), Some(vec![1, 2])), Err(InvokeError::FailDeserializeRequest)));
    let sent = invoke_request(Some(&settings), Some(bytes)).unwrap();
    assert_eq!(sent.method, "POST");
    assert_eq!(sent.uri, "http://api.test/v1");
    assert_eq!(sent.body, b"{}".to_vec());

    let get = Request::new(vec![]).to_vec().unwrap();
    assert!(matches!(invoke_request(Some(&settings), Some(get)), Err(InvokeError::ForbiddenMethod(m)) if m == "GET"));
    request.uri = "http://other.test/".to_string();
    let other = request.to_vec().unwrap();
    assert!(matches!(invoke_request(Some(&settings), Some(other)), Err(InvokeError::ForbiddenHost(h)) if h == "other.test"));
}

#[test]
fn memory_growth_in_pages() {
    assert_eq!(pages_to_grow(100, 0, 100), 0);
    assert_eq!(pages_to_grow(65536, 0, 65537), 1);
    assert_eq!(pages_to_grow(65536, 65536, 131072), 2);
    assert_eq!(pages_to_grow(65536, 65536, 131073), 3);
    assert_eq!(pages_to_grow(0, 0, 1), 1);
}
