use laplace::auth::{
    access_token_from_cookies, check_access, first_private_key, generate_token, lapp_name_of_path,
    needs_self_signed_certificate, prepare_access_token, query_access_token_complete, query_access_token_redirect,
    query_has_access_token, Access,
};
use laplace::error::{AppError, ServerError};
use laplace::lapp::{
    ApplicationSettings, GossipsubSettings, HttpHosts, HttpMethods, LappHttpSettings, LappSettings, NetworkSettings,
    PermissionsSettings,
};
use laplace::manager::LappsManager;

fn lapp(name: &str, token: Option<&str>) -> LappSettings {
    LappSettings {
        lapp_name: name.to_string(),
        application: ApplicationSettings {
            title: name.to_string(),
            enabled: true,
            autoload: false,
            access_token: token.map(|t| t.to_string()),
            additional_static_dirs: vec![],
        },
        permissions: PermissionsSettings { required: vec![], allowed: vec![] },
        network: NetworkSettings {
            http: LappHttpSettings { methods: HttpMethods::All, hosts: HttpHosts::All, timeout_ms: 0 },
            gossipsub: GossipsubSettings { addr: "/ip4/0.0.0.0/tcp/0".to_string(), dial_ports: vec![] },
        },
        database_path: "data.db".to_string(),
        data_dir: "data".to_string(),
    }
}

fn manager() -> LappsManager {
    let mut m = LappsManager::new("lapps".to_string());
    m.insert_lapp_settings(lapp("chat", Some("secret")));
    m.insert_lapp_settings(lapp("notes", None));
    m
}

fn cookies(values: &[&str]) -> Vec<Vec<u8>> {
    values.iter().map(|v| v.as_bytes().to_vec()).collect()
}

#[test]
fn generated_token_is_base58_of_32_bytes() {
    let token = generate_token().unwrap();
    let bytes = bs58::decode(&token).into_vec().unwrap();
    assert_eq!(bytes.len(), 32);
    let other = generate_token().unwrap();
    assert_ne!(token, other);
}

#[test]
fn configured_token_is_kept() {
    assert_eq!(prepare_access_token(Some("abc".to_string())).unwrap(), "abc");
    assert_eq!(prepare_access_token(Some(String::new())).unwrap(), "");
    let token = prepare_access_token(None).unwrap();
    assert_eq!(bs58::decode(&token).into_vec().unwrap().len(), 32);
}

#[test]
fn lapp_name_is_first_segment() {
    assert_eq!(lapp_name_of_path("/chat/index.html"), "chat");
    assert_eq!(lapp_name_of_path("//chat//x"), "chat");
    assert_eq!(lapp_name_of_path("/"), "");
    assert_eq!(lapp_name_of_path(""), "");
    assert_eq!(lapp_name_of_path("notes"), "notes");
}

#[test]
fn query_token_detection() {
    assert!(query_has_access_token("access_token=1"));
    assert!(query_has_access_token("a=1&access_token=2"));
    assert!(!query_has_access_token("my_access_token=2"));
    assert!(!query_has_access_token(""));
    assert!(query_access_token_complete("access_token=1&b=2"));
    assert!(!query_access_token_complete("access_token&b=2"));
    assert!(query_access_token_complete("b=2"));
}

#[test]
fn redirect_moves_token_into_cookie() {
    let redirect = query_access_token_redirect("/chat/index.html", "a=1&access_token=xyz&b=2", "localhost").unwrap();
    assert_eq!(redirect.location, "/chat/index.html?a=1&b=2");
    let cookie = cookie::Cookie::parse(redirect.set_cookie.clone()).unwrap();
    assert_eq!(cookie.name(), "access_token");
    assert_eq!(cookie.value(), "xyz");
    assert_eq!(cookie.path(), Some("/chat"));
    assert_eq!(cookie.domain(), Some("localhost"));
    assert_eq!(cookie.http_only(), Some(true));
    assert_eq!(cookie.max_age(), Some(cookie::time::Duration::days(3650)));
}

#[test]
fn redirect_of_root_goes_to_main_lapp_cookie() {
    let redirect = query_access_token_redirect("/", "access_token=t", "").unwrap();
    assert_eq!(redirect.location, "/");
    let cookie = cookie::Cookie::parse(redirect.set_cookie.clone()).unwrap();
    assert_eq!(cookie.value(), "t");
    assert_eq!(cookie.path(), Some("/laplace"));
}

#[test]
fn no_redirect_without_token() {
    assert!(query_access_token_redirect("/chat", "a=1", "localhost").is_none());
    assert!(query_access_token_redirect("/chat", "", "localhost").is_none());
}

#[test]
fn cookie_token_is_read() {
    assert_eq!(access_token_from_cookies(&cookies(&["access_token=abc"])), "abc");
    assert_eq!(access_token_from_cookies(&cookies(&["other=1", "access_token=abc"])), "abc");
    assert_eq!(access_token_from_cookies(&cookies(&["other=1"])), "");
    assert_eq!(access_token_from_cookies(&vec![]), "");
    assert_eq!(access_token_from_cookies(&vec![vec![0xff, b'='], b"access_token=z".to_vec()]), "z");
}

#[test]
fn open_paths_pass() {
    let m = manager();
    for path in ["/", "/static/app.js", "/favicon.ico"] {
        assert_eq!(check_access(&m, path, &vec![], "top").unwrap(), Access::Granted);
    }
}

#[test]
fn main_lapp_wants_server_token() {
    let m = manager();
    assert_eq!(check_access(&m, "/laplace", &cookies(&["access_token=top"]), "top").unwrap(), Access::Granted);
    assert_eq!(check_access(&m, "/laplace/x", &cookies(&["access_token=no"]), "top").unwrap(), Access::Forbidden);
    assert_eq!(check_access(&m, "/laplace", &vec![], "top").unwrap(), Access::Forbidden);
}

#[test]
fn lapp_wants_its_own_token() {
    let m = manager();
    assert_eq!(check_access(&m, "/chat", &cookies(&["access_token=secret"]), "top").unwrap(), Access::Granted);
    assert_eq!(check_access(&m, "/chat", &cookies(&["access_token=top"]), "top").unwrap(), Access::Forbidden);
    assert_eq!(check_access(&m, "/notes/a", &vec![], "top").unwrap(), Access::Granted);
    assert_eq!(check_access(&m, "/notes/a", &cookies(&["access_token=x"]), "top").unwrap(), Access::Forbidden);
}

#[test]
fn unknown_lapp_is_not_found() {
    let m = manager();
    match check_access(&m, "/games", &vec![], "top") {
        Err(ServerError::LappNotFound(name)) => assert_eq!(name, "games"),
        other => panic!("unexpected {other:?}"),
    }
}

#[test]
fn certificate_and_key_choice() {
    assert!(needs_self_signed_certificate(false, false));
    assert!(!needs_self_signed_certificate(true, false));
    assert!(!needs_self_signed_certificate(false, true));
    assert_eq!(first_private_key(vec![vec![1], vec![2]]).unwrap(), vec![1]);
    assert_eq!(first_private_key(vec![]), Err(AppError::MissingPrivateKey));
}

#[test]
fn redirected_request_is_not_redirected_again() {
    let redirect = query_access_token_redirect("/chat", "access_token=a&x=1&access_token=b&y", "h").unwrap();
    assert_eq!(redirect.location, "/chat?x=1&y");
    let cookie = cookie::Cookie::parse(redirect.set_cookie.clone()).unwrap();
    assert_eq!(cookie.value(), "b");
    let (_, query) = redirect.location.split_once('?').unwrap();
    assert!(!query_has_access_token(query));
    assert!(query_access_token_redirect("/chat", query, "h").is_none());
}

fn index_then_laplace(m: &LappsManager, token: &str) -> Access {
    assert_eq!(check_access(m, "/", &vec![], token).unwrap(), Access::Granted);
    check_access(m, "/laplace", &vec![], token).unwrap()
}

#[test]
fn http_access() {
    let mut settings = laplace::settings::Settings::default();
    settings.ssl.enabled = false;
    assert!(laplace::urls::root_url(&settings).starts_with("http://"));
    let token = prepare_access_token(settings.http.access_token.clone()).unwrap();
    assert_eq!(index_then_laplace(&manager(), &token), Access::Forbidden);
}

#[test]
fn https_access() {
    let mut settings = laplace::settings::Settings::default();
    settings.ssl.enabled = true;
    assert!(laplace::urls::root_url(&settings).starts_with("https://"));
    let token = prepare_access_token(settings.http.access_token.clone()).unwrap();
    assert_eq!(index_then_laplace(&manager(), &token), Access::Forbidden);
}

#[test]
fn unauthorized_access_denied() {
    let token = prepare_access_token(None).unwrap();
    let m = manager();
    assert_eq!(index_then_laplace(&m, &token), Access::Forbidden);
    assert_eq!(check_access(&m, "/laplace", &vec![], &token).unwrap(), Access::Forbidden);
}

#[test]
fn access_token_cookie_text() {
    let redirect = query_access_token_redirect("/chat/x", "access_token=xyz", "localhost").unwrap();
    assert_eq!(
        redirect.set_cookie,
        "access_token=xyz; HttpOnly; Path=/chat; Domain=localhost; Max-Age=315360000"
    );
    assert_eq!(laplace::auth::access_token_max_age_secs(), 315360000);
    assert!(!generate_token().unwrap().is_empty());
}
