use std::path::Path;

use laplace::error::ServerError;
use laplace::instance::{data_dir_path, database_path, instance_plan, DirAccess};
use laplace::lapp::{
    config_file_name, index_file_name, is_main, main_name, static_dir_name, ApplicationSettings, GossipsubSettings,
    HttpHosts, HttpMethods, LappHttpSettings, LappSettings, NetworkSettings, Permission, PermissionsSettings,
    UpdateQuery,
};
use laplace::manager::{lapp_to_load, LappsManager};
use laplace::paths::{
    check_new_lapp_dir, index_file, lapp_name_from_file_name, pick_static_file, server_module_file, settings_path,
    static_dir, static_file_candidates,
};
use laplace::settings::LappsSettings;

fn lapp(name: &str) -> LappSettings {
    LappSettings {
        lapp_name: name.to_string(),
        application: ApplicationSettings {
            title: name.to_string(),
            enabled: true,
            autoload: false,
            access_token: None,
            additional_static_dirs: vec![],
        },
        permissions: PermissionsSettings { required: vec![], allowed: vec![] },
        network: NetworkSettings {
            http: LappHttpSettings { methods: HttpMethods::All, hosts: HttpHosts::All, timeout_ms: 0 },
            gossipsub: GossipsubSettings { addr: "/ip4/0.0.0.0/tcp/0".to_string(), dial_ports: vec![] },
        },
        database_path: "data.db".to_string(),
        data_dir: "data".to_string(),
    }
}

fn query(name: &str, enabled: Option<bool>, allow: Option<Permission>, deny: Option<Permission>) -> UpdateQuery {
    UpdateQuery { lapp_name: name.to_string(), enabled, allow_permission: allow, deny_permission: deny }
}

fn joined(a: &str, b: &str) -> String {
    Path::new(a).join(b).to_string_lossy().into_owned()
}

#[test]
fn lapp_names_and_files() {
    assert_eq!(main_name(), "laplace");
    assert_eq!(static_dir_name(), "static");
    assert_eq!(index_file_name(), "index.html");
    assert_eq!(config_file_name(), "config.toml");
    assert!(is_main("laplace"));
    assert!(!is_main("laplace2"));
    assert!(!is_main(""));
}

#[test]
fn permission_names() {
    let all = [
        (Permission::FileRead, "file_read"),
        (Permission::FileWrite, "file_write"),
        (Permission::ClientHttp, "client_http"),
        (Permission::Http, "http"),
        (Permission::Websocket, "websocket"),
        (Permission::Tcp, "tcp"),
        (Permission::Database, "database"),
        (Permission::Sleep, "sleep"),
    ];
    for (permission, name) in all {
        assert_eq!(permission.as_str(), name);
    }
}

#[test]
fn allow_and_deny_report_changes() {
    let mut perms = PermissionsSettings { required: vec![Permission::Http], allowed: vec![] };
    assert!(!perms.is_allowed(Permission::Http));
    assert!(perms.allow(Permission::Http));
    assert!(perms.is_allowed(Permission::Http));
    assert!(!perms.allow(Permission::Http));
    assert!(perms.deny(Permission::Http));
    assert!(!perms.is_allowed(Permission::Http));
    assert!(!perms.deny(Permission::Http));
    assert_eq!(perms.required, vec![Permission::Http]);
}

#[test]
fn update_reports_only_real_changes() {
    let mut s = lapp("chat");
    let updated = s.update(query("chat", Some(false), Some(Permission::Tcp), Some(Permission::Sleep)));
    assert!(!s.enabled());
    assert!(s.permissions.is_allowed(Permission::Tcp));
    assert_eq!(updated.enabled, Some(false));
    assert_eq!(updated.allow_permission, Some(Permission::Tcp));
    assert_eq!(updated.deny_permission, None);
    assert!(updated.is_applied());
}

#[test]
fn same_update_twice_reports_nothing() {
    let mut s = lapp("chat");
    let first = s.update(query("chat", Some(false), Some(Permission::Http), None));
    assert!(first.is_applied());
    let second = s.update(query("chat", Some(false), Some(Permission::Http), None));
    assert!(!second.is_applied());
    assert!(!s.enabled());
    assert!(s.permissions.is_allowed(Permission::Http));
}

#[test]
fn update_allowing_and_denying_same_permission() {
    let mut s = lapp("chat");
    let updated = s.update(query("chat", None, Some(Permission::Http), Some(Permission::Http)));
    assert_eq!(updated.allow_permission, Some(Permission::Http));
    assert_eq!(updated.deny_permission, Some(Permission::Http));
    assert!(!s.permissions.is_allowed(Permission::Http));
}

#[test]
fn manager_inserts_and_finds() {
    let mut m = LappsManager::new("lapps".to_string());
    assert_eq!(m.lapps_path(), "lapps");
    assert!(matches!(m.lapp_settings("chat"), Err(ServerError::LappNotFound(n)) if n == "chat"));
    m.insert_lapp_settings(lapp("chat"));
    let mut other = lapp("chat");
    other.application.title = "Chat".to_string();
    m.insert_lapp_settings(other);
    assert_eq!(m.lapp_settings_iter().len(), 1);
    assert_eq!(m.lapp_settings("chat").unwrap().application.title, "Chat");
    assert_eq!(m.lapp_dir("chat"), joined("lapps", "chat"));
}

#[test]
fn manager_checks_before_use() {
    let mut m = LappsManager::new("lapps".to_string());
    let mut chat = lapp("chat");
    chat.permissions.allowed = vec![Permission::ClientHttp];
    m.insert_lapp_settings(chat);
    let mut off = lapp("off");
    off.application.enabled = false;
    m.insert_lapp_settings(off);

    assert!(m.check_client_http("chat").is_ok());
    assert!(matches!(
        m.check_websocket("chat"),
        Err(ServerError::LappPermissionDenied(n, Permission::Websocket)) if n == "chat"
    ));
    assert!(matches!(
        m.check_gossipsub("chat"),
        Err(ServerError::LappPermissionDenied(n, Permission::Tcp)) if n == "chat"
    ));
    assert!(matches!(m.check_client_http("off"), Err(ServerError::LappNotEnabled(n)) if n == "off"));
    assert!(matches!(m.check_client_http("none"), Err(ServerError::LappNotFound(n)) if n == "none"));
    assert!(m.check_enabled_and_allow_permissions("chat", &[]).is_ok());
}

#[test]
fn manager_update_and_restart() {
    let mut m = LappsManager::new("lapps".to_string());
    m.insert_lapp_settings(lapp("chat"));
    let (updated, restart) = m.update_lapp_settings(query("chat", None, Some(Permission::Http), None), true).unwrap();
    assert_eq!(updated.allow_permission, Some(Permission::Http));
    assert!(restart);
    let (updated, restart) = m.update_lapp_settings(query("chat", None, Some(Permission::Http), None), true).unwrap();
    assert!(!updated.is_applied());
    assert!(!restart);
    let (_, restart) = m.update_lapp_settings(query("chat", Some(false), None, None), true).unwrap();
    assert!(!restart);
    let (_, restart) = m.update_lapp_settings(query("chat", Some(true), None, None), false).unwrap();
    assert!(!restart);
    assert!(matches!(
        m.update_lapp_settings(query("none", Some(true), None, None), true),
        Err(ServerError::LappNotFound(n)) if n == "none"
    ));
}

#[test]
fn manager_service_start() {
    let mut m = LappsManager::new("lapps".to_string());
    m.insert_lapp_settings(lapp("chat"));
    assert!(m.service_start_needed("chat", false).unwrap());
    assert!(!m.service_start_needed("chat", true).unwrap());
    assert!(m.service_start_needed("none", false).is_err());
}

#[test]
fn autoload_keeps_order_of_active_lapps() {
    let mut m = LappsManager::new("lapps".to_string());
    for (name, enabled, autoload) in [("b", true, true), ("a", true, false), ("c", false, true), ("d", true, true)] {
        let mut s = lapp(name);
        s.application.enabled = enabled;
        s.application.autoload = autoload;
        m.insert_lapp_settings(s);
    }
    let names: Vec<&str> = m.autoload_lapps().iter().map(|s| s.name()).collect();
    assert_eq!(names, vec!["b", "d"]);
}

#[test]
fn listed_lapps_sorted_without_main() {
    let mut m = LappsManager::new("lapps".to_string());
    for name in ["notes", "laplace", "chat", "Zed", "calc"] {
        m.insert_lapp_settings(lapp(name));
    }
    let names: Vec<&str> = m.listed_lapps().iter().map(|s| s.name()).collect();
    assert_eq!(names, vec!["Zed", "calc", "chat", "notes"]);
}

#[test]
fn lapps_to_load_from_directory() {
    let all = LappsSettings { path: "lapps".to_string(), allowed: None };
    assert!(lapp_to_load(&all, "chat"));
    assert!(!lapp_to_load(&all, "laplace"));
    let some = LappsSettings { path: "lapps".to_string(), allowed: Some(vec!["chat".to_string(), "laplace".to_string()]) };
    assert!(lapp_to_load(&some, "chat"));
    assert!(!lapp_to_load(&some, "notes"));
    assert!(!lapp_to_load(&some, "laplace"));
    assert!(some.is_lapp_allowed("laplace"));
    assert!(!some.is_lapp_allowed("notes"));
}

#[test]
fn lapp_paths() {
    assert_eq!(static_dir("lapps/chat"), joined("lapps/chat", "static"));
    assert_eq!(index_file("lapps/chat"), joined(&joined("lapps/chat", "static"), "index.html"));
    assert_eq!(settings_path("lapps/chat"), joined("lapps/chat", "config.toml"));
    assert_eq!(server_module_file("lapps/chat", "chat"), joined("lapps/chat", "chat_server.wasm"));
}

#[test]
fn static_files_are_looked_up_in_order() {
    let candidates = static_file_candidates("lapps/chat", "app.js", &vec!["assets".to_string(), "img".to_string()]);
    assert_eq!(
        candidates,
        vec![
            joined(&joined("lapps/chat", "static"), "app.js"),
            joined(&joined("lapps/chat", "assets"), "app.js"),
            joined(&joined("lapps/chat", "img"), "app.js"),
        ]
    );
    assert_eq!(pick_static_file(&vec![false, true, true]), 1);
    assert_eq!(pick_static_file(&vec![false, false]), 0);
    assert_eq!(pick_static_file(&vec![true]), 0);
}

#[test]
fn archive_names() {
    assert_eq!(lapp_name_from_file_name("chat.zip"), "chat");
    assert_eq!(lapp_name_from_file_name("chat.lar"), "chat");
    assert_eq!(lapp_name_from_file_name("chat.tar"), "chat.tar");
    assert_eq!(lapp_name_from_file_name(".zip"), "");
    assert_eq!(lapp_name_from_file_name("zip"), "zip");
}

#[test]
fn new_lapp_directory_check() {
    assert!(check_new_lapp_dir(false, false, false, "lapps/chat".to_string(), "chat").is_ok());
    assert!(check_new_lapp_dir(true, true, false, "lapps/chat".to_string(), "chat").is_ok());
    assert!(matches!(
        check_new_lapp_dir(true, false, false, "lapps/chat".to_string(), "chat"),
        Err(ServerError::WrongLappDirectory(d)) if d == "lapps/chat"
    ));
    assert!(matches!(
        check_new_lapp_dir(true, true, true, "lapps/chat".to_string(), "chat"),
        Err(ServerError::LappAlreadyExists(n)) if n == "chat"
    ));
}

#[test]
fn instance_plan_follows_permissions() {
    let mut s = lapp("chat");
    s.permissions.required = vec![Permission::FileRead, Permission::Database];
    s.permissions.allowed = vec![Permission::FileRead, Permission::Database, Permission::Sleep];
    let plan = instance_plan(&s, "lapps/chat", false, false, true);
    assert_eq!(plan.module_file, joined("lapps/chat", "chat_server.wasm"));
    assert_eq!(plan.data_dir, joined("lapps/chat", "data"));
    assert!(plan.create_data_dir);
    assert_eq!(plan.preopen, Some(DirAccess { read: true, write: false }));
    assert_eq!(plan.database, Some(joined("lapps/chat", "data.db")));
    assert!(!plan.http);
    assert!(plan.sleep);
}

#[test]
fn instance_plan_without_files() {
    let mut s = lapp("chat");
    s.data_dir = "/var/chat".to_string();
    s.database_path = "/var/chat.db".to_string();
    s.permissions.allowed = vec![Permission::FileWrite, Permission::Http];
    let plan = instance_plan(&s, "lapps/chat", true, true, false);
    assert_eq!(plan.data_dir, "/var/chat");
    assert!(!plan.create_data_dir);
    assert_eq!(plan.preopen, None);
    assert_eq!(plan.database, None);
    assert!(plan.http);
    assert!(!plan.sleep);
    assert_eq!(data_dir_path(&s, "lapps/chat", false), joined("lapps/chat", "/var/chat"));
    assert_eq!(database_path(&s, "lapps/chat", false), "/var/chat.db");
}

#[test]
fn granted_list_keeps_order() {
    let mut perms = PermissionsSettings { required: vec![], allowed: vec![Permission::Tcp, Permission::Http, Permission::Tcp] };
    assert!(!perms.allow(Permission::Http));
    assert_eq!(perms.allowed, vec![Permission::Tcp, Permission::Http, Permission::Tcp]);
    assert!(perms.allow(Permission::Sleep));
    assert_eq!(perms.allowed, vec![Permission::Tcp, Permission::Http, Permission::Tcp, Permission::Sleep]);
    assert!(perms.deny(Permission::Tcp));
    assert_eq!(perms.allowed, vec![Permission::Http, Permission::Sleep]);
}

#[test]
fn repeated_update_leaves_settings_unchanged() {
    let mut s = lapp("chat");
    s.permissions.allowed = vec![Permission::Sleep, Permission::Tcp];
    s.update(query("chat", Some(false), Some(Permission::Http), Some(Permission::Tcp)));
    let after_first = (s.enabled(), s.permissions.allowed.clone());
    let second = s.update(query("chat", Some(false), Some(Permission::Http), Some(Permission::Tcp)));
    assert!(!second.is_applied());
    assert_eq!((s.enabled(), s.permissions.allowed.clone()), after_first);
    assert_eq!(s.permissions.allowed, vec![Permission::Sleep, Permission::Http]);
}
