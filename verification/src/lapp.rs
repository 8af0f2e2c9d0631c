//! Lapps: their well-known names, their settings and permissions, and how an
//! update request changes the settings.

use vstd::prelude::*;

use crate::text::str_eq;

verus! {

broadcast use vstd::seq::group_seq_axioms;

// ---------------------------------------------------------------------------
// Names
// ---------------------------------------------------------------------------

/// Name of the main lapp, the Laplace interface itself.
pub fn main_name() -> (r: &'static str)
    ensures
        r@ == "laplace"@,
{
    "laplace"
}

/// Name of a lapp's directory of static files.
pub fn static_dir_name() -> (r: &'static str)
    ensures
        r@ == "static"@,
{
    "static"
}

/// Name of a lapp's index page.
pub fn index_file_name() -> (r: &'static str)
    ensures
        r@ == "index.html"@,
{
    "index.html"
}

/// Name of a lapp's settings file.
pub fn config_file_name() -> (r: &'static str)
    ensures
        r@ == "config.toml"@,
{
    "config.toml"
}

/// Whether `name` names the main lapp.
pub fn is_main(name: &str) -> (r: bool)
    ensures
        r == (name@ == "laplace"@),
{
    str_eq(name, main_name())
}

// ---------------------------------------------------------------------------
// Permissions
// ---------------------------------------------------------------------------

/// What a lapp may be allowed to do.
#[derive(Debug, Clone, Copy, PartialEq, Eq, Structural)]
pub enum Permission {
    FileRead,
    FileWrite,
    ClientHttp,
    Http,
    Websocket,
    Tcp,
    Database,
    Sleep,
}

impl Permission {
    /// The name of the permission in settings files.
    pub fn as_str(&self) -> (r: &'static str)
        ensures
            r@ == match self {
                Permission::FileRead => "file_read"@,
                Permission::FileWrite => "file_write"@,
                Permission::ClientHttp => "client_http"@,
                Permission::Http => "http"@,
                Permission::Websocket => "websocket"@,
                Permission::Tcp => "tcp"@,
                Permission::Database => "database"@,
                Permission::Sleep => "sleep"@,
            },
    {
        match self {
            Permission::FileRead => "file_read",
            Permission::FileWrite => "file_write",
            Permission::ClientHttp => "client_http",
            Permission::Http => "http",
            Permission::Websocket => "websocket",
            Permission::Tcp => "tcp",
            Permission::Database => "database",
            Permission::Sleep => "sleep",
        }
    }
}

/// The granted list after granting `p`: `p` is added at the end where it
/// is not in the list.
pub open spec fn granted_list(l: Seq<Permission>, p: Permission) -> Seq<Permission> {
    if l.contains(p) { l } else { l.push(p) }
}

/// The granted list after withdrawing `p`: every `p` taken out, the rest
/// in order.
pub open spec fn withdrawn_list(l: Seq<Permission>, p: Permission) -> Seq<Permission>
    decreases l.len(),
{
    if l.len() == 0 {
        Seq::empty()
    } else {
        let w = withdrawn_list(l.drop_last(), p);
        if l.last() == p { w } else { w.push(l.last()) }
    }
}

proof fn lemma_withdrawn_contains(l: Seq<Permission>, p: Permission, x: Permission)
    ensures
        withdrawn_list(l, p).contains(x) == (l.contains(x) && x != p),
    decreases l.len(),
{
    if l.len() > 0 {
        let init = l.drop_last();
        lemma_withdrawn_contains(init, p, x);
        let w = withdrawn_list(init, p);
        if l.contains(x) && x != p {
            let k = choose|k: int| 0 <= k < l.len() && l[k] == x;
            if k < l.len() - 1 {
                assert(init[k] == x);
            }
            if l.last() != p {
                assert(w.push(l.last())[w.len() as int] == l.last());
                if w.contains(x) {
                    let j = choose|j: int| 0 <= j < w.len() && w[j] == x;
                    assert(w.push(l.last())[j] == x);
                }
            }
        }
        if withdrawn_list(l, p).contains(x) {
            let r = withdrawn_list(l, p);
            let j = choose|j: int| 0 <= j < r.len() && r[j] == x;
            if l.last() != p && j == w.len() {
                assert(l[l.len() - 1] == x);
            } else {
                assert(w[j] == x);
                let k = choose|k: int| 0 <= k < init.len() && init[k] == x;
                assert(l[k] == x);
            }
        }
    }
}

proof fn lemma_withdrawn_absent(l: Seq<Permission>, p: Permission)
    requires
        !l.contains(p),
    ensures
        withdrawn_list(l, p) == l,
    decreases l.len(),
{
    if l.len() > 0 {
        let init = l.drop_last();
        assert(!init.contains(p)) by {
            if init.contains(p) {
                let k = choose|k: int| 0 <= k < init.len() && init[k] == p;
                assert(l[k] == p);
            }
        }
        lemma_withdrawn_absent(init, p);
        assert(l.last() != p);
        assert(init.push(l.last()) =~= l);
    }
}

/// The permissions a lapp asks for and those it was granted.
pub struct PermissionsSettings {
    pub required: Vec<Permission>,
    pub allowed: Vec<Permission>,
}

impl PermissionsSettings {
    /// The granted permissions.
    pub open spec fn allowed_set(&self) -> Set<Permission> {
        self.allowed@.to_set()
    }

    pub fn is_allowed(&self, permission: Permission) -> (r: bool)
        ensures
            r == self.allowed_set().contains(permission),
    {
        let n = self.allowed.len();
        for i in 0..n
            invariant
                n == self.allowed@.len(),
                forall|j: int| 0 <= j < i ==> self.allowed@[j] != permission,
        {
            if self.allowed[i] == permission {
                assert(self.allowed@.contains(permission));
                return true;
            }
        }
        false
    }

    /// Grants `permission`; `true` where it was not granted before.
    pub fn allow(&mut self, permission: Permission) -> (changed: bool)
        ensures
            changed == !old(self).allowed_set().contains(permission),
            final(self).allowed@ == granted_list(old(self).allowed@, permission),
            final(self).allowed_set() == old(self).allowed_set().insert(permission),
            final(self).required == old(self).required,
    {
        if self.is_allowed(permission) {
            assert(old(self).allowed_set().insert(permission) =~= old(self).allowed_set());
            false
        } else {
            self.allowed.push(permission);
            assert(self.allowed_set() =~= old(self).allowed_set().insert(permission)) by {
                assert forall|p: Permission| self.allowed_set().contains(p) <==> old(self).allowed_set().insert(permission).contains(p) by {
                    if old(self).allowed@.contains(p) {
                        let k = choose|k: int| 0 <= k < old(self).allowed@.len() && old(self).allowed@[k] == p;
                        assert(self.allowed@[k] == p);
                    }
                    if p == permission {
                        assert(self.allowed@[self.allowed@.len() - 1] == p);
                    }
                    if self.allowed@.contains(p) && p != permission {
                        let k = choose|k: int| 0 <= k < self.allowed@.len() && self.allowed@[k] == p;
                        assert(old(self).allowed@[k] == p);
                    }
                }
            }
            true
        }
    }

    /// Withdraws `permission`; `true` where it was granted before.
    pub fn deny(&mut self, permission: Permission) -> (changed: bool)
        ensures
            changed == old(self).allowed_set().contains(permission),
            final(self).allowed@ == withdrawn_list(old(self).allowed@, permission),
            final(self).allowed_set() == old(self).allowed_set().remove(permission),
            final(self).required == old(self).required,
    {
        let was_allowed = self.is_allowed(permission);
        let mut kept: Vec<Permission> = Vec::new();
        let n = self.allowed.len();
        for i in 0..n
            invariant
                n == self.allowed@.len(),
                self.allowed == old(self).allowed,
                kept@ == withdrawn_list(self.allowed@.take(i as int), permission),
                forall|p: Permission| kept@.contains(p) <==> (exists|j: int| 0 <= j < i && self.allowed@[j] == p && p != permission),
        {
            let p = self.allowed[i];
            let ghost old_kept = kept@;
            if p != permission {
                kept.push(p);
            }
            assert(self.allowed@.take(i + 1).drop_last() =~= self.allowed@.take(i as int));
            assert(self.allowed@.take(i + 1).last() == p);
            proof {
                assert forall|q: Permission| kept@.contains(q) <==> (exists|j: int| 0 <= j < i + 1 && self.allowed@[j] == q && q != permission) by {
                    if kept@.contains(q) {
                        let k = choose|k: int| 0 <= k < kept@.len() && kept@[k] == q;
                        if k < old_kept.len() {
                            assert(old_kept[k] == q);
                            assert(old_kept.contains(q));
                            let j = choose|j: int| 0 <= j < i && self.allowed@[j] == q && q != permission;
                            assert(0 <= j < i + 1 && self.allowed@[j] == q && q != permission);
                        } else {
                            assert(q == p && p != permission);
                            assert(self.allowed@[i as int] == q);
                        }
                    }
                    if exists|j: int| 0 <= j < i + 1 && self.allowed@[j] == q && q != permission {
                        let j = choose|j: int| 0 <= j < i + 1 && self.allowed@[j] == q && q != permission;
                        if j == i {
                            assert(kept@[kept@.len() - 1] == q);
                        } else {
                            assert(old_kept.contains(q));
                            let k = choose|k: int| 0 <= k < old_kept.len() && old_kept[k] == q;
                            assert(kept@[k] == q);
                        }
                    }
                }
            }
        }
        assert(self.allowed@.take(n as int) =~= self.allowed@);
        self.allowed = kept;
        assert(self.allowed_set() =~= old(self).allowed_set().remove(permission));
        was_allowed
    }
}

// ---------------------------------------------------------------------------
// Settings
// ---------------------------------------------------------------------------

/// HTTP methods a lapp may use for outgoing requests.
#[derive(Debug, Clone, Copy, PartialEq, Eq, Structural)]
pub enum HttpMethod {
    Get,
    Post,
}

/// Which outgoing HTTP methods are allowed.
pub enum HttpMethods {
    All,
    List(Vec<HttpMethod>),
}

/// Which hosts outgoing HTTP requests may go to.
pub enum HttpHosts {
    All,
    List(Vec<String>),
}

/// Limits on a lapp's outgoing HTTP requests.
pub struct LappHttpSettings {
    pub methods: HttpMethods,
    pub hosts: HttpHosts,
    pub timeout_ms: u64,
}

/// Where a lapp's peer-to-peer service listens and which ports it dials.
pub struct GossipsubSettings {
    pub addr: String,
    pub dial_ports: Vec<u16>,
}

pub struct NetworkSettings {
    pub http: LappHttpSettings,
    pub gossipsub: GossipsubSettings,
}

/// How a lapp presents itself and starts.
pub struct ApplicationSettings {
    pub title: String,
    pub enabled: bool,
    pub autoload: bool,
    pub access_token: Option<String>,
    pub additional_static_dirs: Vec<String>,
}

/// The settings of one lapp.
pub struct LappSettings {
    pub lapp_name: String,
    pub application: ApplicationSettings,
    pub permissions: PermissionsSettings,
    pub network: NetworkSettings,
    pub database_path: String,
    pub data_dir: String,
}

impl LappSettings {
    pub fn name(&self) -> (r: &str)
        ensures
            r@ == self.lapp_name@,
    {
        self.lapp_name.as_str()
    }

    pub fn enabled(&self) -> (r: bool)
        ensures
            r == self.application.enabled,
    {
        self.application.enabled
    }

    pub fn set_enabled(&mut self, enabled: bool)
        ensures
            final(self).application.enabled == enabled,
            final(self).application.title == old(self).application.title,
            final(self).application.autoload == old(self).application.autoload,
            final(self).application.access_token == old(self).application.access_token,
            final(self).application.additional_static_dirs == old(self).application.additional_static_dirs,
            final(self).lapp_name == old(self).lapp_name,
            final(self).permissions == old(self).permissions,
            final(self).network == old(self).network,
            final(self).database_path == old(self).database_path,
            final(self).data_dir == old(self).data_dir,
    {
        self.application.enabled = enabled;
    }

    /// Whether the lapp is started together with the server.
    pub fn is_lapp_startup_active(&self) -> (r: bool)
        ensures
            r == (self.application.enabled && self.application.autoload),
    {
        self.application.enabled && self.application.autoload
    }
}

// ---------------------------------------------------------------------------
// Updates
// ---------------------------------------------------------------------------

/// A change of a lapp's settings asked for by the interface.
pub struct UpdateQuery {
    pub lapp_name: String,
    pub enabled: Option<bool>,
    pub allow_permission: Option<Permission>,
    pub deny_permission: Option<Permission>,
}

impl UpdateQuery {
    pub open spec fn is_applied_spec(&self) -> bool {
        self.enabled is Some || self.allow_permission is Some || self.deny_permission is Some
    }

    /// Whether the query asks for (or reports) any change.
    pub fn is_applied(&self) -> (r: bool)
        ensures
            r == self.is_applied_spec(),
    {
        self.enabled.is_some() || self.allow_permission.is_some() || self.deny_permission.is_some()
    }
}

/// The part of a lapp's settings that an update changes.
pub struct UpdateState {
    pub enabled: bool,
    pub allowed: Set<Permission>,
}

/// What an update asks for or reports.
pub struct UpdateChange {
    pub enabled: Option<bool>,
    pub allow: Option<Permission>,
    pub deny: Option<Permission>,
}

pub open spec fn change_of(q: &UpdateQuery) -> UpdateChange {
    UpdateChange { enabled: q.enabled, allow: q.allow_permission, deny: q.deny_permission }
}

pub open spec fn state_of(s: &LappSettings) -> UpdateState {
    UpdateState { enabled: s.application.enabled, allowed: s.permissions.allowed_set() }
}

/// The settings after an update and the changes that really took place: a
/// new enabled flag counts where it differs, then the granted permission
/// where it was not granted, then the withdrawn one where it was granted.
pub open spec fn update_effect(s: UpdateState, q: UpdateChange) -> (UpdateState, UpdateChange) {
    let enabled = match q.enabled {
        Some(e) => e,
        None => s.enabled,
    };
    let reported_enabled = match q.enabled {
        Some(e) => if e != s.enabled {
            Some(e)
        } else {
            None
        },
        None => None,
    };
    let after_allow = match q.allow {
        Some(p) => s.allowed.insert(p),
        None => s.allowed,
    };
    let reported_allow = match q.allow {
        Some(p) => if !s.allowed.contains(p) {
            Some(p)
        } else {
            None
        },
        None => None,
    };
    let after_deny = match q.deny {
        Some(p) => after_allow.remove(p),
        None => after_allow,
    };
    let reported_deny = match q.deny {
        Some(p) => if after_allow.contains(p) {
            Some(p)
        } else {
            None
        },
        None => None,
    };
    (
        UpdateState { enabled, allowed: after_deny },
        UpdateChange { enabled: reported_enabled, allow: reported_allow, deny: reported_deny },
    )
}

impl LappSettings {
    /// Applies `query` and gives back the changes that took place; writing
    /// the settings file is left to the caller.
    pub fn update(&mut self, query: UpdateQuery) -> (updated: UpdateQuery)
        ensures
            (state_of(final(self)), change_of(&updated)) == update_effect(state_of(old(self)), change_of(&query)),
            final(self).permissions.allowed@ == updated_list(old(self).permissions.allowed@, change_of(&query)),
            updated.lapp_name == query.lapp_name,
            final(self).lapp_name == old(self).lapp_name,
            final(self).application.title == old(self).application.title,
            final(self).application.autoload == old(self).application.autoload,
            final(self).application.access_token == old(self).application.access_token,
            final(self).application.additional_static_dirs == old(self).application.additional_static_dirs,
            final(self).permissions.required == old(self).permissions.required,
            final(self).network == old(self).network,
            final(self).database_path == old(self).database_path,
            final(self).data_dir == old(self).data_dir,
    {
        let ghost asked = change_of(&query);
        let mut query = query;
        if let Some(enabled) = query.enabled {
            if self.enabled() != enabled {
                self.set_enabled(enabled);
            } else {
                query.enabled = None;
            }
        }
        let ghost after_allow = self.permissions.allowed_set();
        if let Some(permission) = query.allow_permission {
            if !self.permissions.allow(permission) {
                query.allow_permission = None;
            }
        }
        let ghost mid = self.permissions.allowed_set();
        if let Some(permission) = query.deny_permission {
            if !self.permissions.deny(permission) {
                query.deny_permission = None;
            }
        }
        assert(state_of(self).allowed =~= update_effect(state_of(old(self)), asked).0.allowed);
        query
    }
}

/// The granted list after an update: first the grant, then the withdrawal.
pub open spec fn updated_list(l: Seq<Permission>, q: UpdateChange) -> Seq<Permission> {
    let a = match q.allow {
        Some(p) => granted_list(l, p),
        None => l,
    };
    match q.deny {
        Some(p) => withdrawn_list(a, p),
        None => a,
    }
}

/// Asking a second time for the same update leaves the granted list as the
/// first update left it, unless it grants and withdraws the same
/// permission; with the enabled flag (`lemma_update_idempotent`) and the
/// other fields, which no update touches, the settings are unchanged.
pub proof fn lemma_updated_list_idempotent(l: Seq<Permission>, q: UpdateChange)
    requires
        !(q.allow is Some && q.deny is Some && q.allow == q.deny),
    ensures
        updated_list(updated_list(l, q), q) == updated_list(l, q),
{
    let l1 = updated_list(l, q);
    let a = match q.allow {
        Some(p) => granted_list(l, p),
        None => l,
    };
    match q.allow {
        Some(p) => {
            assert(a.contains(p)) by {
                if !l.contains(p) {
                    assert(l.push(p)[l.len() as int] == p);
                }
            }
            match q.deny {
                Some(d) => lemma_withdrawn_contains(a, d, p),
                None => {},
            }
            assert(l1.contains(p));
        },
        None => {},
    }
    let a2 = match q.allow {
        Some(p) => granted_list(l1, p),
        None => l1,
    };
    assert(a2 == l1);
    match q.deny {
        Some(d) => {
            lemma_withdrawn_contains(a, d, d);
            lemma_withdrawn_absent(l1, d);
        },
        None => {},
    }
}

/// Asking a second time for the same update changes nothing more and
/// reports no change, unless it grants and withdraws the same permission.
pub proof fn lemma_update_idempotent(s: UpdateState, q: UpdateChange)
    requires
        !(q.allow is Some && q.deny is Some && q.allow == q.deny),
    ensures
        ({
            let (s1, _) = update_effect(s, q);
            let (s2, r2) = update_effect(s1, q);
            &&& s2.enabled == s1.enabled
            &&& s2.allowed == s1.allowed
            &&& r2.enabled is None
            &&& r2.allow is None
            &&& r2.deny is None
        }),
{
    let (s1, _) = update_effect(s, q);
    let (s2, r2) = update_effect(s1, q);
    assert(s2.allowed =~= s1.allowed);
}

/// An update reports a change exactly where the settings changed, unless it
/// grants and withdraws the same permission.
pub proof fn lemma_update_reports_changes(s: UpdateState, q: UpdateChange)
    requires
        !(q.allow is Some && q.deny is Some && q.allow == q.deny),
    ensures
        ({
            let (s1, r) = update_effect(s, q);
            &&& (r.enabled is Some <==> s1.enabled != s.enabled)
            &&& (r.enabled is Some ==> r.enabled == Some(s1.enabled))
            &&& (r.allow matches Some(p) ==> !s.allowed.contains(p) && s1.allowed.contains(p))
            &&& (r.deny matches Some(p) ==> !s1.allowed.contains(p))
            &&& ((r.allow is Some || r.deny is Some) <==> s1.allowed != s.allowed)
        }),
{
    let (s1, r) = update_effect(s, q);
    if r.allow is None && r.deny is None {
        assert(s1.allowed =~= s.allowed);
    }
    if let Some(p) = r.allow {
        assert(!s.allowed.contains(p) && s1.allowed.contains(p));
    }
    if let Some(p) = r.deny {
        if q.allow is None || q.allow != Some(p) {
            assert(s.allowed.contains(p));
        }
        assert(s.allowed.contains(p) || q.allow == Some(p));
        assert(!s1.allowed.contains(p));
        if q.allow == Some(p) {
            assert(false);
        }
    }
}

} // verus!
