//! The settings of the known lapps and the checks made before a lapp is used.

use vstd::prelude::*;

use crate::error::ServerError;
use crate::lapp::{LappSettings, Permission, UpdateQuery, update_effect, updated_list, state_of, change_of};
use crate::lapp::is_main;
use crate::settings::LappsSettings;
use crate::order::{bytes_less, bytes_lt, lemma_bytes_lt_total, lemma_bytes_lt_transitive};
use crate::text::str_eq;
use vstd::utf8::{encode_utf8, encode_utf8_decode_utf8};

verus! {

broadcast use vstd::seq::group_seq_axioms;

/// The settings of the lapps found in the lapps directory, one per name.
pub struct LappsManager {
    lapp_settings: Vec<LappSettings>,
    lapps_path: String,
}

impl LappsManager {
    /// The settings held, in the order they were added.
    pub closed spec fn entries(&self) -> Seq<LappSettings> {
        self.lapp_settings@
    }

    pub closed spec fn path(&self) -> Seq<char> {
        self.lapps_path@
    }

    /// No two entries share a name.
    pub open spec fn wf(&self) -> bool {
        forall|i: int, j: int|
            0 <= i < self.entries().len() && 0 <= j < self.entries().len() && i != j
                ==> (#[trigger] self.entries()[i]).lapp_name@ != (#[trigger] self.entries()[j]).lapp_name@
    }

    pub open spec fn has_lapp(&self, name: Seq<char>) -> bool {
        exists|i: int| 0 <= i < self.entries().len() && (#[trigger] self.entries()[i]).lapp_name@ == name
    }

    pub open spec fn index_of(&self, name: Seq<char>) -> int {
        choose|i: int| 0 <= i < self.entries().len() && (#[trigger] self.entries()[i]).lapp_name@ == name
    }

    /// The settings of the lapp called `name`, where there is one.
    pub open spec fn settings_of(&self, name: Seq<char>) -> LappSettings {
        self.entries()[self.index_of(name)]
    }

    /// An empty set of lapps kept in `lapps_path`.
    pub fn new(lapps_path: String) -> (m: Self)
        ensures
            m.wf(),
            m.entries().len() == 0,
            m.path() == lapps_path@,
    {
        LappsManager { lapp_settings: Vec::new(), lapps_path }
    }

    pub fn lapps_path(&self) -> (r: &str)
        ensures
            r@ == self.path(),
    {
        self.lapps_path.as_str()
    }

    /// The settings held, in the order they were added.
    pub fn lapp_settings_iter(&self) -> (r: &Vec<LappSettings>)
        ensures
            r@ == self.entries(),
    {
        &self.lapp_settings
    }

    /// Position of the lapp called `name`.
    fn find(&self, name: &str) -> (r: Option<usize>)
        requires
            self.wf(),
        ensures
            match r {
                Some(i) => i < self.entries().len() && self.entries()[i as int].lapp_name@ == name@
                    && self.has_lapp(name@) && self.index_of(name@) == i,
                None => !self.has_lapp(name@),
            },
    {
        let n = self.lapp_settings.len();
        for i in 0..n
            invariant
                n == self.entries().len(),
                self.wf(),
                forall|j: int| 0 <= j < i ==> (#[trigger] self.entries()[j]).lapp_name@ != name@,
        {
            if str_eq(self.lapp_settings[i].lapp_name.as_str(), name) {
                proof {
                    assert(self.entries()[i as int].lapp_name@ == name@);
                    let k = self.index_of(name@);
                    assert(self.entries()[k].lapp_name@ == name@);
                }
                return Some(i);
            }
        }
        None
    }

    /// The settings of the lapp called `name`; `LappNotFound` where there is none.
    pub fn lapp_settings(&self, name: &str) -> (r: Result<&LappSettings, ServerError>)
        requires
            self.wf(),
        ensures
            match r {
                Ok(s) => self.has_lapp(name@) && *s == self.settings_of(name@),
                Err(e) => !self.has_lapp(name@) && (e matches ServerError::LappNotFound(n) && n@ == name@),
            },
    {
        match self.find(name) {
            Some(i) => Ok(&self.lapp_settings[i]),
            None => Err(ServerError::LappNotFound(name.to_owned())),
        }
    }

    /// Adds the settings of a lapp, in place of those held under its name.
    pub fn insert_lapp_settings(&mut self, settings: LappSettings)
        requires
            old(self).wf(),
        ensures
            final(self).wf(),
            final(self).path() == old(self).path(),
            final(self).has_lapp(settings.lapp_name@),
            final(self).settings_of(settings.lapp_name@) == settings,
            forall|name: Seq<char>| name != settings.lapp_name@ ==> (final(self).has_lapp(name) == old(self).has_lapp(name)),
            forall|name: Seq<char>| name != settings.lapp_name@ && old(self).has_lapp(name)
                ==> final(self).settings_of(name) == old(self).settings_of(name),
    {
        let ghost key = settings.lapp_name@;
        match self.find(settings.lapp_name.as_str()) {
            Some(i) => {
                self.lapp_settings.remove(i);
                self.lapp_settings.insert(i, settings);
                assert(self.entries() =~= old(self).entries().update(i as int, settings));
                assert forall|name: Seq<char>| name != key implies (self.has_lapp(name) == old(self).has_lapp(name)) by {
                    if old(self).has_lapp(name) {
                        let k = old(self).index_of(name);
                        assert(self.entries()[k] == old(self).entries()[k]);
                    }
                    if self.has_lapp(name) {
                        let k = self.index_of(name);
                        assert(self.entries()[k] == old(self).entries()[k]);
                    }
                }
                assert forall|name: Seq<char>| name != key && old(self).has_lapp(name)
                    implies self.settings_of(name) == old(self).settings_of(name) by {
                    let k = old(self).index_of(name);
                    let k2 = self.index_of(name);
                    assert(self.entries()[k] == old(self).entries()[k]);
                    assert(self.entries()[k2].lapp_name@ == name);
                }
                assert(self.entries()[i as int].lapp_name@ == key);
                proof {
                    let k = self.index_of(key);
                    assert(self.entries()[k].lapp_name@ == key);
                }
            },
            None => {
                self.lapp_settings.push(settings);
                let ghost last: int = self.entries().len() - 1;
                assert(self.entries()[last].lapp_name@ == key);
                assert forall|name: Seq<char>| name != key implies (self.has_lapp(name) == old(self).has_lapp(name)) by {
                    if old(self).has_lapp(name) {
                        let k = old(self).index_of(name);
                        assert(self.entries()[k] == old(self).entries()[k]);
                    }
                    if self.has_lapp(name) {
                        let k = self.index_of(name);
                        assert(k != last);
                        assert(self.entries()[k] == old(self).entries()[k]);
                    }
                }
                assert forall|name: Seq<char>| name != key && old(self).has_lapp(name)
                    implies self.settings_of(name) == old(self).settings_of(name) by {
                    let k = old(self).index_of(name);
                    let k2 = self.index_of(name);
                    assert(self.entries()[k] == old(self).entries()[k]);
                    assert(self.entries()[k2].lapp_name@ == name);
                }
                proof {
                    let k = self.index_of(key);
                    assert(self.entries()[k].lapp_name@ == key);
                }
            },
        }
    }

    /// Whether `name` is known, enabled and granted every permission in
    /// `permissions`; the first failing check gives the error.
    pub fn check_enabled_and_allow_permissions(&self, name: &str, permissions: &[Permission]) -> (r: Result<(), ServerError>)
        requires
            self.wf(),
        ensures
            match r {
                Ok(()) => self.has_lapp(name@) && self.settings_of(name@).application.enabled
                    && forall|i: int| 0 <= i < permissions@.len()
                        ==> self.settings_of(name@).permissions.allowed_set().contains(#[trigger] permissions@[i]),
                Err(ServerError::LappNotFound(n)) => n@ == name@ && !self.has_lapp(name@),
                Err(ServerError::LappNotEnabled(n)) => n@ == name@ && self.has_lapp(name@)
                    && !self.settings_of(name@).application.enabled,
                Err(ServerError::LappPermissionDenied(n, p)) => n@ == name@ && self.has_lapp(name@)
                    && self.settings_of(name@).application.enabled
                    && exists|k: int| 0 <= k < permissions@.len() && permissions@[k] == p
                        && !self.settings_of(name@).permissions.allowed_set().contains(p)
                        && forall|i: int| 0 <= i < k
                            ==> self.settings_of(name@).permissions.allowed_set().contains(#[trigger] permissions@[i]),
                Err(_) => false,
            },
    {
        let settings = self.lapp_settings(name)?;
        if !settings.enabled() {
            return Err(ServerError::LappNotEnabled(name.to_owned()));
        }
        let n = permissions.len();
        for i in 0..n
            invariant
                n == permissions@.len(),
                *settings == self.settings_of(name@),
                self.has_lapp(name@),
                settings.application.enabled,
                forall|j: int| 0 <= j < i ==> settings.permissions.allowed_set().contains(#[trigger] permissions@[j]),
        {
            let permission = permissions[i];
            if !settings.permissions.is_allowed(permission) {
                assert(permissions@[i as int] == permission);
                assert(0 <= i < permissions@.len() && permissions@[i as int] == permission
                    && !self.settings_of(name@).permissions.allowed_set().contains(permission)
                    && forall|j: int| 0 <= j < i
                        ==> self.settings_of(name@).permissions.allowed_set().contains(#[trigger] permissions@[j]));
                return Err(ServerError::LappPermissionDenied(name.to_owned(), permission));
            }
        }
        Ok(())
    }

    /// Applies `query` to the settings of the lapp it names. Gives the
    /// changes that took place and whether the lapp's service, running as
    /// `service_running` says, has to be started again.
    pub fn update_lapp_settings(&mut self, query: UpdateQuery, service_running: bool) -> (r: Result<(UpdateQuery, bool), ServerError>)
        requires
            old(self).wf(),
        ensures
            final(self).wf(),
            final(self).path() == old(self).path(),
            match r {
                Ok((updated, restart)) => {
                    let name = query.lapp_name@;
                    let before = old(self).settings_of(name);
                    let after = final(self).settings_of(name);
                    &&& old(self).has_lapp(name)
                    &&& final(self).has_lapp(name)
                    &&& (state_of(&after), change_of(&updated)) == update_effect(state_of(&before), change_of(&query))
                    &&& after.permissions.allowed@ == updated_list(before.permissions.allowed@, change_of(&query))
                    &&& updated.lapp_name == query.lapp_name
                    &&& after.lapp_name == before.lapp_name
                    &&& after.application.title == before.application.title
                    &&& after.application.autoload == before.application.autoload
                    &&& after.application.access_token == before.application.access_token
                    &&& after.application.additional_static_dirs == before.application.additional_static_dirs
                    &&& after.permissions.required == before.permissions.required
                    &&& after.network == before.network
                    &&& after.database_path == before.database_path
                    &&& after.data_dir == before.data_dir
                    &&& restart == (updated.is_applied_spec() && service_running && after.application.enabled)
                    &&& forall|other: Seq<char>| other != name ==> (final(self).has_lapp(other) == old(self).has_lapp(other))
                    &&& forall|other: Seq<char>| other != name && old(self).has_lapp(other)
                        ==> final(self).settings_of(other) == old(self).settings_of(other)
                },
                Err(e) => !old(self).has_lapp(query.lapp_name@) && *final(self) == *old(self)
                    && (e matches ServerError::LappNotFound(n) && n@ == query.lapp_name@),
            },
    {
        let i = match self.find(query.lapp_name.as_str()) {
            Some(i) => i,
            None => return Err(ServerError::LappNotFound(query.lapp_name)),
        };
        let mut settings = self.lapp_settings.remove(i);
        let ghost before = settings;
        let updated = settings.update(query);
        let enabled = settings.enabled();
        self.lapp_settings.insert(i, settings);
        let ghost key = before.lapp_name@;
        assert(self.entries() =~= old(self).entries().update(i as int, settings));
        assert(self.entries()[i as int].lapp_name@ == key);
        proof {
            let k = self.index_of(key);
            assert(self.entries()[k].lapp_name@ == key);
            assert forall|name: Seq<char>| name != key implies (self.has_lapp(name) == old(self).has_lapp(name)) by {
                if old(self).has_lapp(name) {
                    let k = old(self).index_of(name);
                    assert(self.entries()[k] == old(self).entries()[k]);
                }
                if self.has_lapp(name) {
                    let k = self.index_of(name);
                    assert(self.entries()[k] == old(self).entries()[k]);
                }
            }
            assert forall|name: Seq<char>| name != key && old(self).has_lapp(name)
                implies self.settings_of(name) == old(self).settings_of(name) by {
                let k = old(self).index_of(name);
                let k2 = self.index_of(name);
                assert(self.entries()[k] == old(self).entries()[k]);
                assert(self.entries()[k2].lapp_name@ == name);
            }
        }
        let restart = updated.is_applied() && service_running && enabled;
        Ok((updated, restart))
    }

    /// The lapps started together with the server, in the order held.
    pub fn autoload_lapps(&self) -> (r: Vec<&LappSettings>)
        ensures
            r@ == self.entries().filter(|s: LappSettings| s.application.enabled && s.application.autoload).map_values(|s: LappSettings| &s),
    {
        let mut r: Vec<&LappSettings> = Vec::new();
        let n = self.lapp_settings.len();
        for i in 0..n
            invariant
                n == self.entries().len(),
                r@ == self.entries().take(i as int).filter(|s: LappSettings| s.application.enabled && s.application.autoload).map_values(|s: LappSettings| &s),
        {
            reveal_with_fuel(Seq::<_>::filter, 1);
            let s = &self.lapp_settings[i];
            assert(self.entries().take(i + 1).drop_last() =~= self.entries().take(i as int));
            if s.is_lapp_startup_active() {
                r.push(s);
            }
            assert(r@ =~= self.entries().take(i + 1).filter(|s: LappSettings| s.application.enabled && s.application.autoload).map_values(|s: LappSettings| &s));
        }
        assert(self.entries().take(n as int) =~= self.entries());
        r
    }

    /// The directory of the lapp called `name`.
    pub fn lapp_dir(&self, name: &str) -> (r: String)
        ensures
            r@ == crate::paths::joined_path(self.path(), name@),
    {
        crate::paths::path_join(self.lapps_path.as_str(), name)
    }

    /// The check before a lapp serves its client over HTTP.
    pub fn check_client_http(&self, name: &str) -> (r: Result<(), ServerError>)
        requires
            self.wf(),
        ensures
            r is Ok <==> (self.has_lapp(name@) && self.settings_of(name@).application.enabled
                && self.settings_of(name@).permissions.allowed_set().contains(Permission::ClientHttp)),
            r matches Err(ServerError::LappNotFound(n)) ==> n@ == name@ && !self.has_lapp(name@),
            r matches Err(ServerError::LappNotEnabled(n)) ==> n@ == name@ && self.has_lapp(name@) && !self.settings_of(name@).application.enabled,
            r matches Err(ServerError::LappPermissionDenied(n, p)) ==> n@ == name@ && p == Permission::ClientHttp,
    {
        let permissions = [Permission::ClientHttp];
        let r = self.check_enabled_and_allow_permissions(name, &permissions);
        proof {
            if r is Ok {
                assert(permissions@[0] == Permission::ClientHttp);
            }
        }
        r
    }

    /// The check before a lapp opens a websocket to its client.
    pub fn check_websocket(&self, name: &str) -> (r: Result<(), ServerError>)
        requires
            self.wf(),
        ensures
            r is Ok <==> (self.has_lapp(name@) && self.settings_of(name@).application.enabled
                && self.settings_of(name@).permissions.allowed_set().contains(Permission::ClientHttp)
                && self.settings_of(name@).permissions.allowed_set().contains(Permission::Websocket)),
            r matches Err(ServerError::LappNotFound(n)) ==> n@ == name@ && !self.has_lapp(name@),
            r matches Err(ServerError::LappNotEnabled(n)) ==> n@ == name@ && self.has_lapp(name@) && !self.settings_of(name@).application.enabled,
            r matches Err(ServerError::LappPermissionDenied(n, p)) ==> n@ == name@
                && (p == Permission::ClientHttp || (p == Permission::Websocket
                    && self.settings_of(name@).permissions.allowed_set().contains(Permission::ClientHttp))),
    {
        let permissions = [Permission::ClientHttp, Permission::Websocket];
        let r = self.check_enabled_and_allow_permissions(name, &permissions);
        proof {
            assert(permissions@[0] == Permission::ClientHttp);
            assert(permissions@[1] == Permission::Websocket);
        }
        r
    }

    /// The check before a lapp joins the peer-to-peer network.
    pub fn check_gossipsub(&self, name: &str) -> (r: Result<(), ServerError>)
        requires
            self.wf(),
        ensures
            r is Ok <==> (self.has_lapp(name@) && self.settings_of(name@).application.enabled
                && self.settings_of(name@).permissions.allowed_set().contains(Permission::ClientHttp)
                && self.settings_of(name@).permissions.allowed_set().contains(Permission::Tcp)),
            r matches Err(ServerError::LappNotFound(n)) ==> n@ == name@ && !self.has_lapp(name@),
            r matches Err(ServerError::LappNotEnabled(n)) ==> n@ == name@ && self.has_lapp(name@) && !self.settings_of(name@).application.enabled,
            r matches Err(ServerError::LappPermissionDenied(n, p)) ==> n@ == name@
                && (p == Permission::ClientHttp || (p == Permission::Tcp
                    && self.settings_of(name@).permissions.allowed_set().contains(Permission::ClientHttp))),
    {
        let permissions = [Permission::ClientHttp, Permission::Tcp];
        let r = self.check_enabled_and_allow_permissions(name, &permissions);
        proof {
            assert(permissions@[0] == Permission::ClientHttp);
            assert(permissions@[1] == Permission::Tcp);
        }
        r
    }

    /// Whether the service of the lapp called `name` has to be started before
    /// a message goes to it: the lapp must be known, and it is started unless
    /// it already runs.
    pub fn service_start_needed(&self, name: &str, running: bool) -> (r: Result<bool, ServerError>)
        requires
            self.wf(),
        ensures
            match r {
                Ok(start) => self.has_lapp(name@) && start == !running,
                Err(e) => !self.has_lapp(name@) && (e matches ServerError::LappNotFound(n) && n@ == name@),
            },
    {
        self.lapp_settings(name)?;
        Ok(!running)
    }

    /// What asking for a lapp's service resolves to once a new service was
    /// started: its sender where the instance started, else the failure.
    pub fn started_sender<S>(started: Result<(), ServerError>, sender: S) -> (r: Result<S, ServerError>)
        ensures
            match started {
                Ok(_) => r matches Ok(s) && s == sender,
                Err(e) => r matches Err(f) && f == e,
            },
    {
        match started {
            Ok(()) => Ok(sender),
            Err(e) => Err(e),
        }
    }

    /// The lapps other than the main one, ordered by name.
    pub fn listed_lapps(&self) -> (r: Vec<&LappSettings>)
        requires
            self.wf(),
        ensures
            sorted_by_name(r@),
            drawn_from(r@, self.entries(), self.entries().len() as int),
            covers(r@, self.entries(), self.entries().len() as int),
    {
        let mut r: Vec<&LappSettings> = Vec::new();
        let n = self.lapp_settings.len();
        for k in 0..n
            invariant
                n == self.entries().len(),
                self.wf(),
                sorted_by_name(r@),
                drawn_from(r@, self.entries(), k as int),
                covers(r@, self.entries(), k as int),
        {
            let s = &self.lapp_settings[k];
            if !is_main(s.lapp_name.as_str()) {
                let key = s.lapp_name.as_str().as_bytes();
                let mut pos: usize = 0;
                while pos < r.len() && !bytes_less(key, r[pos].lapp_name.as_str().as_bytes())
                    invariant
                        pos <= r@.len(),
                        key@ == name_key(*s),
                        forall|i: int| 0 <= i < pos ==> !bytes_lt(name_key(*s), name_key(*(#[trigger] r@[i]))),
                    decreases r@.len() - pos,
                {
                    pos = pos + 1;
                }
                proof {
                    lemma_insert_position(self.entries(), r@, k as int, pos as int);
                }
                let ghost old_r = r@;
                r.insert(pos, s);
                proof {
                    lemma_insert_keeps_listing(self.entries(), old_r, k as int, pos as int);
                }
            } else {
                proof {
                    assert(covers(r@, self.entries(), k + 1)) by {
                        assert forall|kk: int| 0 <= kk < k + 1 && (#[trigger] self.entries()[kk]).lapp_name@ != "laplace"@
                            implies exists|i: int| 0 <= i < r@.len() && *r@[i] == self.entries()[kk] by {
                        }
                    }
                }
            }
        }
        r
    }
}

/// Names strictly increase along `r`.
pub open spec fn sorted_by_name(r: Seq<&LappSettings>) -> bool {
    forall|i: int, j: int| 0 <= i < j < r.len() ==> bytes_lt(name_key(*r[i]), name_key(*r[j]))
}

/// Every element of `r` is one of the first `k` entries and not the main lapp.
pub open spec fn drawn_from(r: Seq<&LappSettings>, entries: Seq<LappSettings>, k: int) -> bool {
    forall|i: int| 0 <= i < r.len() ==> (#[trigger] r[i]).lapp_name@ != "laplace"@
        && exists|kk: int| 0 <= kk < k && *r[i] == entries[kk]
}

/// Every one of the first `k` entries other than the main lapp is in `r`.
pub open spec fn covers(r: Seq<&LappSettings>, entries: Seq<LappSettings>, k: int) -> bool {
    forall|kk: int| 0 <= kk < k && (#[trigger] entries[kk]).lapp_name@ != "laplace"@
        ==> exists|i: int| 0 <= i < r.len() && *r[i] == entries[kk]
}

pub open spec fn names_unique(entries: Seq<LappSettings>) -> bool {
    forall|i: int, j: int| 0 <= i < entries.len() && 0 <= j < entries.len() && i != j
        ==> (#[trigger] entries[i]).lapp_name@ != (#[trigger] entries[j]).lapp_name@
}

proof fn lemma_insert_position(entries: Seq<LappSettings>, r: Seq<&LappSettings>, k: int, pos: int)
    requires
        names_unique(entries),
        0 <= k < entries.len(),
        0 <= pos <= r.len(),
        sorted_by_name(r),
        drawn_from(r, entries, k),
        forall|i: int| 0 <= i < pos ==> !bytes_lt(name_key(entries[k]), name_key(*(#[trigger] r[i]))),
        pos < r.len() ==> bytes_lt(name_key(entries[k]), name_key(*r[pos])),
    ensures
        forall|i: int| 0 <= i < pos ==> bytes_lt(name_key(*(#[trigger] r[i])), name_key(entries[k])),
        forall|j: int| pos <= j < r.len() ==> bytes_lt(name_key(entries[k]), name_key(*(#[trigger] r[j]))),
{
    let s = entries[k];
    assert forall|i: int| 0 <= i < pos implies bytes_lt(name_key(*(#[trigger] r[i])), name_key(s)) by {
        let kk = choose|kk: int| 0 <= kk < k && *r[i] == entries[kk];
        assert(entries[kk].lapp_name@ != entries[k].lapp_name@);
        lemma_distinct_keys(r[i].lapp_name@, s.lapp_name@);
        lemma_bytes_lt_total(name_key(*r[i]), name_key(s));
    }
    assert forall|j: int| pos <= j < r.len() implies bytes_lt(name_key(s), name_key(*(#[trigger] r[j]))) by {
        if j > pos {
            lemma_bytes_lt_transitive(name_key(s), name_key(*r[pos]), name_key(*r[j]));
        }
    }
}

proof fn lemma_insert_keeps_listing(entries: Seq<LappSettings>, r: Seq<&LappSettings>, k: int, pos: int)
    requires
        0 <= k < entries.len(),
        0 <= pos <= r.len(),
        entries[k].lapp_name@ != "laplace"@,
        sorted_by_name(r),
        drawn_from(r, entries, k),
        covers(r, entries, k),
        forall|i: int| 0 <= i < pos ==> bytes_lt(name_key(*(#[trigger] r[i])), name_key(entries[k])),
        forall|j: int| pos <= j < r.len() ==> bytes_lt(name_key(entries[k]), name_key(*(#[trigger] r[j]))),
    ensures
        ({
            let s: &LappSettings = &entries[k];
            let r2 = r.insert(pos, s);
            sorted_by_name(r2) && drawn_from(r2, entries, k + 1) && covers(r2, entries, k + 1)
        }),
{
    let s: &LappSettings = &entries[k];
    let r2 = r.insert(pos, s);
    r.insert_ensures(pos, s);
    assert forall|i: int, j: int| 0 <= i < j < r2.len() implies bytes_lt(name_key(*r2[i]), name_key(*r2[j])) by {
        if j < pos {
        } else if j == pos {
        } else if i < pos {
            assert(r2[j] == r[j - 1]);
            lemma_bytes_lt_transitive(name_key(*r[i]), name_key(*s), name_key(*r[j - 1]));
        } else if i == pos {
            assert(r2[j] == r[j - 1]);
        } else {
            assert(r2[i] == r[i - 1]);
            assert(r2[j] == r[j - 1]);
        }
    }
    assert forall|i: int| 0 <= i < r2.len() implies (#[trigger] r2[i]).lapp_name@ != "laplace"@
        && exists|kk: int| 0 <= kk < k + 1 && *r2[i] == entries[kk] by {
        if i < pos {
            let kk = choose|kk: int| 0 <= kk < k && *r[i] == entries[kk];
            assert(*r2[i] == entries[kk]);
        } else if i == pos {
            assert(*r2[i] == entries[k]);
        } else {
            assert(r2[i] == r[i - 1]);
            let kk = choose|kk: int| 0 <= kk < k && *r[i - 1] == entries[kk];
            assert(*r2[i] == entries[kk]);
        }
    }
    assert forall|kk: int| 0 <= kk < k + 1 && (#[trigger] entries[kk]).lapp_name@ != "laplace"@
        implies exists|i: int| 0 <= i < r2.len() && *r2[i] == entries[kk] by {
        if kk == k {
            assert(*r2[pos] == entries[kk]);
        } else {
            let i = choose|i: int| 0 <= i < r.len() && *r[i] == entries[kk];
            if i < pos {
                assert(*r2[i] == entries[kk]);
            } else {
                assert(r2[i + 1] == r[i]);
                assert(*r2[i + 1] == entries[kk]);
            }
        }
    }
}

/// The bytes by which a lapp's name is ordered.
pub open spec fn name_key(s: LappSettings) -> Seq<u8> {
    encode_utf8(s.lapp_name@)
}

proof fn lemma_distinct_keys(a: Seq<char>, b: Seq<char>)
    requires
        a != b,
    ensures
        encode_utf8(a) != encode_utf8(b),
{
    encode_utf8_decode_utf8(a);
    encode_utf8_decode_utf8(b);
}

/// Whether the settings of the lapp in the directory `name` of the lapps
/// directory are loaded: it must be allowed by the server's settings, and
/// the main lapp has none.
pub fn lapp_to_load(lapps: &LappsSettings, name: &str) -> (r: bool)
    ensures
        r == (lapps.allows(name@) && name@ != "laplace"@),
{
    lapps.is_lapp_allowed(name) && !is_main(name)
}

} // verus!
