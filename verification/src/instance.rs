//! What a lapp's instance is given when it is started, and what its
//! initialisation hands back.

use vstd::prelude::*;
use vstd::string::*;

use crate::error::ServerError;
use crate::lapp::{LappSettings, Permission, PermissionsSettings};
use crate::paths::{joined_path, path_join, server_module_file};
use crate::wire::{take_field, read_field};
use crate::invoke::utf8_text;
use vstd::utf8::{valid_utf8, decode_utf8};

verus! {

/// What the lapp may do in its data directory.
#[derive(Debug, Clone, Copy, PartialEq, Eq, Structural)]
pub struct DirAccess {
    pub read: bool,
    pub write: bool,
}

/// Everything an instance of a lapp is started with.
pub struct InstancePlan {
    /// The lapp's server module.
    pub module_file: String,
    /// The lapp's data directory.
    pub data_dir: String,
    /// The data directory is created first.
    pub create_data_dir: bool,
    /// The data directory is opened to the lapp with this access.
    pub preopen: Option<DirAccess>,
    /// The database the lapp is connected to.
    pub database: Option<String>,
    /// The lapp may make HTTP requests.
    pub http: bool,
    /// The lapp may sleep.
    pub sleep: bool,
}

pub open spec fn allowed(s: &LappSettings, p: Permission) -> bool {
    s.permissions.allowed_set().contains(p)
}

/// The lapp asks for access to files.
pub open spec fn requires_files(s: &LappSettings) -> bool {
    s.permissions.required@.contains(Permission::FileRead) || s.permissions.required@.contains(Permission::FileWrite)
}

/// The data directory: the configured one where it is absolute, else the
/// configured one inside the lapp's directory.
pub open spec fn data_dir_spec(s: &LappSettings, root_dir: Seq<char>, is_absolute: bool) -> Seq<char> {
    if is_absolute { s.data_dir@ } else { joined_path(root_dir, s.data_dir@) }
}

/// The database file: the configured one inside the lapp's directory where
/// it is relative, else the configured one.
pub open spec fn database_spec(s: &LappSettings, root_dir: Seq<char>, is_relative: bool) -> Seq<char> {
    if is_relative { joined_path(root_dir, s.database_path@) } else { s.database_path@ }
}

/// The lapp's data directory; `is_absolute` tells whether the configured
/// path is absolute.
pub fn data_dir_path(settings: &LappSettings, root_dir: &str, is_absolute: bool) -> (r: String)
    ensures
        r@ == data_dir_spec(settings, root_dir@, is_absolute),
{
    if is_absolute {
        settings.data_dir.clone()
    } else {
        path_join(root_dir, settings.data_dir.as_str())
    }
}

/// The lapp's database file; `is_relative` tells whether the configured path
/// is relative.
pub fn database_path(settings: &LappSettings, root_dir: &str, is_relative: bool) -> (r: String)
    ensures
        r@ == database_spec(settings, root_dir@, is_relative),
{
    if is_relative {
        path_join(root_dir, settings.database_path.as_str())
    } else {
        settings.database_path.clone()
    }
}

fn requires_any_file(perms: &PermissionsSettings) -> (r: bool)
    ensures
        r == (perms.required@.contains(Permission::FileRead) || perms.required@.contains(Permission::FileWrite)),
{
    let n = perms.required.len();
    for i in 0..n
        invariant
            n == perms.required@.len(),
            forall|j: int| 0 <= j < i ==> perms.required@[j] != Permission::FileRead && perms.required@[j] != Permission::FileWrite,
    {
        let p = perms.required[i];
        if p == Permission::FileRead || p == Permission::FileWrite {
            assert(perms.required@[i as int] == p);
            return true;
        }
    }
    false
}

/// How an instance of the lapp is started, from its granted permissions:
/// read and write access to its data directory where it asks for files,
/// its database, HTTP and sleep where they are granted.
pub fn instance_plan(
    settings: &LappSettings,
    root_dir: &str,
    data_dir_is_absolute: bool,
    data_dir_exists: bool,
    database_is_relative: bool,
) -> (r: InstancePlan)
    ensures
        r.module_file@ == joined_path(root_dir@, settings.lapp_name@ + "_server.wasm"@),
        r.data_dir@ == data_dir_spec(settings, root_dir@, data_dir_is_absolute),
        r.create_data_dir == (!data_dir_exists
            && (allowed(settings, Permission::FileRead) || allowed(settings, Permission::FileWrite))),
        r.preopen == if requires_files(settings) {
            Some(DirAccess { read: allowed(settings, Permission::FileRead), write: allowed(settings, Permission::FileWrite) })
        } else {
            None
        },
        allowed(settings, Permission::Database) ==> (r.database matches Some(p)
            && p@ == database_spec(settings, root_dir@, database_is_relative)),
        !allowed(settings, Permission::Database) ==> r.database is None,
        r.http == allowed(settings, Permission::Http),
        r.sleep == allowed(settings, Permission::Sleep),
{
    let read = settings.permissions.is_allowed(Permission::FileRead);
    let write = settings.permissions.is_allowed(Permission::FileWrite);
    let db = settings.permissions.is_allowed(Permission::Database);
    let http = settings.permissions.is_allowed(Permission::Http);
    let sleep = settings.permissions.is_allowed(Permission::Sleep);
    let module_file = server_module_file(root_dir, settings.lapp_name.as_str());
    let data_dir = data_dir_path(settings, root_dir, data_dir_is_absolute);
    let preopen = if requires_any_file(&settings.permissions) {
        Some(DirAccess { read, write })
    } else {
        None
    };
    let database = if db {
        Some(database_path(settings, root_dir, database_is_relative))
    } else {
        None
    };
    InstancePlan {
        module_file,
        data_dir,
        create_data_dir: !data_dir_exists && (read || write),
        preopen,
        database,
        http,
        sleep,
    }
}

/// The failure text a lapp's initialisation handed back: `[0]` and a text field.
pub open spec fn init_failure_text(data: Seq<u8>) -> Option<Seq<char>> {
    if data.len() > 0 && data[0] == 0 {
        match read_field(data, 1) {
            Some((b, n)) => if n == data.len() && valid_utf8(b) {
                Some(decode_utf8(b))
            } else {
                None
            },
            None => None,
        }
    } else {
        None
    }
}

/// Reads what a lapp's initialisation handed back: `Ok` for `[1]`, its
/// failure text as `LappInitError`, `ResultNotParsed` where the bytes hold
/// neither.
pub fn init_outcome(data: &[u8]) -> (r: Result<(), ServerError>)
    ensures
        match r {
            Ok(()) => data@ == seq![1u8],
            Err(ServerError::LappInitError(t)) => init_failure_text(data@) == Some(t@),
            Err(ServerError::ResultNotParsed) => data@ != seq![1u8] && init_failure_text(data@) is None,
            Err(_) => false,
        },
{
    if data.len() == 1 && data[0] == 1 {
        assert(data@ =~= seq![1u8]);
        return Ok(());
    }
    if data.len() > 0 && data[0] == 0 {
        match take_field(data, 1) {
            Some((bytes, n)) => {
                if n == data.len() {
                    match utf8_text(bytes) {
                        Some(text) => return Err(ServerError::LappInitError(text)),
                        None => {},
                    }
                }
            },
            None => {},
        }
    }
    Err(ServerError::ResultNotParsed)
}

} // verus!
