//! Where a lapp's files are.

use vstd::prelude::*;
use vstd::string::*;

use crate::error::ServerError;
use crate::lapp::{index_file_name, static_dir_name, config_file_name};

verus! {

broadcast use vstd::seq::group_seq_axioms;

/// The text of `base` joined with `part` by `std::path::Path::join`.
pub uninterp spec fn joined_path(base: Seq<char>, part: Seq<char>) -> Seq<char>;

/// `Path::new(base).join(part)` as text.
#[verifier::external_body]
pub(crate) fn path_join(base: &str, part: &str) -> (r: String)
    ensures
        r@ == joined_path(base@, part@),
{
    std::path::Path::new(base).join(part).to_string_lossy().into_owned()
}

/// The directory of a lapp's static files.
pub fn static_dir(lapp_dir: &str) -> (r: String)
    ensures
        r@ == joined_path(lapp_dir@, "static"@),
{
    path_join(lapp_dir, static_dir_name())
}

/// A lapp's index page.
pub fn index_file(lapp_dir: &str) -> (r: String)
    ensures
        r@ == joined_path(joined_path(lapp_dir@, "static"@), "index.html"@),
{
    let dir = static_dir(lapp_dir);
    path_join(dir.as_str(), index_file_name())
}

/// A lapp's settings file.
pub fn settings_path(lapp_dir: &str) -> (r: String)
    ensures
        r@ == joined_path(lapp_dir@, "config.toml"@),
{
    path_join(lapp_dir, config_file_name())
}

/// A lapp's server module: `<name>_server.wasm` in its directory.
pub fn server_module_file(lapp_dir: &str, lapp_name: &str) -> (r: String)
    ensures
        r@ == joined_path(lapp_dir@, lapp_name@ + "_server.wasm"@),
{
    let mut file = lapp_name.to_owned();
    file.append("_server.wasm");
    path_join(lapp_dir, file.as_str())
}

/// Where a file of a lapp's static files may be: in its static directory,
/// then in each of its additional static directories.
pub fn static_file_candidates(lapp_dir: &str, file_path: &str, additional_dirs: &Vec<String>) -> (r: Vec<String>)
    ensures
        r@.len() == additional_dirs@.len() + 1,
        r@[0]@ == joined_path(joined_path(lapp_dir@, "static"@), file_path@),
        forall|i: int| 0 <= i < additional_dirs@.len()
            ==> (#[trigger] r@[i + 1])@ == joined_path(joined_path(lapp_dir@, additional_dirs@[i]@), file_path@),
{
    let mut r: Vec<String> = Vec::new();
    let dir = static_dir(lapp_dir);
    r.push(path_join(dir.as_str(), file_path));
    let n = additional_dirs.len();
    for i in 0..n
        invariant
            n == additional_dirs@.len(),
            r@.len() == i + 1,
            r@[0]@ == joined_path(joined_path(lapp_dir@, "static"@), file_path@),
            forall|j: int| 0 <= j < i
                ==> (#[trigger] r@[j + 1])@ == joined_path(joined_path(lapp_dir@, additional_dirs@[j]@), file_path@),
    {
        let base = path_join(lapp_dir, additional_dirs[i].as_str());
        r.push(path_join(base.as_str(), file_path));
    }
    r
}

/// Which candidate is served: the first that exists, else the first one.
pub fn pick_static_file(found: &Vec<bool>) -> (r: usize)
    requires
        found@.len() > 0,
    ensures
        r < found@.len(),
        found@[r as int] || (r == 0 && forall|i: int| 0 <= i < found@.len() ==> !found@[i]),
        forall|i: int| 0 <= i < r ==> !found@[i],
{
    let n = found.len();
    for i in 0..n
        invariant
            n == found@.len(),
            forall|j: int| 0 <= j < i ==> !found@[j],
    {
        if found[i] {
            return i;
        }
    }
    0
}

/// The name of a lapp delivered in an archive: the file name without
/// `.zip`, else without `.lar`, else the whole file name.
pub open spec fn lapp_name_of_file(f: Seq<char>) -> Seq<char> {
    if f.len() >= 4 && f.subrange(f.len() - 4, f.len() as int) == ".zip"@ {
        f.subrange(0, f.len() - 4)
    } else if f.len() >= 4 && f.subrange(f.len() - 4, f.len() as int) == ".lar"@ {
        f.subrange(0, f.len() - 4)
    } else {
        f
    }
}

/// The name of a lapp delivered in an archive called `file_name`.
pub fn lapp_name_from_file_name(file_name: &str) -> (r: String)
    ensures
        r@ == lapp_name_of_file(file_name@),
{
    let v = crate::text::chars_of(file_name);
    let zip = crate::text::chars_of(".zip");
    let lar = crate::text::chars_of(".lar");
    proof {
        reveal_strlit(".zip");
        reveal_strlit(".lar");
    }
    let n = v.len();
    if n >= 4 && crate::text::range_eq(&v, n - 4, n, &zip) {
        return crate::text::string_of_range(&v, 0, n - 4);
    }
    if n >= 4 && crate::text::range_eq(&v, n - 4, n, &lar) {
        return crate::text::string_of_range(&v, 0, n - 4);
    }
    assert(v@.subrange(0, n as int) =~= v@);
    crate::text::string_of_range(&v, 0, n)
}

/// The check before an archive is unpacked into a lapp's directory: where
/// the directory exists it must be a directory and empty.
pub fn check_new_lapp_dir(present: bool, is_dir: bool, has_entries: bool, dir: String, lapp_name: &str) -> (r: Result<(), ServerError>)
    ensures
        (r is Ok) <==> (!present || (is_dir && !has_entries)),
        r matches Err(e) ==> (present && !is_dir && e == ServerError::WrongLappDirectory(dir))
            || (present && is_dir && has_entries && (e matches ServerError::LappAlreadyExists(n) && n@ == lapp_name@)),
{
    if present {
        if !is_dir {
            return Err(ServerError::WrongLappDirectory(dir));
        }
        if has_entries {
            return Err(ServerError::LappAlreadyExists(lapp_name.to_owned()));
        }
    }
    Ok(())
}

} // verus!
