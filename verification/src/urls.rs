//! The addresses under which the server and its lapps are reached.

use vstd::prelude::*;
use vstd::string::*;

use crate::lapp::LappSettings;
use crate::manager::LappsManager;
use crate::settings::Settings;
use crate::text::{decimal, push_decimal};

verus! {

broadcast use vstd::seq::group_seq_axioms;

/// `https` with TLS, else `http`; then the host and the port.
pub open spec fn root_url_spec(ssl: bool, host: Seq<char>, port: u16) -> Seq<char> {
    (if ssl { "https"@ } else { "http"@ }) + "://"@ + host + ":"@ + decimal(port as nat)
}

/// The query that carries an access token.
pub open spec fn token_query(token: Seq<char>) -> Seq<char> {
    "?access_token="@ + token
}

/// The address of the server.
pub fn root_url(settings: &Settings) -> (r: String)
    ensures
        r@ == root_url_spec(settings.ssl.enabled, settings.http.host@, settings.http.port),
{
    let mut r = if settings.ssl.enabled { "https".to_owned() } else { "http".to_owned() };
    r.append("://");
    r.append(settings.http.host.as_str());
    r.append(":");
    push_decimal(&mut r, settings.http.port as u64);
    r
}

/// The address of the main page: the server's address and, where the
/// server has an access token, the token.
pub fn laplace_url(root_url: &str, access_token: &str) -> (r: String)
    ensures
        r@ == root_url@ + "/"@ + if access_token@.len() == 0 { Seq::<char>::empty() } else { token_query(access_token@) },
{
    let mut r = root_url.to_owned();
    r.append("/");
    if access_token.unicode_len() > 0 {
        r.append("?access_token=");
        r.append(access_token);
    }
    r
}

pub open spec fn lapp_url_spec(root_url: Seq<char>, s: LappSettings) -> Seq<char> {
    root_url + "/"@ + s.lapp_name@ + match s.application.access_token {
        Some(t) => token_query(t@),
        None => Seq::<char>::empty(),
    }
}

/// The address of a lapp, with its access token where it has one.
pub fn lapp_url(root_url: &str, settings: &LappSettings) -> (r: String)
    ensures
        r@ == lapp_url_spec(root_url@, *settings),
{
    let mut r = root_url.to_owned();
    r.append("/");
    r.append(settings.lapp_name.as_str());
    match &settings.application.access_token {
        Some(token) => {
            r.append("?access_token=");
            r.append(token.as_str());
        },
        None => {},
    }
    r
}

/// The addresses of the lapps among `entries` that start with the server, in order.
pub open spec fn startup_urls_spec(root_url: Seq<char>, entries: Seq<LappSettings>) -> Seq<Seq<char>>
    decreases entries.len(),
{
    if entries.len() == 0 {
        Seq::empty()
    } else {
        let rest = startup_urls_spec(root_url, entries.drop_last());
        let s = entries.last();
        if s.application.enabled && s.application.autoload {
            rest.push(lapp_url_spec(root_url, s))
        } else {
            rest
        }
    }
}

/// The addresses of the lapps that start with the server, in the order the
/// manager holds them.
pub fn startup_lapp_urls(manager: &LappsManager, root_url: &str) -> (r: Vec<String>)
    ensures
        r@.map_values(|u: String| u@) == startup_urls_spec(root_url@, manager.entries()),
{
    let all = manager.lapp_settings_iter();
    let mut r: Vec<String> = Vec::new();
    let n = all.len();
    for i in 0..n
        invariant
            n == all@.len(),
            all@ == manager.entries(),
            r@.map_values(|u: String| u@) == startup_urls_spec(root_url@, all@.take(i as int)),
    {
        let ghost before = r@;
        assert(all@.take(i + 1).drop_last() =~= all@.take(i as int));
        if all[i].is_lapp_startup_active() {
            let url = lapp_url(root_url, &all[i]);
            r.push(url);
            assert(r@.map_values(|u: String| u@) =~= before.map_values(|u: String| u@).push(url@));
        }
    }
    assert(all@.take(n as int) =~= all@);
    r
}

} // verus!
