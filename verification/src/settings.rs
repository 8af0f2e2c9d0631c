//! Server settings and their defaults.

use vstd::prelude::*;

verus! {

/// Settings of the HTTP server.
pub struct HttpSettings {
    pub host: String,
    pub port: u16,
    pub web_root: String,
    pub access_token: Option<String>,
    pub upload_file_limit: usize,
    pub print_url: bool,
}

impl Default for HttpSettings {
    fn default() -> (r: Self)
        ensures
            r.host@ == "localhost"@,
            r.port == 8080,
            r.web_root@ == Seq::<char>::empty(),
            r.access_token is None,
            r.upload_file_limit == 2 * 1024 * 1024 * 1024,
            r.print_url,
    {
        HttpSettings {
            host: "localhost".to_owned(),
            port: 8080,
            web_root: String::new(),
            access_token: None,
            upload_file_limit: 2 * 1024 * 1024 * 1024,
            print_url: true,
        }
    }
}

/// Settings of TLS.
pub struct SslSettings {
    pub enabled: bool,
    pub private_key_path: String,
    pub certificate_path: String,
}

impl Default for SslSettings {
    fn default() -> (r: Self)
        ensures
            !r.enabled,
            r.private_key_path@ == "key.pem"@,
            r.certificate_path@ == "cert.pem"@,
    {
        SslSettings {
            enabled: false,
            private_key_path: private_key_path_default(),
            certificate_path: certificate_path_default(),
        }
    }
}

pub fn private_key_path_default() -> (r: String)
    ensures
        r@ == "key.pem"@,
{
    "key.pem".to_owned()
}

pub fn certificate_path_default() -> (r: String)
    ensures
        r@ == "cert.pem"@,
{
    "cert.pem".to_owned()
}

/// Settings of the peer-to-peer network.
pub struct P2pSettings {
    pub mdns_discovery_enabled: bool,
}

impl Default for P2pSettings {
    fn default() -> (r: Self)
        ensures
            !r.mdns_discovery_enabled,
    {
        P2pSettings { mdns_discovery_enabled: false }
    }
}

/// Settings of the log.
pub struct LoggerSettings {
    pub spec: String,
    pub path: Option<String>,
    pub duplicate_to_stdout: bool,
    pub keep_log_for_days: usize,
}

impl Default for LoggerSettings {
    fn default() -> (r: Self)
        ensures
            r.spec@ == "info"@,
            r.path is None,
            !r.duplicate_to_stdout,
            r.keep_log_for_days == 7,
    {
        LoggerSettings {
            spec: default_spec(),
            path: None,
            duplicate_to_stdout: false,
            keep_log_for_days: default_keep_log_for_days(),
        }
    }
}

pub fn default_spec() -> (r: String)
    ensures
        r@ == "info"@,
{
    "info".to_owned()
}

pub fn default_keep_log_for_days() -> (r: usize)
    ensures
        r == 7,
{
    7
}

/// Where the lapps are and which of them may be loaded (all where no list is given).
pub struct LappsSettings {
    pub path: String,
    pub allowed: Option<Vec<String>>,
}

impl Default for LappsSettings {
    fn default() -> (r: Self)
        ensures
            r.path@ == "lapps"@,
            r.allowed is None,
    {
        LappsSettings { path: "lapps".to_owned(), allowed: None }
    }
}

impl LappsSettings {
    pub open spec fn allows(&self, name: Seq<char>) -> bool {
        match self.allowed {
            Some(list) => exists|i: int| 0 <= i < list@.len() && (#[trigger] list@[i])@ == name,
            None => true,
        }
    }

    /// Whether the lapp called `name` may be loaded.
    pub fn is_lapp_allowed(&self, name: &str) -> (r: bool)
        ensures
            r == self.allows(name@),
    {
        match &self.allowed {
            Some(list) => {
                let n = list.len();
                for i in 0..n
                    invariant
                        n == list@.len(),
                        self.allowed == Some(*list),
                        forall|j: int| 0 <= j < i ==> (#[trigger] list@[j])@ != name@,
                {
                    let item: &String = &list[i];
                    if crate::text::str_eq(item.as_str(), name) {
                        assert(*item == list@[i as int]);
                        assert(0 <= i < list@.len() && (list@[i as int])@ == name@);
                        assert(self.allowed == Some(*list));
                        assert(self.allowed->0@[i as int]@ == name@);
                        assert(self.allows(name@));
                        return true;
                    }
                }
                false
            },
            None => true,
        }
    }
}

/// All settings of the server.
pub struct Settings {
    pub http: HttpSettings,
    pub ssl: SslSettings,
    pub p2p: P2pSettings,
    pub log: LoggerSettings,
    pub lapps: LappsSettings,
}

impl Default for Settings {
    fn default() -> (r: Self)
        ensures
            r.http.host@ == "localhost"@,
            r.http.port == 8080,
            r.http.web_root@ == Seq::<char>::empty(),
            r.http.access_token is None,
            r.http.upload_file_limit == 2 * 1024 * 1024 * 1024,
            r.http.print_url,
            !r.ssl.enabled,
            r.ssl.private_key_path@ == "key.pem"@,
            r.ssl.certificate_path@ == "cert.pem"@,
            !r.p2p.mdns_discovery_enabled,
            r.log.spec@ == "info"@,
            r.log.path is None,
            !r.log.duplicate_to_stdout,
            r.log.keep_log_for_days == 7,
            r.lapps.path@ == "lapps"@,
            r.lapps.allowed is None,
    {
        Settings {
            http: HttpSettings::default(),
            ssl: SslSettings::default(),
            p2p: P2pSettings::default(),
            log: LoggerSettings::default(),
            lapps: LappsSettings::default(),
        }
    }
}

/// Command line options.
pub struct Opts {
    pub config: String,
}

impl Default for Opts {
    fn default() -> (r: Self)
        ensures
            r.config@ == "Laplace.toml"@,
    {
        Opts { config: "Laplace.toml".to_owned() }
    }
}

} // verus!
