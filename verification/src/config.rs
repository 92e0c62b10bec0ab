use vstd::prelude::*;
use std::collections::HashMap;

verus! {

/// Settings of the server process.
#[derive(Debug, Clone)]
pub struct ServerSettings {
    pub name: String,
    pub workers: usize,
    pub keep_alive: bool,
    pub keep_alive_timeout: u64,
    pub max_connections: usize,
    pub request_timeout: u64,
    pub send_timeout: u64,
    pub client_header_timeout: u64,
    pub client_body_timeout: u64,
}

/// Security policy of the server.
#[derive(Debug, Clone)]
pub struct SecuritySettings {
    pub enable_https: bool,
    pub enable_hsts: bool,
    pub hsts_max_age: u64,
    pub enable_cors: bool,
    pub allowed_origins: Vec<String>,
    pub allowed_methods: Vec<String>,
    pub enable_csrf_protection: bool,
    pub enable_xss_protection: bool,
    pub enable_clickjacking_protection: bool,
    pub enable_csp: bool,
    pub content_security_policy: String,
    pub ssl_protocols: Vec<String>,
    pub ssl_ciphers: Vec<String>,
    pub dhparam_file: Option<String>,
    pub enable_ocsp_stapling: bool,
    pub ocsp_responder: Option<String>,
    pub enable_http2: bool,
    pub rate_limiting: bool,
    pub rate_limit_requests: usize,
    pub rate_limit_window: u64,
}

/// The default security settings: HSTS for a year, CORS from anywhere for `GET`, `POST`,
/// `HEAD`, CSRF, XSS and clickjacking protection, the policy `default-src 'self';`, TLS 1.2 and
/// 1.3 with four ECDHE suites, HTTP/2, and 100 requests a minute per client; HTTPS and OCSP
/// stapling off.
pub open spec fn default_security(s: SecuritySettings) -> bool {
    &&& !s.enable_https
    &&& s.enable_hsts
    &&& s.hsts_max_age == 31536000
    &&& s.enable_cors
    &&& s.allowed_origins@.len() == 1 && s.allowed_origins@[0]@ == "*"@
    &&& s.allowed_methods@.len() == 3 && s.allowed_methods@[0]@ == "GET"@
        && s.allowed_methods@[1]@ == "POST"@ && s.allowed_methods@[2]@ == "HEAD"@
    &&& s.enable_csrf_protection
    &&& s.enable_xss_protection
    &&& s.enable_clickjacking_protection
    &&& s.enable_csp
    &&& s.content_security_policy@ == "default-src 'self';"@
    &&& s.ssl_protocols@.len() == 2 && s.ssl_protocols@[0]@ == "TLSv1.2"@ && s.ssl_protocols@[1]@ == "TLSv1.3"@
    &&& s.ssl_ciphers@.len() == 4 && s.ssl_ciphers@[0]@ == "ECDHE-ECDSA-AES128-GCM-SHA256"@
        && s.ssl_ciphers@[1]@ == "ECDHE-RSA-AES128-GCM-SHA256"@
        && s.ssl_ciphers@[2]@ == "ECDHE-ECDSA-AES256-GCM-SHA384"@
        && s.ssl_ciphers@[3]@ == "ECDHE-RSA-AES256-GCM-SHA384"@
    &&& s.dhparam_file is None
    &&& !s.enable_ocsp_stapling
    &&& s.ocsp_responder is None
    &&& s.enable_http2
    &&& s.rate_limiting
    &&& s.rate_limit_requests == 100
    &&& s.rate_limit_window == 60
}

impl Default for SecuritySettings {
    /// The default security settings (see `default_security`).
    fn default() -> (res: SecuritySettings)
        ensures
            default_security(res),
    {
        let mut allowed_origins: Vec<String> = Vec::new();
        allowed_origins.push("*".to_owned());
        let mut allowed_methods: Vec<String> = Vec::new();
        allowed_methods.push("GET".to_owned());
        allowed_methods.push("POST".to_owned());
        allowed_methods.push("HEAD".to_owned());
        let mut ssl_protocols: Vec<String> = Vec::new();
        ssl_protocols.push("TLSv1.2".to_owned());
        ssl_protocols.push("TLSv1.3".to_owned());
        let mut ssl_ciphers: Vec<String> = Vec::new();
        ssl_ciphers.push("ECDHE-ECDSA-AES128-GCM-SHA256".to_owned());
        ssl_ciphers.push("ECDHE-RSA-AES128-GCM-SHA256".to_owned());
        ssl_ciphers.push("ECDHE-ECDSA-AES256-GCM-SHA384".to_owned());
        ssl_ciphers.push("ECDHE-RSA-AES256-GCM-SHA384".to_owned());
        SecuritySettings {
            enable_https: false,
            enable_hsts: true,
            hsts_max_age: 31536000,
            enable_cors: true,
            allowed_origins,
            allowed_methods,
            enable_csrf_protection: true,
            enable_xss_protection: true,
            enable_clickjacking_protection: true,
            enable_csp: true,
            content_security_policy: "default-src 'self';".to_owned(),
            ssl_protocols,
            ssl_ciphers,
            dhparam_file: None,
            enable_ocsp_stapling: false,
            ocsp_responder: None,
            enable_http2: true,
            rate_limiting: true,
            rate_limit_requests: 100,
            rate_limit_window: 60,
        }
    }
}

/// Where and how the server logs.
#[derive(Debug, Clone)]
pub struct LoggingSettings {
    pub level: String,
    pub access_log: String,
    pub error_log: String,
    pub log_format: String,
    pub buffer_size: usize,
}

/// A virtual host as the configuration file describes it.
#[derive(Debug, Clone)]
pub struct VirtualHostConfig {
    pub server_name: String,
    pub document_root: String,
    pub index: Vec<String>,
    pub error_pages: HashMap<u16, String>,
    pub locations: Vec<LocationConfig>,
    pub aliases: Vec<AliasConfig>,
    pub ssl_certificate: Option<String>,
    pub ssl_certificate_key: Option<String>,
    pub enable_php: bool,
    pub enable_cgi: bool,
    pub rewrites: Vec<RewriteRule>,
    pub gzip: bool,
    pub gzip_types: Vec<String>,
    pub allow_methods: Vec<String>,
    pub deny_methods: Vec<String>,
    pub basic_auth: Option<BasicAuthConfig>,
}

/// A location block of a virtual host.
#[derive(Debug, Clone)]
pub struct LocationConfig {
    pub path: String,
    pub root: Option<String>,
    pub proxy_pass: Option<String>,
    pub allow_methods: Vec<String>,
    pub deny_methods: Vec<String>,
    pub basic_auth: Option<BasicAuthConfig>,
    pub allow_ips: Vec<String>,
    pub deny_ips: Vec<String>,
}

/// A path served from another directory.
#[derive(Debug, Clone)]
pub struct AliasConfig {
    pub path: String,
    pub alias: String,
}

/// A rewrite rule as written in the configuration.
#[derive(Debug, Clone)]
pub struct RewriteRule {
    pub pattern: String,
    pub target: String,
    pub flags: Vec<String>,
}

/// HTTP Basic authentication: a realm and, for each user name, the stored password hash.
/// A user name stands at most once in `users`.
#[derive(Debug)]
pub struct BasicAuthConfig {
    pub realm: String,
    pub users: Vec<(String, String)>,
}

impl Clone for BasicAuthConfig {
    fn clone(&self) -> (res: Self)
        ensures
            res.realm == self.realm,
            res.users@ == self.users@,
    {
        let mut users: Vec<(String, String)> = Vec::new();
        for i in 0..self.users.len()
            invariant
                users@ == self.users@.take(i as int),
        {
            let pair = (self.users[i].0.clone(), self.users[i].1.clone());
            users.push(pair);
            assert(users@ =~= self.users@.take(i + 1));
        }
        assert(self.users@.take(self.users@.len() as int) == self.users@);
        BasicAuthConfig { realm: self.realm.clone(), users }
    }
}

/// A copy of a list of strings.
pub fn clone_strings(v: &Vec<String>) -> (res: Vec<String>)
    ensures
        res@ == v@,
{
    let mut out: Vec<String> = Vec::new();
    for i in 0..v.len()
        invariant
            out@ == v@.take(i as int),
    {
        out.push(v[i].clone());
        assert(out@ =~= v@.take(i + 1));
    }
    assert(v@.take(v@.len() as int) == v@);
    out
}

/// A copy of an optional string.
pub fn clone_opt_string(v: &Option<String>) -> (res: Option<String>)
    ensures
        res == *v,
{
    match v {
        Some(s) => Some(s.clone()),
        None => None,
    }
}

/// The same Basic authentication settings.
pub open spec fn same_auth(a: Option<BasicAuthConfig>, b: Option<BasicAuthConfig>) -> bool {
    match (a, b) {
        (None, None) => true,
        (Some(x), Some(y)) => x.realm == y.realm && x.users@ == y.users@,
        _ => false,
    }
}

/// A copy of optional Basic authentication settings.
pub fn clone_auth(v: &Option<BasicAuthConfig>) -> (res: Option<BasicAuthConfig>)
    ensures
        same_auth(res, *v),
{
    match v {
        Some(a) => Some(a.clone()),
        None => None,
    }
}

/// A module to load, with its settings as JSON text.
#[derive(Debug, Clone)]
pub struct ModuleConfig {
    pub name: String,
    pub enabled: bool,
    pub settings: String,
}

/// The whole configuration of the server.
#[derive(Debug, Clone)]
pub struct ServerConfig {
    pub server: ServerSettings,
    pub security: SecuritySettings,
    pub logging: LoggingSettings,
    pub virtual_hosts: Vec<VirtualHostConfig>,
    pub modules: Vec<ModuleConfig>,
}

/// The number of logical CPUs, as `num_cpus::get` reports it; the crate documents that it is
/// always at least 1. Nothing more is claimed: the number depends on the machine.
#[verifier::external_body]
fn cpu_count() -> (res: usize)
    ensures
        res >= 1,
{
    num_cpus::get()
}

impl Default for ServerConfig {
    /// One virtual host `localhost` serving `www` (index `index.html`, `index.htm`; gzip for text,
    /// HTML, CSS and JavaScript; methods `GET`, `HEAD`, `POST`), one worker per CPU, keep-alive of
    /// 65 seconds, 1024 connections, 60-second timeouts, the default security settings, logging at
    /// `info` to `logs/`, no modules.
    fn default() -> (res: ServerConfig)
        ensures
            res.server.name@ == "Rust Web Server"@,
            res.server.workers >= 1,
            res.server.keep_alive,
            res.server.keep_alive_timeout == 65,
            res.server.max_connections == 1024,
            res.server.request_timeout == 60,
            res.server.send_timeout == 60,
            res.server.client_header_timeout == 60,
            res.server.client_body_timeout == 60,
            default_security(res.security),
            res.logging.level@ == "info"@,
            res.logging.access_log@ == "logs/access.log"@,
            res.logging.error_log@ == "logs/error.log"@,
            res.logging.log_format@ == "$remote_addr - $remote_user [$time_local] \"$request\" $status $body_bytes_sent"@,
            res.logging.buffer_size == 4096,
            res.virtual_hosts@.len() == 1,
            res.virtual_hosts@[0].server_name@ == "localhost"@,
            res.virtual_hosts@[0].document_root@ == "www"@,
            res.virtual_hosts@[0].index@.len() == 2 && res.virtual_hosts@[0].index@[0]@ == "index.html"@
                && res.virtual_hosts@[0].index@[1]@ == "index.htm"@,
            res.virtual_hosts@[0].error_pages@ == Map::<u16, String>::empty(),
            res.virtual_hosts@[0].locations@.len() == 0,
            res.virtual_hosts@[0].aliases@.len() == 0,
            res.virtual_hosts@[0].ssl_certificate is None,
            res.virtual_hosts@[0].ssl_certificate_key is None,
            !res.virtual_hosts@[0].enable_php,
            !res.virtual_hosts@[0].enable_cgi,
            res.virtual_hosts@[0].rewrites@.len() == 0,
            res.virtual_hosts@[0].gzip,
            res.virtual_hosts@[0].gzip_types@.len() == 4 && res.virtual_hosts@[0].gzip_types@[0]@ == "text/plain"@
                && res.virtual_hosts@[0].gzip_types@[1]@ == "text/html"@ && res.virtual_hosts@[0].gzip_types@[2]@ == "text/css"@
                && res.virtual_hosts@[0].gzip_types@[3]@ == "application/javascript"@,
            res.virtual_hosts@[0].allow_methods@.len() == 3 && res.virtual_hosts@[0].allow_methods@[0]@ == "GET"@
                && res.virtual_hosts@[0].allow_methods@[1]@ == "HEAD"@ && res.virtual_hosts@[0].allow_methods@[2]@ == "POST"@,
            res.virtual_hosts@[0].deny_methods@.len() == 0,
            res.virtual_hosts@[0].basic_auth is None,
            res.modules@.len() == 0,
    {
        let server = ServerSettings {
            name: "Rust Web Server".to_owned(),
            workers: cpu_count(),
            keep_alive: true,
            keep_alive_timeout: 65,
            max_connections: 1024,
            request_timeout: 60,
            send_timeout: 60,
            client_header_timeout: 60,
            client_body_timeout: 60,
        };
        let logging = LoggingSettings {
            level: "info".to_owned(),
            access_log: "logs/access.log".to_owned(),
            error_log: "logs/error.log".to_owned(),
            log_format: "$remote_addr - $remote_user [$time_local] \"$request\" $status $body_bytes_sent".to_owned(),
            buffer_size: 4096,
        };
        let mut index: Vec<String> = Vec::new();
        index.push("index.html".to_owned());
        index.push("index.htm".to_owned());
        let mut gzip_types: Vec<String> = Vec::new();
        gzip_types.push("text/plain".to_owned());
        gzip_types.push("text/html".to_owned());
        gzip_types.push("text/css".to_owned());
        gzip_types.push("application/javascript".to_owned());
        let mut allow_methods: Vec<String> = Vec::new();
        allow_methods.push("GET".to_owned());
        allow_methods.push("HEAD".to_owned());
        allow_methods.push("POST".to_owned());
        let error_pages: HashMap<u16, String> = HashMap::new();
        let host = VirtualHostConfig {
            server_name: "localhost".to_owned(),
            document_root: "www".to_owned(),
            index,
            error_pages,
            locations: Vec::new(),
            aliases: Vec::new(),
            ssl_certificate: None,
            ssl_certificate_key: None,
            enable_php: false,
            enable_cgi: false,
            rewrites: Vec::new(),
            gzip: true,
            gzip_types,
            allow_methods,
            deny_methods: Vec::new(),
            basic_auth: None,
        };
        let mut virtual_hosts: Vec<VirtualHostConfig> = Vec::new();
        virtual_hosts.push(host);
        ServerConfig {
            server,
            security: SecuritySettings::default(),
            logging,
            virtual_hosts,
            modules: Vec::new(),
        }
    }
}

} // verus!
