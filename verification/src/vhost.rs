use vstd::prelude::*;
use vstd::string::StringExecFns;
use std::collections::HashMap;
use crate::config::{
    clone_auth, clone_opt_string, clone_strings, same_auth, BasicAuthConfig, LocationConfig, ServerConfig,
    VirtualHostConfig,
};
use crate::pattern::{compile_pattern, pattern_is_match, regex_compiles, regex_error_text, regex_is_match, CompiledPattern};
use crate::table::{distinct_keys, entries_map, insert_entry};
use crate::text::{chars_of, extend_chars, has_prefix, is_prefix, string_of};

verus! {

/// Why a virtual host could not be set up.
#[derive(Debug)]
pub enum ConfigError {
    /// A location path that looks like a regular expression does not compile (the path).
    InvalidLocationPattern(String),
    /// A rewrite pattern does not compile (the pattern).
    InvalidRewritePattern(String),
    /// The wildcard server name does not give a valid expression (the expression's error).
    InvalidServerName(String),
}

impl ConfigError {
    /// The message of the error.
    pub fn message(&self) -> (res: String)
        ensures
            match self {
                ConfigError::InvalidLocationPattern(p) => res@ == "Invalid location path pattern: "@ + p@,
                ConfigError::InvalidRewritePattern(p) => res@ == "Invalid rewrite pattern: "@ + p@,
                ConfigError::InvalidServerName(e) => res@ == e@,
            },
    {
        match self {
            ConfigError::InvalidLocationPattern(p) => {
                let mut m = "Invalid location path pattern: ".to_owned();
                m.append(p.as_str());
                m
            },
            ConfigError::InvalidRewritePattern(p) => {
                let mut m = "Invalid rewrite pattern: ".to_owned();
                m.append(p.as_str());
                m
            },
            ConfigError::InvalidServerName(e) => e.clone(),
        }
    }
}

/// A virtual host ready to serve: paths resolved, patterns compiled.
#[derive(Debug)]
pub struct VirtualHost {
    pub server_name: String,
    pub document_root: String,
    pub index_files: Vec<String>,
    pub error_pages: HashMap<u16, String>,
    pub locations: Vec<Location>,
    pub aliases: Vec<(String, String)>,
    pub ssl_certificate: Option<String>,
    pub ssl_certificate_key: Option<String>,
    pub enable_php: bool,
    pub enable_cgi: bool,
    pub rewrites: Vec<RewriteRule>,
    pub gzip: bool,
    pub gzip_types: Vec<String>,
    pub allow_methods: Vec<String>,
    pub deny_methods: Vec<String>,
    pub basic_auth: Option<BasicAuthConfig>,
    pub server_name_regex: Option<CompiledPattern>,
}

/// A location of a virtual host.
#[derive(Debug)]
pub struct Location {
    pub path: String,
    pub root: Option<String>,
    pub proxy_pass: Option<String>,
    pub allow_methods: Vec<String>,
    pub deny_methods: Vec<String>,
    pub basic_auth: Option<BasicAuthConfig>,
    pub allow_ips: Vec<String>,
    pub deny_ips: Vec<String>,
    pub path_regex: Option<CompiledPattern>,
}

/// A rewrite rule with its pattern compiled.
#[derive(Debug)]
pub struct RewriteRule {
    pub pattern: CompiledPattern,
    pub target: String,
    pub flags: Vec<String>,
}

/// `p` joined onto `base` as `Path::join` does on Unix: an absolute `p` replaces `base`; an empty
/// `base` gives `p`; otherwise one separator stands between them.
pub open spec fn join_path(base: Seq<char>, p: Seq<char>) -> Seq<char> {
    if p.len() > 0 && p[0] == '/' {
        p
    } else if base.len() == 0 {
        p
    } else if base.last() == '/' {
        base + p
    } else {
        base + seq!['/'] + p
    }
}

/// `p` joined onto `base`.
pub fn join_path_text(base: &str, p: &str) -> (res: String)
    ensures
        res@ == join_path(base@, p@),
{
    let b = chars_of(base);
    let q = chars_of(p);
    if q.len() > 0 && q[0] == '/' {
        return string_of(&q);
    }
    if b.len() == 0 {
        return string_of(&q);
    }
    let mut out = b;
    if out[out.len() - 1] != '/' {
        out.push('/');
    }
    extend_chars(&mut out, &q);
    string_of(&out)
}

fn join_opt(base: &str, p: &Option<String>) -> (res: Option<String>)
    ensures
        match *p {
            Some(s) => res matches Some(r) && r@ == join_path(base@, s@),
            None => res is None,
        },
{
    match p {
        Some(s) => Some(join_path_text(base, s.as_str())),
        None => None,
    }
}

/// A location path is read as a regular expression when it holds `*`, `?`, `(` or `|`.
pub open spec fn looks_like_pattern(path: Seq<char>) -> bool {
    path.contains('*') || path.contains('?') || path.contains('(') || path.contains('|')
}

/// The location a configuration describes, with paths resolved against `base`.
pub open spec fn location_from_config(l: Location, c: LocationConfig, base: Seq<char>) -> bool {
    &&& l.path == c.path
    &&& match c.root {
        Some(r) => l.root matches Some(lr) && lr@ == join_path(base, r@),
        None => l.root is None,
    }
    &&& l.proxy_pass == c.proxy_pass
    &&& l.allow_methods@ == c.allow_methods@
    &&& l.deny_methods@ == c.deny_methods@
    &&& same_auth(l.basic_auth, c.basic_auth)
    &&& l.allow_ips@ == c.allow_ips@
    &&& l.deny_ips@ == c.deny_ips@
    &&& if looks_like_pattern(c.path@) {
        l.path_regex matches Some(p) && p.source() == c.path@
    } else {
        l.path_regex is None
    }
}

fn holds_char(v: &Vec<char>, c: char) -> (res: bool)
    ensures
        res == v@.contains(c),
{
    for i in 0..v.len()
        invariant
            forall|j: int| 0 <= j < i ==> v@[j] != c,
    {
        if v[i] == c {
            return true;
        }
    }
    false
}

impl Location {
    /// A location from its configuration, with its root resolved against `base_path`; a path that
    /// looks like a regular expression is compiled, and refused when it does not compile.
    pub fn new(config: &LocationConfig, base_path: &str) -> (res: Result<Location, ConfigError>)
        ensures
            match res {
                Ok(l) => (!looks_like_pattern(config.path@) || regex_compiles(config.path@))
                    && location_from_config(l, *config, base_path@),
                Err(e) => looks_like_pattern(config.path@) && !regex_compiles(config.path@)
                    && (e matches ConfigError::InvalidLocationPattern(p) && p@ == config.path@),
            },
    {
        let root = join_opt(base_path, &config.root);
        let pc = chars_of(config.path.as_str());
        let looks = holds_char(&pc, '*') || holds_char(&pc, '?') || holds_char(&pc, '(') || holds_char(&pc, '|');
        let path_regex = if looks {
            match compile_pattern(config.path.as_str()) {
                Ok(p) => Some(p),
                Err(_) => return Err(ConfigError::InvalidLocationPattern(config.path.clone())),
            }
        } else {
            None
        };
        Ok(Location {
            path: config.path.clone(),
            root,
            proxy_pass: clone_opt_string(&config.proxy_pass),
            allow_methods: clone_strings(&config.allow_methods),
            deny_methods: clone_strings(&config.deny_methods),
            basic_auth: clone_auth(&config.basic_auth),
            allow_ips: clone_strings(&config.allow_ips),
            deny_ips: clone_strings(&config.deny_ips),
            path_regex,
        })
    }
}

/// The expression a wildcard server name stands for, without anchors: each `.` escaped as `\.`,
/// each `*` as `.*`, every other character itself.
pub open spec fn wildcard_body(name: Seq<char>) -> Seq<char>
    decreases name.len(),
{
    if name.len() == 0 {
        Seq::empty()
    } else {
        let r = wildcard_body(name.drop_last());
        let c = name.last();
        if c == '.' {
            r + seq!['\\', '.']
        } else if c == '*' {
            r + seq!['.', '*']
        } else {
            r.push(c)
        }
    }
}

/// The anchored expression `^<body>$` a wildcard server name stands for.
pub open spec fn wildcard_pattern(name: Seq<char>) -> Seq<char> {
    seq!['^'] + wildcard_body(name) + seq!['$']
}

fn wildcard_pattern_text(name: &Vec<char>) -> (res: String)
    ensures
        res@ == wildcard_pattern(name@),
{
    let mut out: Vec<char> = vec!['^'];
    for i in 0..name.len()
        invariant
            out@ == seq!['^'] + wildcard_body(name@.take(i as int)),
    {
        assert(name@.take(i + 1).drop_last() == name@.take(i as int));
        let c = name[i];
        if c == '.' {
            out.push('\\');
            out.push('.');
        } else if c == '*' {
            out.push('.');
            out.push('*');
        } else {
            out.push(c);
        }
        assert(out@ =~= seq!['^'] + wildcard_body(name@.take(i + 1)));
    }
    assert(name@.take(name@.len() as int) == name@);
    out.push('$');
    string_of(&out)
}

/// Every location of the configuration that looks like a pattern compiles.
pub open spec fn locations_ok(locs: Seq<LocationConfig>) -> bool {
    forall|i: int| 0 <= i < locs.len() ==> !looks_like_pattern(#[trigger] locs[i].path@) || regex_compiles(locs[i].path@)
}

/// Every rewrite pattern of the configuration compiles.
pub open spec fn rewrites_ok(rules: Seq<crate::config::RewriteRule>) -> bool {
    forall|i: int| 0 <= i < rules.len() ==> regex_compiles(#[trigger] rules[i].pattern@)
}

/// The server name is plain, or its wildcard expression compiles.
pub open spec fn server_name_ok(name: Seq<char>) -> bool {
    !name.contains('*') || regex_compiles(wildcard_pattern(name))
}

/// A virtual host can be set up from the configuration.
pub open spec fn vhost_config_ok(c: VirtualHostConfig) -> bool {
    locations_ok(c.locations@) && rewrites_ok(c.rewrites@) && server_name_ok(c.server_name@)
}

/// The map of aliases (later entries replace earlier ones of the same path).
pub open spec fn alias_map(aliases: Seq<crate::config::AliasConfig>) -> Map<Seq<char>, Seq<char>>
    decreases aliases.len(),
{
    if aliases.len() == 0 {
        Map::empty()
    } else {
        alias_map(aliases.drop_last()).insert(aliases.last().path@, aliases.last().alias@)
    }
}

/// A virtual host as `VirtualHost::new` builds it from configuration `c` against `base`: the
/// document root and certificate paths resolved against `base`, locations built (their roots
/// resolved against the document root), aliases gathered, rewrite patterns compiled, and a wildcard
/// server name turned into `^...$` with `.` escaped and `*` as `.*`.
pub open spec fn vhost_from_config(v: VirtualHost, c: VirtualHostConfig, base: Seq<char>) -> bool {
    let root = join_path(base, c.document_root@);
    &&& v.server_name == c.server_name
    &&& v.document_root@ == root
    &&& v.index_files@ == c.index@
    &&& v.error_pages@ == c.error_pages@
    &&& v.locations@.len() == c.locations@.len()
    &&& forall|i: int| 0 <= i < v.locations@.len()
        ==> location_from_config(#[trigger] v.locations@[i], c.locations@[i], root)
    &&& distinct_keys(v.aliases@)
    &&& entries_map(v.aliases@) == alias_map(c.aliases@)
    &&& match c.ssl_certificate {
        Some(f) => v.ssl_certificate matches Some(p) && p@ == join_path(base, f@),
        None => v.ssl_certificate is None,
    }
    &&& match c.ssl_certificate_key {
        Some(f) => v.ssl_certificate_key matches Some(p) && p@ == join_path(base, f@),
        None => v.ssl_certificate_key is None,
    }
    &&& v.enable_php == c.enable_php
    &&& v.enable_cgi == c.enable_cgi
    &&& v.rewrites@.len() == c.rewrites@.len()
    &&& forall|i: int| 0 <= i < v.rewrites@.len() ==> {
        &&& (#[trigger] v.rewrites@[i]).pattern.source() == c.rewrites@[i].pattern@
        &&& v.rewrites@[i].target == c.rewrites@[i].target
        &&& v.rewrites@[i].flags@ == c.rewrites@[i].flags@
    }
    &&& v.gzip == c.gzip
    &&& v.gzip_types@ == c.gzip_types@
    &&& v.allow_methods@ == c.allow_methods@
    &&& v.deny_methods@ == c.deny_methods@
    &&& same_auth(v.basic_auth, c.basic_auth)
    &&& v.name_pattern() == if c.server_name@.contains('*') {
        Some(wildcard_pattern(c.server_name@))
    } else {
        None
    }
}

impl VirtualHost {
    /// The expression the server name stands for, if it is a wildcard name.
    pub closed spec fn name_pattern(&self) -> Option<Seq<char>> {
        match self.server_name_regex {
            Some(p) => Some(p.source()),
            None => None,
        }
    }

    /// A virtual host from its configuration: the document root and certificate paths resolved
    /// against `base_path`, locations built (their roots resolved against the document root),
    /// aliases gathered, rewrite patterns compiled, and a wildcard server name turned into
    /// `^...$` with `.` escaped and `*` as `.*`. The first location, then rewrite, then server name
    /// that does not compile is refused.
    pub fn new(config: &VirtualHostConfig, base_path: &str) -> (res: Result<VirtualHost, ConfigError>)
        ensures
            res is Ok <==> vhost_config_ok(*config),
            res matches Ok(v) ==> vhost_from_config(v, *config, base_path@),
            res matches Err(e) ==> match e {
                ConfigError::InvalidLocationPattern(p) => !locations_ok(config.locations@),
                ConfigError::InvalidRewritePattern(p) => locations_ok(config.locations@) && !rewrites_ok(config.rewrites@),
                ConfigError::InvalidServerName(m) => locations_ok(config.locations@) && rewrites_ok(config.rewrites@)
                    && !server_name_ok(config.server_name@),
            },
    {
        let document_root = join_path_text(base_path, config.document_root.as_str());
        let mut locations: Vec<Location> = Vec::new();
        for i in 0..config.locations.len()
            invariant
                document_root@ == join_path(base_path@, config.document_root@),
                locations@.len() == i,
                locations_ok(config.locations@.take(i as int)),
                forall|j: int| 0 <= j < i ==> location_from_config(#[trigger] locations@[j], config.locations@[j], document_root@),
        {
            match Location::new(&config.locations[i], document_root.as_str()) {
                Ok(l) => {
                    locations.push(l);
                    assert(locations_ok(config.locations@.take(i + 1))) by {
                        assert forall|j: int| 0 <= j < i + 1 implies !looks_like_pattern(#[trigger] config.locations@.take(i + 1)[j].path@)
                            || regex_compiles(config.locations@.take(i + 1)[j].path@) by {
                            if j < i {
                                assert(config.locations@.take(i + 1)[j] == config.locations@.take(i as int)[j]);
                            }
                        }
                    }
                },
                Err(e) => {
                    assert(!locations_ok(config.locations@)) by {
                        assert(!(!looks_like_pattern(config.locations@[i as int].path@) || regex_compiles(config.locations@[i as int].path@)));
                    }
                    return Err(e);
                },
            }
        }
        assert(config.locations@.take(config.locations@.len() as int) == config.locations@);
        let mut aliases: Vec<(String, String)> = Vec::new();
        for i in 0..config.aliases.len()
            invariant
                distinct_keys(aliases@),
                entries_map(aliases@) == alias_map(config.aliases@.take(i as int)),
        {
            assert(config.aliases@.take(i + 1).drop_last() == config.aliases@.take(i as int));
            insert_entry(&mut aliases, config.aliases[i].path.clone(), config.aliases[i].alias.clone());
        }
        assert(config.aliases@.take(config.aliases@.len() as int) == config.aliases@);
        assert(alias_map(Seq::<crate::config::AliasConfig>::empty()) == Map::<Seq<char>, Seq<char>>::empty());
        let ssl_certificate = join_opt(base_path, &config.ssl_certificate);
        let ssl_certificate_key = join_opt(base_path, &config.ssl_certificate_key);
        let mut rewrites: Vec<RewriteRule> = Vec::new();
        for i in 0..config.rewrites.len()
            invariant
                locations_ok(config.locations@),
                rewrites@.len() == i,
                forall|j: int| 0 <= j < i ==> regex_compiles(#[trigger] config.rewrites@[j].pattern@),
                forall|j: int| 0 <= j < i ==> {
                    &&& (#[trigger] rewrites@[j]).pattern.source() == config.rewrites@[j].pattern@
                    &&& rewrites@[j].target == config.rewrites@[j].target
                    &&& rewrites@[j].flags@ == config.rewrites@[j].flags@
                },
        {
            match compile_pattern(config.rewrites[i].pattern.as_str()) {
                Ok(p) => {
                    rewrites.push(RewriteRule {
                        pattern: p,
                        target: config.rewrites[i].target.clone(),
                        flags: clone_strings(&config.rewrites[i].flags),
                    });
                },
                Err(_) => {
                    return Err(ConfigError::InvalidRewritePattern(config.rewrites[i].pattern.clone()));
                },
            }
        }
        let name_chars = chars_of(config.server_name.as_str());
        let server_name_regex = if holds_char(&name_chars, '*') {
            let pattern = wildcard_pattern_text(&name_chars);
            match compile_pattern(pattern.as_str()) {
                Ok(p) => Some(p),
                Err(e) => return Err(ConfigError::InvalidServerName(e)),
            }
        } else {
            None
        };
        Ok(VirtualHost {
            server_name: config.server_name.clone(),
            document_root,
            index_files: clone_strings(&config.index),
            error_pages: config.error_pages.clone(),
            locations,
            aliases,
            ssl_certificate,
            ssl_certificate_key,
            enable_php: config.enable_php,
            enable_cgi: config.enable_cgi,
            rewrites,
            gzip: config.gzip,
            gzip_types: clone_strings(&config.gzip_types),
            allow_methods: clone_strings(&config.allow_methods),
            deny_methods: clone_strings(&config.deny_methods),
            basic_auth: clone_auth(&config.basic_auth),
            server_name_regex,
        })
    }
}


/// The host answers to `name`: its server name is `name`, or its wildcard expression matches it.
pub open spec fn spec_matches_server_name(v: VirtualHost, name: Seq<char>) -> bool {
    v.server_name@ == name || (v.name_pattern() matches Some(p) && regex_is_match(p, name))
}

/// A location matched by prefix: its path ends with `/` and begins the request path.
pub open spec fn is_prefix_location(l: Location, path: Seq<char>) -> bool {
    l.path@.len() > 0 && l.path@.last() == '/' && is_prefix(l.path@, path)
}

/// The location matched by pattern: it has a compiled pattern and that pattern matches the path.
pub open spec fn is_pattern_location(l: Location, path: Seq<char>) -> bool {
    l.path_regex matches Some(p) && regex_is_match(p.source(), path)
}

/// The first index of `locs` whose path is `path`.
pub open spec fn exact_location(locs: Seq<Location>, path: Seq<char>) -> Option<int> {
    if exists|i: int| 0 <= i < locs.len() && locs[i].path@ == path {
        Some(choose|i: int| 0 <= i < locs.len() && locs[i].path@ == path && forall|j: int| 0 <= j < i ==> locs[j].path@ != path)
    } else {
        None
    }
}

/// The prefix location with the longest path, the earliest of those when several are as long.
pub open spec fn best_prefix_location(locs: Seq<Location>, path: Seq<char>) -> Option<int> {
    if exists|i: int| 0 <= i < locs.len() && is_prefix_location(locs[i], path) {
        Some(choose|i: int| 0 <= i < locs.len() && is_prefix_location(locs[i], path)
            && forall|j: int| 0 <= j < locs.len() && is_prefix_location(#[trigger] locs[j], path)
                ==> locs[j].path@.len() < locs[i].path@.len() || (locs[j].path@.len() == locs[i].path@.len() && i <= j))
    } else {
        None
    }
}

/// The first location whose pattern matches the path.
pub open spec fn pattern_location(locs: Seq<Location>, path: Seq<char>) -> Option<int> {
    if exists|i: int| 0 <= i < locs.len() && is_pattern_location(locs[i], path) {
        Some(choose|i: int| 0 <= i < locs.len() && is_pattern_location(locs[i], path)
            && forall|j: int| 0 <= j < i ==> !is_pattern_location(#[trigger] locs[j], path))
    } else {
        None
    }
}

/// The location serving `path`: an exact match first, then the longest prefix location, then the
/// first location whose pattern matches.
pub open spec fn spec_find_location(locs: Seq<Location>, path: Seq<char>) -> Option<int> {
    match exact_location(locs, path) {
        Some(i) => Some(i),
        None => match best_prefix_location(locs, path) {
            Some(i) => Some(i),
            None => pattern_location(locs, path),
        },
    }
}

fn find_exact(locs: &Vec<Location>, path: &String) -> (res: Option<usize>)
    ensures
        match res {
            Some(i) => exact_location(locs@, path@) == Some(i as int) && i < locs@.len(),
            None => exact_location(locs@, path@) is None,
        },
{
    for i in 0..locs.len()
        invariant
            forall|j: int| 0 <= j < i ==> locs@[j].path@ != path@,
    {
        if locs[i].path == *path {
            proof {
                let k = choose|k: int| 0 <= k < locs@.len() && locs@[k].path@ == path@ && forall|j: int| 0 <= j < k ==> locs@[j].path@ != path@;
                if k < i {
                } else if k > i {
                    assert(locs@[i as int].path@ == path@);
                }
            }
            return Some(i);
        }
    }
    None
}

#[verifier::spinoff_prover]
#[verifier::rlimit(30)]
fn find_best_prefix(locs: &Vec<Location>, path: &Vec<char>) -> (res: Option<usize>)
    ensures
        match res {
            Some(i) => best_prefix_location(locs@, path@) == Some(i as int) && i < locs@.len(),
            None => best_prefix_location(locs@, path@) is None,
        },
{
    let mut best: Option<usize> = None;
    for i in 0..locs.len()
        invariant
            match best {
                Some(b) => b < i && is_prefix_location(locs@[b as int], path@)
                    && forall|j: int| 0 <= j < i && is_prefix_location(#[trigger] locs@[j], path@)
                        ==> locs@[j].path@.len() < locs@[b as int].path@.len()
                            || (locs@[j].path@.len() == locs@[b as int].path@.len() && b <= j),
                None => forall|j: int| 0 <= j < i ==> !is_prefix_location(#[trigger] locs@[j], path@),
            },
    {
        let lp = chars_of(locs[i].path.as_str());
        let cand = lp.len() > 0 && lp[lp.len() - 1] == '/' && has_prefix(path, &lp);
        if cand {
            match best {
                Some(b) => {
                    if chars_of(locs[b].path.as_str()).len() < lp.len() {
                        best = Some(i);
                    }
                },
                None => {
                    best = Some(i);
                },
            }
        }
    }
    proof {
        match best {
            Some(b) => {
                let k = choose|k: int| 0 <= k < locs@.len() && is_prefix_location(locs@[k], path@)
                    && forall|j: int| 0 <= j < locs@.len() && is_prefix_location(#[trigger] locs@[j], path@)
                        ==> locs@[j].path@.len() < locs@[k].path@.len() || (locs@[j].path@.len() == locs@[k].path@.len() && k <= j);
                assert(is_prefix_location(locs@[b as int], path@));
                assert(k == b as int);
            },
            None => {},
        }
    }
    best
}

fn find_pattern(locs: &Vec<Location>, path: &str) -> (res: Option<usize>)
    ensures
        match res {
            Some(i) => pattern_location(locs@, path@) == Some(i as int) && i < locs@.len(),
            None => pattern_location(locs@, path@) is None,
        },
{
    for i in 0..locs.len()
        invariant
            forall|j: int| 0 <= j < i ==> !is_pattern_location(#[trigger] locs@[j], path@),
    {
        if let Some(p) = &locs[i].path_regex {
            if pattern_is_match(p, path) {
                proof {
                    assert(is_pattern_location(locs@[i as int], path@));
                    let k = choose|k: int| 0 <= k < locs@.len() && is_pattern_location(locs@[k], path@)
                        && forall|j: int| 0 <= j < k ==> !is_pattern_location(#[trigger] locs@[j], path@);
                    if k > i {
                        assert(!is_pattern_location(locs@[i as int], path@));
                    }
                }
                return Some(i);
            }
        }
    }
    None
}

impl VirtualHost {
    /// Whether this host answers to `server_name`.
    pub fn matches_server_name(&self, server_name: &str) -> (res: bool)
        ensures
            res == spec_matches_server_name(*self, server_name@),
    {
        if self.server_name == server_name.to_owned() {
            return true;
        }
        match &self.server_name_regex {
            Some(p) => pattern_is_match(p, server_name),
            None => false,
        }
    }

    /// The location serving `path`.
    pub fn find_location(&self, path: &str) -> (res: Option<&Location>)
        ensures
            match spec_find_location(self.locations@, path@) {
                Some(i) => res matches Some(l) && *l == self.locations@[i],
                None => res is None,
            },
    {
        let p = path.to_owned();
        if let Some(i) = find_exact(&self.locations, &p) {
            return Some(&self.locations[i]);
        }
        let pc = chars_of(path);
        if let Some(i) = find_best_prefix(&self.locations, &pc) {
            return Some(&self.locations[i]);
        }
        if let Some(i) = find_pattern(&self.locations, path) {
            return Some(&self.locations[i]);
        }
        None
    }

    /// The error page configured for a status code.
    pub fn get_error_page(&self, status_code: u16) -> (res: Option<&String>)
        ensures
            match res {
                Some(p) => self.error_pages@.contains_key(status_code) && self.error_pages@[status_code] == *p,
                None => !self.error_pages@.contains_key(status_code),
            },
    {
        broadcast use vstd::std_specs::hash::group_hash_axioms;
        self.error_pages.get(&status_code)
    }
}

/// The host for a server name: the first host whose name is exactly it, else the first host that
/// answers to it, else the first host.
pub open spec fn spec_find_virtual_host(vhosts: Seq<VirtualHost>, name: Seq<char>) -> Option<int> {
    if exists|i: int| 0 <= i < vhosts.len() && vhosts[i].server_name@ == name {
        Some(choose|i: int| 0 <= i < vhosts.len() && vhosts[i].server_name@ == name
            && forall|j: int| 0 <= j < i ==> vhosts[j].server_name@ != name)
    } else if exists|i: int| 0 <= i < vhosts.len() && spec_matches_server_name(vhosts[i], name) {
        Some(choose|i: int| 0 <= i < vhosts.len() && spec_matches_server_name(vhosts[i], name)
            && forall|j: int| 0 <= j < i ==> !spec_matches_server_name(#[trigger] vhosts[j], name))
    } else if vhosts.len() > 0 {
        Some(0)
    } else {
        None
    }
}

/// The best host for a server name.
pub fn find_virtual_host<'a>(vhosts: &'a [VirtualHost], server_name: &str) -> (res: Option<&'a VirtualHost>)
    ensures
        match spec_find_virtual_host(vhosts@, server_name@) {
            Some(i) => res matches Some(v) && *v == vhosts@[i],
            None => res is None,
        },
{
    let name = server_name.to_owned();
    for i in 0..vhosts.len()
        invariant
            name@ == server_name@,
            forall|j: int| 0 <= j < i ==> vhosts@[j].server_name@ != server_name@,
    {
        if vhosts[i].server_name == name {
            proof {
                let k = choose|k: int| 0 <= k < vhosts@.len() && vhosts@[k].server_name@ == server_name@
                    && forall|j: int| 0 <= j < k ==> vhosts@[j].server_name@ != server_name@;
                if k > i {
                    assert(vhosts@[i as int].server_name@ == server_name@);
                }
            }
            return Some(&vhosts[i]);
        }
    }
    for i in 0..vhosts.len()
        invariant
            forall|j: int| 0 <= j < vhosts@.len() ==> vhosts@[j].server_name@ != server_name@,
            forall|j: int| 0 <= j < i ==> !spec_matches_server_name(#[trigger] vhosts@[j], server_name@),
    {
        if vhosts[i].matches_server_name(server_name) {
            proof {
                let k = choose|k: int| 0 <= k < vhosts@.len() && spec_matches_server_name(vhosts@[k], server_name@)
                    && forall|j: int| 0 <= j < k ==> !spec_matches_server_name(#[trigger] vhosts@[j], server_name@);
                if k > i {
                    assert(!spec_matches_server_name(vhosts@[i as int], server_name@));
                }
            }
            return Some(&vhosts[i]);
        }
    }
    if vhosts.len() > 0 {
        Some(&vhosts[0])
    } else {
        None
    }
}

/// The virtual hosts of a configuration, each resolved against the current directory `.`; the
/// first one that cannot be set up is refused.
pub fn load_virtual_hosts(config: &ServerConfig) -> (res: Result<Vec<VirtualHost>, ConfigError>)
    ensures
        res is Ok <==> forall|i: int| 0 <= i < config.virtual_hosts@.len() ==> vhost_config_ok(#[trigger] config.virtual_hosts@[i]),
        res matches Ok(v) ==> v@.len() == config.virtual_hosts@.len() && forall|i: int| 0 <= i < v@.len()
            ==> vhost_from_config(#[trigger] v@[i], config.virtual_hosts@[i], "."@),
{
    let mut vhosts: Vec<VirtualHost> = Vec::new();
    for i in 0..config.virtual_hosts.len()
        invariant
            vhosts@.len() == i,
            forall|j: int| 0 <= j < i ==> vhost_config_ok(#[trigger] config.virtual_hosts@[j]),
            forall|j: int| 0 <= j < i ==> vhost_from_config(#[trigger] vhosts@[j], config.virtual_hosts@[j], "."@),
    {
        match VirtualHost::new(&config.virtual_hosts[i], ".") {
            Ok(v) => vhosts.push(v),
            Err(e) => return Err(e),
        }
    }
    Ok(vhosts)
}

} // verus!
