use vstd::prelude::*;
use crate::config::SecuritySettings;
use crate::message::{header_lookup, opt_text, HttpRequest, HttpResponse};
use crate::net::{IpAddress, IpRange};
use crate::security::firewall::{cidr_range, is_blocked_response, spec_should_block, Firewall, FirewallView};
use crate::security::headers::{add_security_headers, security_header};
use crate::security::rate_limiter::{after_request, check_rate_limit, is_rate_limited_response, spec_client_ip, RateLimiter};
use crate::text::{chars_eq, chars_of, string_set};

verus! {

/// Screening of requests by the firewall and the rate limiter, and security headers on responses.
#[derive(Debug)]
pub struct SecurityModule {
    pub firewall: Firewall,
    pub rate_limiting: bool,
    pub add_security_headers: bool,
    pub security_headers: SecuritySettings,
}

/// Rate limiting as configuration gives it (absent values as `None`).
pub struct RateLimitSettings {
    pub enabled: Option<bool>,
    pub requests: Option<u64>,
    pub window: Option<u64>,
}

/// Firewall rules as configuration gives them: lists absent in the configuration are empty;
/// addresses that do not parse are left out.
pub struct FirewallSettings {
    pub allowed_methods: Vec<String>,
    pub blocked_ips: Vec<IpAddress>,
    pub blocked_ranges: Vec<String>,
    pub blocked_paths: Vec<String>,
    pub detect_attacks: Option<bool>,
}

/// Security headers as configuration gives them (absent values as `None`).
pub struct HeaderSettings {
    pub enabled: Option<bool>,
    pub hsts: Option<bool>,
    pub hsts_max_age: Option<u64>,
    pub xss_protection: Option<bool>,
    pub frame_options: Option<bool>,
    pub content_security_policy: Option<bool>,
    pub csp_value: Option<String>,
}

/// The module's configuration: each part absent when the configuration has no such object.
pub struct SecurityModuleSettings {
    pub rate_limiting: Option<RateLimitSettings>,
    pub firewall: Option<FirewallSettings>,
    pub headers: Option<HeaderSettings>,
}

/// The networks that parse among CIDR texts, in order.
pub open spec fn parsed_ranges(cidrs: Seq<String>) -> Seq<IpRange>
    decreases cidrs.len(),
{
    if cidrs.len() == 0 {
        Seq::empty()
    } else {
        let r = parsed_ranges(cidrs.drop_last());
        match cidr_range(cidrs.last()@) {
            Some(n) => r.push(n),
            None => r,
        }
    }
}

/// The firewall rules once the configured ones are applied.
pub open spec fn configured_firewall(f: FirewallView, s: FirewallSettings) -> FirewallView {
    FirewallView {
        allowed_methods: if s.allowed_methods@.len() > 0 { string_set(s.allowed_methods@) } else { f.allowed_methods },
        blocked_ips: f.blocked_ips.union(s.blocked_ips@.to_set()),
        blocked_ranges: f.blocked_ranges + parsed_ranges(s.blocked_ranges@),
        blocked_paths: f.blocked_paths.union(string_set(s.blocked_paths@)),
        detect_attacks: match s.detect_attacks {
            Some(d) => d,
            None => f.detect_attacks,
        },
        ..f
    }
}

/// An optional value, or a default.
pub open spec fn or_else<T>(o: Option<T>, d: T) -> T {
    match o {
        Some(v) => v,
        None => d,
    }
}

fn apply_firewall_settings(firewall: &mut Firewall, f: &FirewallSettings)
    ensures
        final(firewall)@ == configured_firewall(old(firewall)@, *f),
{
    let ghost start = firewall@;
    if f.allowed_methods.len() > 0 {
        firewall.set_allowed_methods(crate::config::clone_strings(&f.allowed_methods));
    }
    let ghost after_methods = firewall@;
    assert(after_methods.blocked_ips.union(f.blocked_ips@.take(0).to_set()) =~= after_methods.blocked_ips);
    for i in 0..f.blocked_ips.len()
        invariant
            firewall@ == (FirewallView {
                blocked_ips: after_methods.blocked_ips.union(f.blocked_ips@.take(i as int).to_set()),
                ..after_methods
            }),
    {
        proof {
            f.blocked_ips@.take(i as int).lemma_push_to_set_commute(f.blocked_ips@[i as int]);
            assert(f.blocked_ips@.take(i + 1) == f.blocked_ips@.take(i as int).push(f.blocked_ips@[i as int]));
        }
        firewall.block_ip(f.blocked_ips[i]);
        assert(firewall@.blocked_ips =~= after_methods.blocked_ips.union(f.blocked_ips@.take(i + 1).to_set()));
    }
    assert(f.blocked_ips@.take(f.blocked_ips@.len() as int) == f.blocked_ips@);
    let ghost after_ips = firewall@;
    assert(after_ips.blocked_ranges + parsed_ranges(f.blocked_ranges@.take(0)) =~= after_ips.blocked_ranges);
    for i in 0..f.blocked_ranges.len()
        invariant
            firewall@ == (FirewallView {
                blocked_ranges: after_ips.blocked_ranges + parsed_ranges(f.blocked_ranges@.take(i as int)),
                ..after_ips
            }),
    {
        assert(f.blocked_ranges@.take(i + 1).drop_last() == f.blocked_ranges@.take(i as int));
        let _ = firewall.block_ip_range(f.blocked_ranges[i].as_str());
        assert(firewall@.blocked_ranges =~= after_ips.blocked_ranges + parsed_ranges(f.blocked_ranges@.take(i + 1)));
    }
    assert(f.blocked_ranges@.take(f.blocked_ranges@.len() as int) == f.blocked_ranges@);
    let ghost after_ranges = firewall@;
    assert(after_ranges.blocked_paths.union(string_set(f.blocked_paths@.take(0))) =~= after_ranges.blocked_paths);
    for i in 0..f.blocked_paths.len()
        invariant
            firewall@ == (FirewallView {
                blocked_paths: after_ranges.blocked_paths.union(string_set(f.blocked_paths@.take(i as int))),
                ..after_ranges
            }),
    {
        proof {
            crate::text::lemma_string_set_push(f.blocked_paths@.take(i as int), f.blocked_paths@[i as int]);
            assert(f.blocked_paths@.take(i + 1) == f.blocked_paths@.take(i as int).push(f.blocked_paths@[i as int]));
        }
        firewall.block_path(f.blocked_paths[i].as_str());
        assert(firewall@.blocked_paths =~= after_ranges.blocked_paths.union(string_set(f.blocked_paths@.take(i + 1))));
    }
    assert(f.blocked_paths@.take(f.blocked_paths@.len() as int) == f.blocked_paths@);
    if let Some(d) = f.detect_attacks {
        firewall.set_attack_detection(d);
    }
    assert(firewall@ == configured_firewall(start, *f));
}

/// The security header settings with the configured values in place.
pub open spec fn configured_headers(o: SecuritySettings, h: HeaderSettings) -> SecuritySettings {
    SecuritySettings {
        enable_hsts: or_else(h.hsts, o.enable_hsts),
        hsts_max_age: or_else(h.hsts_max_age, o.hsts_max_age),
        enable_xss_protection: or_else(h.xss_protection, o.enable_xss_protection),
        enable_clickjacking_protection: or_else(h.frame_options, o.enable_clickjacking_protection),
        enable_csp: or_else(h.content_security_policy, o.enable_csp),
        content_security_policy: or_else(h.csp_value, o.content_security_policy),
        ..o
    }
}

fn apply_header_settings(settings: &mut SecuritySettings, h: &HeaderSettings)
    ensures
        *final(settings) == configured_headers(*old(settings), *h),
{
    let hsts = match h.hsts { Some(v) => v, None => settings.enable_hsts };
    let hsts_max_age = match h.hsts_max_age { Some(v) => v, None => settings.hsts_max_age };
    let xss = match h.xss_protection { Some(v) => v, None => settings.enable_xss_protection };
    let frames = match h.frame_options { Some(v) => v, None => settings.enable_clickjacking_protection };
    let csp = match h.content_security_policy { Some(v) => v, None => settings.enable_csp };
    let policy = match &h.csp_value { Some(v) => v.clone(), None => settings.content_security_policy.clone() };
    settings.enable_hsts = hsts;
    settings.hsts_max_age = hsts_max_age;
    settings.enable_xss_protection = xss;
    settings.enable_clickjacking_protection = frames;
    settings.enable_csp = csp;
    settings.content_security_policy = policy;
}

impl SecurityModule {
    /// A new firewall, no rate limiting, security headers on with the default settings.
    pub fn new() -> (res: SecurityModule)
        ensures
            res.firewall@.blocked_ips == Set::<IpAddress>::empty(),
            res.firewall@.blocked_ranges == Seq::<IpRange>::empty(),
            res.firewall@.allowed_methods == set!["GET"@, "HEAD"@, "POST"@, "PUT"@, "DELETE"@, "OPTIONS"@],
            res.firewall@.blocked_paths == Set::<Seq<char>>::empty(),
            res.firewall@.path_patterns == Seq::<Seq<char>>::empty(),
            res.firewall@.detect_attacks,
            !res.rate_limiting,
            res.add_security_headers,
            res.security_headers.enable_hsts,
            res.security_headers.hsts_max_age == 31536000,
            res.security_headers.enable_xss_protection,
            res.security_headers.enable_clickjacking_protection,
            res.security_headers.enable_csp,
            res.security_headers.content_security_policy@ == "default-src 'self';"@,
    {
        SecurityModule {
            firewall: Firewall::new(),
            rate_limiting: false,
            add_security_headers: true,
            security_headers: SecuritySettings::default(),
        }
    }

    /// The module's name.
    pub fn name(&self) -> (res: &'static str)
        ensures
            res@ == "security"@,
    {
        "security"
    }

    /// The module with rate limiting on or off.
    pub fn with_rate_limiting(self, enable: bool) -> (res: SecurityModule)
        ensures
            res == (SecurityModule { rate_limiting: enable, ..self }),
    {
        let mut m = self;
        m.rate_limiting = enable;
        m
    }

    /// The module with security headers on or off.
    pub fn with_security_headers(self, enable: bool) -> (res: SecurityModule)
        ensures
            res == (SecurityModule { add_security_headers: enable, ..self }),
    {
        let mut m = self;
        m.add_security_headers = enable;
        m
    }

    /// The module allowing exactly these methods.
    pub fn with_allowed_methods(self, methods: Vec<String>) -> (res: SecurityModule)
        ensures
            res.firewall@ == (FirewallView { allowed_methods: string_set(methods@), ..self.firewall@ }),
            res.rate_limiting == self.rate_limiting,
            res.add_security_headers == self.add_security_headers,
            res.security_headers == self.security_headers,
    {
        let mut m = self;
        m.firewall.set_allowed_methods(methods);
        m
    }

    /// The module blocking an address; an address that did not parse (`None`) changes nothing.
    pub fn block_ip(self, ip: Option<IpAddress>) -> (res: SecurityModule)
        ensures
            res.firewall@ == match ip {
                Some(a) => FirewallView { blocked_ips: self.firewall@.blocked_ips.insert(a), ..self.firewall@ },
                None => self.firewall@,
            },
            res.rate_limiting == self.rate_limiting,
            res.add_security_headers == self.add_security_headers,
            res.security_headers == self.security_headers,
    {
        let mut m = self;
        if let Some(a) = ip {
            m.firewall.block_ip(a);
        }
        m
    }

    /// The module blocking a network; a text that does not parse changes nothing.
    pub fn block_ip_range(self, cidr: &str) -> (res: SecurityModule)
        ensures
            res.firewall@ == match cidr_range(cidr@) {
                Some(r) => FirewallView { blocked_ranges: self.firewall@.blocked_ranges.push(r), ..self.firewall@ },
                None => self.firewall@,
            },
            res.rate_limiting == self.rate_limiting,
            res.add_security_headers == self.add_security_headers,
            res.security_headers == self.security_headers,
    {
        let mut m = self;
        let _ = m.firewall.block_ip_range(cidr);
        m
    }

    /// Applies the configuration. Enabled rate limiting turns the module's rate limiting on and
    /// gives back the limit for the server-wide limiter (requests, default 100, per window of
    /// seconds, default 60); firewall rules are added; header settings replace the current ones.
    pub fn init(&mut self, settings: &SecurityModuleSettings) -> (res: Option<(u64, u64)>)
        ensures
            ({
                let enabled = match settings.rate_limiting {
                    Some(r) => or_else(r.enabled, false),
                    None => false,
                };
                &&& res == if enabled {
                    let r = settings.rate_limiting.unwrap();
                    Some((or_else(r.requests, 100), or_else(r.window, 60)))
                } else {
                    None
                }
                &&& final(self).rate_limiting == (old(self).rate_limiting || enabled)
            }),
            final(self).firewall@ == match settings.firewall {
                Some(f) => configured_firewall(old(self).firewall@, f),
                None => old(self).firewall@,
            },
            final(self).add_security_headers == match settings.headers {
                Some(h) => or_else(h.enabled, old(self).add_security_headers),
                None => old(self).add_security_headers,
            },
            final(self).security_headers == match settings.headers {
                Some(h) => configured_headers(old(self).security_headers, h),
                None => old(self).security_headers,
            },
    {
        let mut limit: Option<(u64, u64)> = None;
        if let Some(r) = &settings.rate_limiting {
            let enabled = match r.enabled { Some(e) => e, None => false };
            if enabled {
                self.rate_limiting = true;
                let requests = match r.requests { Some(q) => q, None => 100 };
                let window = match r.window { Some(w) => w, None => 60 };
                limit = Some((requests, window));
            }
        }
        if let Some(f) = &settings.firewall {
            apply_firewall_settings(&mut self.firewall, f);
        }
        if let Some(h) = &settings.headers {
            if let Some(e) = h.enabled {
                self.add_security_headers = e;
            }
            apply_header_settings(&mut self.security_headers, h);
        }
        limit
    }

    /// Screens a request: a firewall refusal answers with the blocked response; else, with rate
    /// limiting on, a client over the limit of the server-wide limiter answers with 429.
    pub fn pre_process(&self, req: &HttpRequest, limiter: &mut Option<RateLimiter>, now: u64) -> (res: Option<HttpResponse>)
        requires
            match *old(limiter) {
                Some(l) => l.well_formed(),
                None => true,
            },
        ensures
            match spec_should_block(self.firewall@, *req) {
                Some(status) => res matches Some(r) && is_blocked_response(r, status) && *final(limiter) == *old(limiter),
                None => if !self.rate_limiting {
                    res is None && *final(limiter) == *old(limiter)
                } else {
                    match *old(limiter) {
                        None => res is None && *final(limiter) is None,
                        Some(l0) => match spec_client_ip(*req) {
                            None => res is None && *final(limiter) == Some(l0),
                            Some(ip) => {
                                let (trackers, allowed) = after_request(l0@, l0.tracked_count(), ip, now);
                                &&& *final(limiter) matches Some(l1)
                                &&& l1.well_formed()
                                &&& l1@.trackers == trackers
                                &&& l1@.max_requests == l0@.max_requests
                                &&& l1@.window_secs == l0@.window_secs
                                &&& (res is None <==> allowed)
                                &&& (res matches Some(r) ==> is_rate_limited_response(r))
                            },
                        },
                    }
                },
            },
    {
        if let Some(status) = self.firewall.should_block(req) {
            return Some(Firewall::create_blocked_response(status));
        }
        if self.rate_limiting {
            return check_rate_limit(limiter, req, now);
        }
        None
    }

    /// Adds the security headers to a response when they are on; HSTS only for `https` requests.
    pub fn post_process(&self, res: &mut HttpResponse, req: &HttpRequest)
        ensures
            final(res).status == old(res).status,
            final(res).body == old(res).body,
            !self.add_security_headers ==> final(res).headers == old(res).headers,
            self.add_security_headers ==> forall|n: Seq<char>| #[trigger] header_lookup(final(res).headers@, n)
                == match security_header(self.security_headers, opt_text(req.scheme) == Some("https"@), n) {
                    Some(v) => Some(v),
                    None => header_lookup(old(res).headers@, n),
                },
    {
        if self.add_security_headers {
            let https = match &req.scheme {
                Some(s) => chars_eq(&chars_of(s.as_str()), &chars_of("https")),
                None => false,
            };
            add_security_headers(res, &self.security_headers, https);
        }
    }
}

} // verus!
