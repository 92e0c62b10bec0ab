use vstd::prelude::*;
use vstd::string::StringExecFns;
use crate::config::SecuritySettings;
use crate::message::{header_lookup, header_text, header_value_is_valid, spec_header_text, valid_header_value, HttpResponse};
use crate::random::{random_below, thread_rng};
use crate::text::{chars_of, decimal, extend_chars, is_prefix, lemma_decimal_all_digits, lemma_parse_decimal, parse_unsigned, string_of, u64_to_string};

verus! {

/// The value of each security header that `add_security_headers` sets, by header name.
pub open spec fn security_header(security: SecuritySettings, is_https: bool, name: Seq<char>) -> Option<Seq<char>> {
    if name == "x-content-type-options"@ {
        Some("nosniff"@)
    } else if name == "x-xss-protection"@ && security.enable_xss_protection {
        Some("1; mode=block"@)
    } else if name == "x-frame-options"@ && security.enable_clickjacking_protection {
        Some("SAMEORIGIN"@)
    } else if name == "content-security-policy"@ && security.enable_csp {
        if valid_header_value(security.content_security_policy@) {
            Some(security.content_security_policy@)
        } else {
            Some("default-src 'self';"@)
        }
    } else if name == "strict-transport-security"@ && is_https && security.enable_hsts {
        Some("max-age="@ + decimal(security.hsts_max_age as nat) + "; includeSubDomains"@)
    } else if name == "referrer-policy"@ {
        Some("strict-origin-when-cross-origin"@)
    } else if name == "permissions-policy"@ {
        Some("camera=(), microphone=(), geolocation=(), interest-cohort=()"@)
    } else {
        None
    }
}

/// On HTTPS with HSTS on, the `strict-transport-security` value carries the configured max-age:
/// it is `max-age=`, then digits that read back as `hsts_max_age`, then `; includeSubDomains`.
pub proof fn hsts_value_carries_the_configured_max_age(security: SecuritySettings)
    requires
        security.enable_hsts,
    ensures
        security_header(security, true, "strict-transport-security"@) matches Some(v)
            && v.len() > 27
            && v.subrange(0, 8) == "max-age="@
            && v.skip(v.len() - 19) == "; includeSubDomains"@
            && parse_unsigned(v.subrange(8, v.len() - 19), u64::MAX as nat) == Some(security.hsts_max_age as nat),
{
    reveal_strlit("max-age=");
    reveal_strlit("; includeSubDomains");
    reveal_strlit("strict-transport-security");
    reveal_strlit("x-content-type-options");
    reveal_strlit("x-xss-protection");
    reveal_strlit("x-frame-options");
    reveal_strlit("content-security-policy");
    let d = decimal(security.hsts_max_age as nat);
    lemma_decimal_all_digits(security.hsts_max_age as nat);
    lemma_parse_decimal(security.hsts_max_age as nat, u64::MAX as nat);
    let v = "max-age="@ + d + "; includeSubDomains"@;
    assert("strict-transport-security"@.len() == 25);
    assert("x-content-type-options"@.len() == 22);
    assert("x-xss-protection"@.len() == 16);
    assert("x-frame-options"@.len() == 15);
    assert("content-security-policy"@.len() == 23);
    assert(security_header(security, true, "strict-transport-security"@) == Some(v));
    assert(v.len() > 27);
    assert(v.subrange(0, 8) =~= "max-age="@);
    assert(v.skip(v.len() - 19) =~= "; includeSubDomains"@);
    assert(v.subrange(8, v.len() - 19) =~= d);
}

/// Each optional security header is set exactly when its setting is on (HSTS only over HTTPS), and
/// the policy header carries the configured policy whenever that can stand in a header; the
/// headers that are always set are set whatever the settings.
pub proof fn security_headers_follow_the_settings(security: SecuritySettings, is_https: bool)
    ensures
        security_header(security, is_https, "x-xss-protection"@) is Some == security.enable_xss_protection,
        security_header(security, is_https, "x-frame-options"@) is Some == security.enable_clickjacking_protection,
        security_header(security, is_https, "content-security-policy"@) is Some == security.enable_csp,
        security_header(security, is_https, "strict-transport-security"@) is Some == (is_https && security.enable_hsts),
        security.enable_csp && valid_header_value(security.content_security_policy@)
            ==> security_header(security, is_https, "content-security-policy"@) == Some(security.content_security_policy@),
        security_header(security, is_https, "x-content-type-options"@) is Some,
        security_header(security, is_https, "referrer-policy"@) is Some,
        security_header(security, is_https, "permissions-policy"@) is Some,
{
    reveal_strlit("strict-transport-security");
    reveal_strlit("x-content-type-options");
    reveal_strlit("x-xss-protection");
    reveal_strlit("x-frame-options");
    reveal_strlit("content-security-policy");
    reveal_strlit("referrer-policy");
    reveal_strlit("permissions-policy");
    assert("x-content-type-options"@.len() == 22);
    assert("x-xss-protection"@.len() == 16);
    assert("x-frame-options"@.len() == 15);
    assert("content-security-policy"@.len() == 23);
    assert("strict-transport-security"@.len() == 25);
    assert("referrer-policy"@.len() == 15);
    assert("permissions-policy"@.len() == 18);
    assert("referrer-policy"@[0] != "x-frame-options"@[0]);
}

/// Two settings that differ in their max-age give different `strict-transport-security` values.
pub proof fn hsts_value_follows_the_max_age(a: SecuritySettings, b: SecuritySettings)
    requires
        a.enable_hsts,
        b.enable_hsts,
        a.hsts_max_age != b.hsts_max_age,
    ensures
        security_header(a, true, "strict-transport-security"@) != security_header(b, true, "strict-transport-security"@),
{
    hsts_value_carries_the_configured_max_age(a);
    hsts_value_carries_the_configured_max_age(b);
}

/// Sets the security headers that the settings ask for on a response: `nosniff` always, XSS
/// protection, frame options and content security policy when enabled, HSTS on HTTPS when enabled,
/// and the referrer and permissions policies always. Every other header, the status and the body
/// stay as they were.
pub fn add_security_headers(res: &mut HttpResponse, security: &SecuritySettings, is_https: bool)
    ensures
        final(res).status == old(res).status,
        final(res).body == old(res).body,
        forall|n: Seq<char>| #[trigger] header_lookup(final(res).headers@, n) == match security_header(*security, is_https, n) {
            Some(v) => Some(v),
            None => header_lookup(old(res).headers@, n),
        },
{
    proof {
        reveal_strlit("x-content-type-options");
        reveal_strlit("x-xss-protection");
        reveal_strlit("x-frame-options");
        reveal_strlit("content-security-policy");
        reveal_strlit("strict-transport-security");
        reveal_strlit("referrer-policy");
        reveal_strlit("permissions-policy");
        assert("x-content-type-options"@.len() == 22);
        assert("x-xss-protection"@.len() == 16);
        assert("x-frame-options"@.len() == 15);
        assert("content-security-policy"@.len() == 23);
        assert("strict-transport-security"@.len() == 25);
        assert("referrer-policy"@.len() == 15);
        assert("permissions-policy"@.len() == 18);
        assert("referrer-policy"@[0] != "x-frame-options"@[0]);
    }
    let ghost h0 = res.headers@;
    res.set_header("x-content-type-options".to_owned(), "nosniff".to_owned());
    let ghost h1 = res.headers@;
    if security.enable_xss_protection {
        res.set_header("x-xss-protection".to_owned(), "1; mode=block".to_owned());
    }
    let ghost h2 = res.headers@;
    if security.enable_clickjacking_protection {
        res.set_header("x-frame-options".to_owned(), "SAMEORIGIN".to_owned());
    }
    let ghost h3 = res.headers@;
    if security.enable_csp {
        let value = if header_value_is_valid(security.content_security_policy.as_str()) {
            security.content_security_policy.clone()
        } else {
            "default-src 'self';".to_owned()
        };
        res.set_header("content-security-policy".to_owned(), value);
    }
    let ghost h4 = res.headers@;
    if is_https && security.enable_hsts {
        let mut value = "max-age=".to_owned();
        value.append(u64_to_string(security.hsts_max_age).as_str());
        value.append("; includeSubDomains");
        res.set_header("strict-transport-security".to_owned(), value);
    }
    let ghost h5 = res.headers@;
    res.set_header("referrer-policy".to_owned(), "strict-origin-when-cross-origin".to_owned());
    let ghost h6 = res.headers@;
    res.set_header(
        "permissions-policy".to_owned(),
        "camera=(), microphone=(), geolocation=(), interest-cohort=()".to_owned(),
    );
    proof {
        assert forall|n: Seq<char>| #[trigger] header_lookup(res.headers@, n) == match security_header(*security, is_https, n) {
            Some(v) => Some(v),
            None => header_lookup(h0, n),
        } by {
            assert(header_lookup(h1, n) == if n == "x-content-type-options"@ { Some("nosniff"@) } else { header_lookup(h0, n) });
            assert(header_lookup(h2, n) == if n == "x-xss-protection"@ && security.enable_xss_protection { Some("1; mode=block"@) } else { header_lookup(h1, n) });
            assert(header_lookup(h3, n) == if n == "x-frame-options"@ && security.enable_clickjacking_protection { Some("SAMEORIGIN"@) } else { header_lookup(h2, n) });
            assert(header_lookup(h4, n) == if n == "content-security-policy"@ && security.enable_csp { security_header(*security, is_https, "content-security-policy"@) } else { header_lookup(h3, n) });
            assert(header_lookup(h5, n) == if n == "strict-transport-security"@ && is_https && security.enable_hsts { security_header(*security, is_https, "strict-transport-security"@) } else { header_lookup(h4, n) });
            assert(header_lookup(h6, n) == if n == "referrer-policy"@ { Some("strict-origin-when-cross-origin"@) } else { header_lookup(h5, n) });
        }
    }
}

/// The token presented in the request: the `X-CSRF-Token` header if present, else `X-XSRF-Token`;
/// it matches when the chosen header's value is visible ASCII and equals `token`.
pub open spec fn spec_verify_csrf_token(csrf: Option<Seq<u8>>, xsrf: Option<Seq<u8>>, token: Seq<char>) -> bool {
    let chosen = match csrf {
        Some(b) => Some(b),
        None => xsrf,
    };
    match chosen {
        Some(b) => spec_header_text(b) == Some(token),
        None => false,
    }
}

/// Checks the CSRF token of a request, given the raw values of its `X-CSRF-Token` and
/// `X-XSRF-Token` headers when present.
pub fn verify_csrf_token(csrf_header: Option<&[u8]>, xsrf_header: Option<&[u8]>, token: &str) -> (res: bool)
    ensures
        res == spec_verify_csrf_token(
            match csrf_header { Some(b) => Some(b@), None => None },
            match xsrf_header { Some(b) => Some(b@), None => None },
            token@,
        ),
{
    let chosen = match csrf_header {
        Some(b) => Some(b),
        None => xsrf_header,
    };
    match chosen {
        Some(b) => match header_text(b) {
            Some(t) => t.as_str().to_owned() == token.to_owned(),
            None => false,
        },
        None => false,
    }
}

/// `s` with every leading occurrence of the non-empty `p` removed, as `trim_start_matches` does.
pub open spec fn trim_start_all(s: Seq<char>, p: Seq<char>) -> Seq<char>
    decreases s.len(),
{
    if p.len() > 0 && is_prefix(p, s) {
        trim_start_all(s.skip(p.len() as int), p)
    } else {
        s
    }
}

/// `p` is a suffix of `s`.
pub open spec fn is_suffix(p: Seq<char>, s: Seq<char>) -> bool {
    p.len() <= s.len() && s.skip(s.len() - p.len()) == p
}

/// Whether one allowed-origin entry admits `origin`: an entry `*.<domain>` (all leading `*.`
/// removed) admits the subdomains of the domain, that is every origin that ends with `.` and the
/// domain, and the domain itself; any other entry admits only itself.
pub open spec fn origin_entry_allows(entry: Seq<char>, origin: Seq<char>) -> bool {
    if is_prefix(seq!['*', '.'], entry) {
        let domain = trim_start_all(entry, seq!['*', '.']);
        is_suffix(seq!['.'] + domain, origin) || origin == domain
    } else {
        origin == entry
    }
}

/// An origin is allowed when the list holds `*`, or some entry admits it.
pub open spec fn spec_is_origin_allowed(origin: Seq<char>, allowed: Seq<String>) -> bool {
    (exists|i: int| 0 <= i < allowed.len() && allowed[i]@ == seq!['*'])
        || (exists|i: int| 0 <= i < allowed.len() && origin_entry_allows(#[trigger] allowed[i]@, origin))
}

fn trim_star_dot(s: &Vec<char>) -> (res: Vec<char>)
    ensures
        res@ == trim_start_all(s@, seq!['*', '.']),
{
    let mut i: usize = 0;
    assert(s@.skip(0) == s@);
    while i < s.len() && s.len() - i >= 2 && s[i] == '*' && s[i + 1] == '.'
        invariant
            i <= s.len(),
            trim_start_all(s@, seq!['*', '.']) == trim_start_all(s@.skip(i as int), seq!['*', '.']),
        decreases s.len() - i,
    {
        assert(is_prefix(seq!['*', '.'], s@.skip(i as int))) by {
            assert(s@.skip(i as int).subrange(0, 2) =~= seq!['*', '.']);
        }
        assert(s@.skip(i as int).skip(2) == s@.skip(i + 2));
        i = i + 2;
    }
    assert(!is_prefix(seq!['*', '.'], s@.skip(i as int))) by {
        if is_prefix(seq!['*', '.'], s@.skip(i as int)) {
            assert(s@.skip(i as int).subrange(0, 2)[0] == '*');
            assert(s@.skip(i as int).subrange(0, 2)[1] == '.');
        }
    }
    let mut out: Vec<char> = Vec::new();
    let start = i;
    while i < s.len()
        invariant
            start <= i <= s.len(),
            out@ == s@.subrange(start as int, i as int),
        decreases s.len() - i,
    {
        out.push(s[i]);
        assert(s@.subrange(start as int, i + 1) == s@.subrange(start as int, i as int).push(s@[i as int]));
        i = i + 1;
    }
    assert(out@ == s@.skip(start as int));
    out
}

fn has_suffix(s: &Vec<char>, p: &Vec<char>) -> (res: bool)
    ensures
        res == is_suffix(p@, s@),
{
    if p.len() > s.len() {
        return false;
    }
    let off = s.len() - p.len();
    for j in 0..p.len()
        invariant
            off + p.len() == s.len(),
            forall|k: int| 0 <= k < j ==> s@[off + k] == p@[k],
    {
        if s[off + j] != p[j] {
            assert(s@.skip(off as int)[j as int] != p@[j as int]);
            return false;
        }
    }
    assert(s@.skip(off as int) =~= p@);
    true
}

fn entry_allows(entry: &String, origin: &Vec<char>) -> (res: bool)
    ensures
        res == origin_entry_allows(entry@, origin@),
{
    let e = chars_of(entry.as_str());
    if e.len() >= 2 && e[0] == '*' && e[1] == '.' {
        assert(is_prefix(seq!['*', '.'], e@)) by {
            assert(e@.subrange(0, 2) =~= seq!['*', '.']);
        }
        let domain = trim_star_dot(&e);
        let mut dotted: Vec<char> = vec!['.'];
        extend_chars(&mut dotted, &domain);
        assert(dotted@ =~= seq!['.'] + domain@);
        has_suffix(origin, &dotted) || crate::text::chars_eq(origin, &domain)
    } else {
        assert(!is_prefix(seq!['*', '.'], e@)) by {
            if is_prefix(seq!['*', '.'], e@) {
                assert(e@.subrange(0, 2)[0] == '*');
                assert(e@.subrange(0, 2)[1] == '.');
            }
        }
        crate::text::chars_eq(origin, &e)
    }
}

/// Whether a CORS origin is allowed by the configured list.
pub fn is_origin_allowed(origin: &str, allowed_origins: &[String]) -> (res: bool)
    ensures
        res == spec_is_origin_allowed(origin@, allowed_origins@),
{
    for i in 0..allowed_origins.len()
        invariant
            forall|j: int| 0 <= j < i ==> allowed_origins@[j]@ != seq!['*'],
    {
        let e = chars_of(allowed_origins[i].as_str());
        if e.len() == 1 && e[0] == '*' {
            assert(e@ =~= seq!['*']);
            return true;
        }
        assert(e@ != seq!['*']);
    }
    let o = chars_of(origin);
    for i in 0..allowed_origins.len()
        invariant
            o@ == origin@,
            forall|j: int| 0 <= j < allowed_origins@.len() ==> allowed_origins@[j]@ != seq!['*'],
            forall|j: int| 0 <= j < i ==> !origin_entry_allows(#[trigger] allowed_origins@[j]@, origin@),
    {
        if entry_allows(&allowed_origins[i], &o) {
            return true;
        }
    }
    false
}

/// The character of a CSRF token at alphabet position `i` (below 62): `A`-`Z`, then `a`-`z`,
/// then `0`-`9`.
pub open spec fn csrf_char(i: nat) -> char {
    if i < 26 {
        (65 + i) as char
    } else if i < 52 {
        (97 + (i - 26)) as char
    } else {
        (48 + (i - 52)) as char
    }
}

/// The token whose characters stand at the given alphabet positions.
pub fn csrf_token_from_indices(indices: &Vec<usize>) -> (res: String)
    requires
        forall|i: int| 0 <= i < indices@.len() ==> indices@[i] < 62,
    ensures
        res@.len() == indices@.len(),
        forall|i: int| 0 <= i < indices@.len() ==> res@[i] == csrf_char(indices@[i] as nat),
{
    let mut v: Vec<char> = Vec::new();
    for k in 0..indices.len()
        invariant
            forall|i: int| 0 <= i < indices@.len() ==> indices@[i] < 62,
            v@.len() == k,
            forall|i: int| 0 <= i < k ==> v@[i] == csrf_char(indices@[i] as nat),
    {
        let i = indices[k];
        let c: char = if i < 26 {
            ((i as u8) + 65) as char
        } else if i < 52 {
            ((i as u8) - 26 + 97) as char
        } else {
            ((i as u8) - 52 + 48) as char
        };
        v.push(c);
    }
    string_of(&v)
}

/// A random CSRF token of 32 letters and digits.
pub fn generate_csrf_token() -> (res: String)
    ensures
        res@.len() == 32,
        forall|i: int| 0 <= i < 32 ==> {
            let c = #[trigger] res@[i];
            ('A' <= c && c <= 'Z') || ('a' <= c && c <= 'z') || ('0' <= c && c <= '9')
        },
{
    let mut rng = thread_rng();
    let mut indices: Vec<usize> = Vec::new();
    for k in 0..32usize
        invariant
            indices@.len() == k,
            forall|i: int| 0 <= i < indices@.len() ==> indices@[i] < 62,
    {
        let i = random_below(&mut rng, 62);
        indices.push(i);
    }
    let token = csrf_token_from_indices(&indices);
    assert forall|i: int| 0 <= i < 32 implies {
        let c = #[trigger] token@[i];
        ('A' <= c && c <= 'Z') || ('a' <= c && c <= 'z') || ('0' <= c && c <= '9')
    } by {
        let n = indices@[i] as nat;
        assert(token@[i] == csrf_char(n));
        if n < 26 {
            assert(((65 + n) as char) as int == 65 + n);
        } else if n < 52 {
            assert(((97 + (n - 26)) as char) as int == 97 + (n - 26));
        } else {
            assert(((48 + (n - 52)) as char) as int == 48 + (n - 52));
        }
    }
    token
}

} // verus!
