use vstd::prelude::*;
use vstd::string::StringExecFns;
use crate::message::{header_value_is_valid, opt_text, rebuild_uri, uri_rebuild, valid_header_value, HttpRequest, HttpResponse};
use crate::pattern::{compile_pattern, pattern_is_match, pattern_replace, regex_compiles, regex_error_text, regex_is_match, regex_replace, CompiledPattern};
use crate::text::{chars_eq, chars_of, extend_chars, string_of};

verus! {

/// How a rewrite rule acts: stop after it (`L`), redirect instead of rewriting (`R`), redirect
/// permanently (`P`), keep the request's query (`QSA`).
#[derive(Clone, Copy, Debug, PartialEq, Eq, Structural)]
pub struct RewriteFlags {
    pub last: bool,
    pub redirect: bool,
    pub permanent: bool,
    pub query_string: bool,
}

/// A rewrite rule: a compiled pattern, its replacement, its flags.
#[derive(Debug)]
pub struct RewriteRule {
    pub pattern: CompiledPattern,
    pub replacement: String,
    pub flags: RewriteFlags,
}

/// URL rewriting, rule by rule.
#[derive(Debug)]
pub struct RewriteModule {
    rules: Vec<RewriteRule>,
}

/// The flags with one more flag word applied; unknown words change nothing.
pub open spec fn apply_flag(f: RewriteFlags, flag: Seq<char>) -> RewriteFlags {
    if flag == seq!['L'] || flag == seq!['l', 'a', 's', 't'] {
        RewriteFlags { last: true, ..f }
    } else if flag == seq!['R'] || flag == seq!['r', 'e', 'd', 'i', 'r', 'e', 'c', 't'] {
        RewriteFlags { redirect: true, ..f }
    } else if flag == seq!['P'] || flag == seq!['p', 'e', 'r', 'm', 'a', 'n', 'e', 'n', 't'] {
        RewriteFlags { redirect: true, permanent: true, ..f }
    } else if flag == seq!['Q', 'S', 'A'] || flag == seq!['q', 's', 'a', 'p', 'p', 'e', 'n', 'd'] {
        RewriteFlags { query_string: true, ..f }
    } else {
        f
    }
}

/// The flags that a list of flag words gives, starting from none.
pub open spec fn parse_flags(flags: Seq<Seq<char>>) -> RewriteFlags
    decreases flags.len(),
{
    if flags.len() == 0 {
        RewriteFlags { last: false, redirect: false, permanent: false, query_string: false }
    } else {
        apply_flag(parse_flags(flags.drop_last()), flags.last())
    }
}

/// The words that set each flag.
pub open spec fn is_permanent_word(w: Seq<char>) -> bool {
    w == "P"@ || w == "permanent"@
}

/// A flag, once set by a word, stays set whatever words follow: applying a word never clears a
/// flag.
pub proof fn flags_are_never_cleared(f: RewriteFlags, w: Seq<char>)
    ensures
        f.last ==> apply_flag(f, w).last,
        f.redirect ==> apply_flag(f, w).redirect,
        f.permanent ==> apply_flag(f, w).permanent,
        f.query_string ==> apply_flag(f, w).query_string,
{
}

/// A flag list that holds `P` or `permanent` anywhere makes the rule a permanent redirect: both
/// `redirect` and `permanent` are set, whatever other words come before or after.
pub proof fn permanent_flag_makes_a_permanent_redirect(flags: Seq<Seq<char>>, i: int)
    requires
        0 <= i < flags.len(),
        is_permanent_word(flags[i]),
    ensures
        parse_flags(flags).redirect,
        parse_flags(flags).permanent,
    decreases flags.len(),
{
    reveal_strlit("P");
    reveal_strlit("permanent");
    let f = parse_flags(flags.drop_last());
    if i == flags.len() - 1 {
        assert(flags.last() == flags[i]);
        let w = flags.last();
        assert(w == seq!['P'] || w == seq!['p', 'e', 'r', 'm', 'a', 'n', 'e', 'n', 't']);
        assert(w != seq!['L'] && w != seq!['l', 'a', 's', 't'] && w != seq!['R']
            && w != seq!['r', 'e', 'd', 'i', 'r', 'e', 'c', 't']) by {
            if w == seq!['P'] {
                assert(w[0] == 'P');
                assert(seq!['L'][0] == 'L');
                assert(seq!['R'][0] == 'R');
            } else {
                assert(w.len() == 9);
                assert(seq!['l', 'a', 's', 't'].len() == 4);
                assert(seq!['r', 'e', 'd', 'i', 'r', 'e', 'c', 't'].len() == 8);
            }
        }
    } else {
        assert(flags.drop_last()[i] == flags[i]);
        permanent_flag_makes_a_permanent_redirect(flags.drop_last(), i);
        flags_are_never_cleared(f, flags.last());
    }
}

/// The flags of a list of words are exactly those its words name: `last` by `L` or `last`,
/// `redirect` by `R`, `redirect`, `P` or `permanent`, `permanent` by `P` or `permanent`, and
/// `query_string` by `QSA` or `qsappend`; other words set nothing.
pub proof fn flags_are_those_the_words_name(flags: Seq<Seq<char>>)
    ensures
        parse_flags(flags).last == exists|i: int| 0 <= i < flags.len() && (#[trigger] flags[i] == "L"@ || flags[i] == "last"@),
        parse_flags(flags).redirect == exists|i: int| 0 <= i < flags.len()
            && (#[trigger] flags[i] == "R"@ || flags[i] == "redirect"@ || is_permanent_word(flags[i])),
        parse_flags(flags).permanent == exists|i: int| 0 <= i < flags.len() && is_permanent_word(#[trigger] flags[i]),
        parse_flags(flags).query_string == exists|i: int| 0 <= i < flags.len() && (#[trigger] flags[i] == "QSA"@ || flags[i] == "qsappend"@),
    decreases flags.len(),
{
    reveal_strlit("L");
    reveal_strlit("last");
    reveal_strlit("R");
    reveal_strlit("redirect");
    reveal_strlit("P");
    reveal_strlit("permanent");
    reveal_strlit("QSA");
    reveal_strlit("qsappend");
    if flags.len() > 0 {
        let d = flags.drop_last();
        flags_are_those_the_words_name(d);
        let w = flags.last();
        assert(flags[flags.len() - 1] == w);
        assert forall|i: int| 0 <= i < d.len() implies #[trigger] flags[i] == d[i] by {}
        let words = seq![seq!['L'], seq!['l', 'a', 's', 't'], seq!['R'], seq!['r', 'e', 'd', 'i', 'r', 'e', 'c', 't'],
            seq!['P'], seq!['p', 'e', 'r', 'm', 'a', 'n', 'e', 'n', 't'], seq!['Q', 'S', 'A'],
            seq!['q', 's', 'a', 'p', 'p', 'e', 'n', 'd']];
        assert forall|x: int, y: int| 0 <= x < 8 && 0 <= y < 8 && x != y implies words[x] != words[y] by {
            if words[x].len() == words[y].len() {
                assert(words[x][0] != words[y][0]);
            }
        }
        assert(words[0] == "L"@ && words[1] == "last"@ && words[2] == "R"@ && words[3] == "redirect"@);
        assert(words[4] == "P"@ && words[5] == "permanent"@ && words[6] == "QSA"@ && words[7] == "qsappend"@);
    }
}

/// A rule keeps the request's query, after `?`, exactly when it has the `QSA` flag and the request
/// has a query; otherwise the rewritten path stands alone.
pub proof fn query_is_kept_only_with_qsa(rule: RewriteRule, path: Seq<char>, query: Option<Seq<char>>)
    ensures
        ({
            let replaced = regex_replace(rule.pattern.source(), path, rule.replacement@);
            let r = rewritten_path_and_query(rule, path, query);
            &&& (rule.flags.query_string && query is Some) ==> r.len() == replaced.len() + 1 + query.unwrap().len()
                && r.subrange(0, replaced.len() as int) == replaced && r[replaced.len() as int] == '?'
                && r.skip(replaced.len() as int + 1) == query.unwrap()
            &&& !(rule.flags.query_string && query is Some) ==> r == replaced
        }),
{
    let replaced = regex_replace(rule.pattern.source(), path, rule.replacement@);
    let r = rewritten_path_and_query(rule, path, query);
    if rule.flags.query_string && query is Some {
        assert(r.subrange(0, replaced.len() as int) =~= replaced);
        assert(r.skip(replaced.len() as int + 1) =~= query.unwrap());
    }
}

/// A matching rule whose flags make it a permanent redirect answers with 301 to the rewritten
/// location, whenever that location can be built and stand in a header; the request's URI is left
/// as it was.
pub proof fn permanent_rule_answers_301(rule: RewriteRule, path: Seq<char>, query: Option<Seq<char>>,
    scheme: Option<Seq<char>>, authority: Option<Seq<char>>, d: Seq<char>, p: Seq<char>, q: Option<Seq<char>>)
    requires
        rule.flags.redirect,
        rule.flags.permanent,
        regex_is_match(rule.pattern.source(), path),
        uri_rebuild(scheme, authority, rewritten_path_and_query(rule, path, query))
            == Ok::<(Seq<char>, Seq<char>, Option<Seq<char>>), bool>((d, p, q)),
        valid_header_value(d),
    ensures
        rule_step(rule, path, query, scheme, authority) == RuleStep::Respond(301, d),
{
}

/// The path-and-query a matching rule produces: the path with the leftmost match replaced, and
/// with the request's query appended when the rule keeps it.
pub open spec fn rewritten_path_and_query(rule: RewriteRule, path: Seq<char>, query: Option<Seq<char>>) -> Seq<char> {
    let np = regex_replace(rule.pattern.source(), path, rule.replacement@);
    if rule.flags.query_string && query is Some {
        np + seq!['?'] + query.unwrap()
    } else {
        np
    }
}

/// What one rule does to a request.
pub enum RuleStep {
    /// The rule does not apply (no match, or the new URI cannot be built from the parts).
    Pass,
    /// Processing stops here (invalid path-and-query, or a redirect target that is no valid
    /// header value).
    Stop,
    /// Redirect with this status to this location.
    Respond(u16, Seq<char>),
    /// The request now has this URI, path and query; the flag tells whether processing stops.
    Rewrite(Seq<char>, Seq<char>, Option<Seq<char>>, bool),
}

/// What a rule does, given the request's original path and query and its scheme and authority.
pub open spec fn rule_step(rule: RewriteRule, path: Seq<char>, query: Option<Seq<char>>, scheme: Option<Seq<char>>, authority: Option<Seq<char>>) -> RuleStep {
    if !regex_is_match(rule.pattern.source(), path) {
        RuleStep::Pass
    } else {
        match uri_rebuild(scheme, authority, rewritten_path_and_query(rule, path, query)) {
            Err(true) => RuleStep::Stop,
            Err(false) => RuleStep::Pass,
            Ok((d, p, q)) => if rule.flags.redirect {
                if valid_header_value(d) {
                    RuleStep::Respond(if rule.flags.permanent { 301u16 } else { 302u16 }, d)
                } else {
                    RuleStep::Stop
                }
            } else {
                RuleStep::Rewrite(d, p, q, rule.flags.last)
            },
        }
    }
}

/// The outcome of running the rules in order over a request whose current URI, path and query
/// are `cur`: a redirect (status and location) or none, and the request's URI, path and query
/// at the end.
pub open spec fn run_rules(
    rules: Seq<RewriteRule>,
    path: Seq<char>,
    query: Option<Seq<char>>,
    scheme: Option<Seq<char>>,
    authority: Option<Seq<char>>,
    cur: (Seq<char>, Seq<char>, Option<Seq<char>>),
) -> (Option<(u16, Seq<char>)>, (Seq<char>, Seq<char>, Option<Seq<char>>))
    decreases rules.len(),
{
    if rules.len() == 0 {
        (None, cur)
    } else {
        match rule_step(rules[0], path, query, scheme, authority) {
            RuleStep::Pass => run_rules(rules.drop_first(), path, query, scheme, authority, cur),
            RuleStep::Stop => (None, cur),
            RuleStep::Respond(s, l) => (Some((s, l)), cur),
            RuleStep::Rewrite(d, p, q, last) => if last {
                (None, (d, p, q))
            } else {
                run_rules(rules.drop_first(), path, query, scheme, authority, (d, p, q))
            },
        }
    }
}

/// The flag words given, as text (none when no list is given).
pub open spec fn flag_words(flags: &Option<Vec<&str>>) -> Seq<Seq<char>> {
    match flags {
        Some(f) => f@.map_values(|s: &str| s@),
        None => Seq::empty(),
    }
}

fn is_word(flag: &Vec<char>, w: &Vec<char>) -> (res: bool)
    ensures
        res == (flag@ == w@),
{
    chars_eq(flag, w)
}

impl RewriteModule {
    /// The rules, in order.
    pub closed spec fn rules(&self) -> Seq<RewriteRule> {
        self.rules@
    }

    /// A module without rules.
    pub fn new() -> (res: RewriteModule)
        ensures
            res.rules() == Seq::<RewriteRule>::empty(),
    {
        RewriteModule { rules: Vec::new() }
    }

    /// The module's name.
    pub fn name(&self) -> (res: &'static str)
        ensures
            res@ == "rewrite"@,
    {
        "rewrite"
    }

    /// Adds a rule; a pattern that does not compile is refused with the expression's error text.
    pub fn add_rule(&mut self, pattern: &str, replacement: &str, flags: Option<Vec<&str>>) -> (res: Result<(), String>)
        ensures
            regex_compiles(pattern@) ==> res is Ok && final(self).rules().len() == old(self).rules().len() + 1
                && final(self).rules().drop_last() == old(self).rules()
                && final(self).rules().last().pattern.source() == pattern@
                && final(self).rules().last().replacement@ == replacement@
                && final(self).rules().last().flags == parse_flags(flag_words(&flags)),
            !regex_compiles(pattern@) ==> res == Err::<(), String>(res->Err_0) && res->Err_0@ == regex_error_text(pattern@)
                && final(self).rules() == old(self).rules(),
    {
        let regex = match compile_pattern(pattern) {
            Ok(p) => p,
            Err(e) => return Err(e),
        };
        let mut f = RewriteFlags { last: false, redirect: false, permanent: false, query_string: false };
        let ghost words: Seq<Seq<char>> = flag_words(&flags);
        if let Some(list) = flags {
            assert(words == list@.map_values(|s: &str| s@));
            let w_l = vec!['L'];
            let w_last = vec!['l', 'a', 's', 't'];
            let w_r = vec!['R'];
            let w_redirect = vec!['r', 'e', 'd', 'i', 'r', 'e', 'c', 't'];
            let w_p = vec!['P'];
            let w_permanent = vec!['p', 'e', 'r', 'm', 'a', 'n', 'e', 'n', 't'];
            let w_qsa = vec!['Q', 'S', 'A'];
            let w_qsappend = vec!['q', 's', 'a', 'p', 'p', 'e', 'n', 'd'];
            for i in 0..list.len()
                invariant
                    words == list@.map_values(|s: &str| s@),
                    f == parse_flags(words.take(i as int)),
                    w_l@ == seq!['L'],
                    w_last@ == seq!['l', 'a', 's', 't'],
                    w_r@ == seq!['R'],
                    w_redirect@ == seq!['r', 'e', 'd', 'i', 'r', 'e', 'c', 't'],
                    w_p@ == seq!['P'],
                    w_permanent@ == seq!['p', 'e', 'r', 'm', 'a', 'n', 'e', 'n', 't'],
                    w_qsa@ == seq!['Q', 'S', 'A'],
                    w_qsappend@ == seq!['q', 's', 'a', 'p', 'p', 'e', 'n', 'd'],
            {
                assert(words.take(i + 1).drop_last() == words.take(i as int));
                assert(words[i as int] == list@[i as int]@);
                let w = chars_of(list[i]);
                if is_word(&w, &w_l) || is_word(&w, &w_last) {
                    f.last = true;
                } else if is_word(&w, &w_r) || is_word(&w, &w_redirect) {
                    f.redirect = true;
                } else if is_word(&w, &w_p) || is_word(&w, &w_permanent) {
                    f.redirect = true;
                    f.permanent = true;
                } else if is_word(&w, &w_qsa) || is_word(&w, &w_qsappend) {
                    f.query_string = true;
                }
            }
            assert(words.take(list@.len() as int) == words);
        }
        let ghost old_rules = self.rules@;
        self.rules.push(RewriteRule { pattern: regex, replacement: replacement.to_owned(), flags: f });
        assert(self.rules@.drop_last() == old_rules);
        Ok(())
    }

    /// Runs the rules over the request, in order, each matched against the request's original
    /// path: a matching rule rewrites the request's URI (and stops processing with `L`), or
    /// answers with a redirect (301 with `P`, else 302) to the new URI.
    pub fn process_request(&self, req: &mut HttpRequest) -> (res: Option<HttpResponse>)
        ensures
            ({
                let (redirect, (u, p, q)) = run_rules(
                    self.rules(),
                    old(req).path@,
                    opt_text(old(req).query),
                    opt_text(old(req).scheme),
                    opt_text(old(req).authority),
                    (old(req).uri@, old(req).path@, opt_text(old(req).query)),
                );
                &&& final(req).uri@ == u
                &&& final(req).path@ == p
                &&& opt_text(final(req).query) == q
                &&& final(req).method == old(req).method
                &&& final(req).scheme == old(req).scheme
                &&& final(req).authority == old(req).authority
                &&& final(req).headers == old(req).headers
                &&& final(req).peer_ip == old(req).peer_ip
                &&& final(req).forwarded_ip == old(req).forwarded_ip
                &&& final(req).remote_ip == old(req).remote_ip
                &&& match redirect {
                    Some((s, l)) => res matches Some(r) && r.status == s && r.body@ == Seq::<u8>::empty()
                        && r.headers@.len() == 1 && r.headers@[0].0@ == "location"@ && r.headers@[0].1@ == l,
                    None => res is None,
                }
            }),
    {
        let path = req.path.clone();
        let query = crate::config::clone_opt_string(&req.query);
        let ghost path0 = path@;
        let ghost query0 = opt_text(query);
        let ghost scheme0 = opt_text(req.scheme);
        let ghost authority0 = opt_text(req.authority);
        let ghost whole = run_rules(self.rules@, path0, query0, scheme0, authority0, (req.uri@, req.path@, opt_text(req.query)));
        assert(self.rules@.skip(0) == self.rules@);
        let mut res: Option<HttpResponse> = None;
        let mut done = false;
        let mut i: usize = 0;
        while i < self.rules.len() && !done
            invariant
                i <= self.rules@.len(),
                path@ == path0,
                opt_text(query) == query0,
                opt_text(req.scheme) == scheme0,
                opt_text(req.authority) == authority0,
                req.method == old(req).method,
                req.scheme == old(req).scheme,
                req.authority == old(req).authority,
                req.headers == old(req).headers,
                req.peer_ip == old(req).peer_ip,
                req.forwarded_ip == old(req).forwarded_ip,
                req.remote_ip == old(req).remote_ip,
                !done ==> whole == run_rules(self.rules@.skip(i as int), path0, query0, scheme0, authority0, (req.uri@, req.path@, opt_text(req.query))),
                done ==> whole.1 == (req.uri@, req.path@, opt_text(req.query)),
                done ==> match whole.0 {
                    Some((s, l)) => res matches Some(r) && r.status == s && r.body@ == Seq::<u8>::empty()
                        && r.headers@.len() == 1 && r.headers@[0].0@ == "location"@ && r.headers@[0].1@ == l,
                    None => res is None,
                },
                !done ==> res is None,
            decreases self.rules@.len() - i,
        {
            let ghost rest = self.rules@.skip(i as int);
            assert(rest[0] == self.rules@[i as int]);
            assert(rest.drop_first() == self.rules@.skip(i + 1));
            let rule = &self.rules[i];
            if pattern_is_match(&rule.pattern, path.as_str()) {
                let np = pattern_replace(&rule.pattern, path.as_str(), rule.replacement.as_str());
                let pq: String = if rule.flags.query_string && query.is_some() {
                    let mut v = np;
                    v.append("?");
                    match &query {
                        Some(q) => v.append(q.as_str()),
                        None => {},
                    }
                    proof { reveal_strlit("?"); }
                    v
                } else {
                    np
                };
                assert(pq@ == rewritten_path_and_query(*rule, path0, query0));
                match rebuild_uri(&req.scheme, &req.authority, pq.as_str()) {
                    Err(true) => {
                        done = true;
                    },
                    Err(false) => {},
                    Ok((d, p, q)) => {
                        if rule.flags.redirect {
                            if header_value_is_valid(d.as_str()) {
                                let status: u16 = if rule.flags.permanent { 301 } else { 302 };
                                let mut headers: Vec<(String, String)> = Vec::new();
                                headers.push(("location".to_owned(), d));
                                res = Some(HttpResponse { status, headers, raw_headers: Vec::new(), body: Vec::new() });
                            }
                            done = true;
                        } else {
                            req.uri = d;
                            req.path = p;
                            req.query = q;
                            if rule.flags.last {
                                done = true;
                            }
                        }
                    },
                }
            }
            i = i + 1;
        }
        assert(!done ==> self.rules@.skip(i as int).len() == 0);
        res
    }
}

/// The settings of one rule as the module's configuration gives them (absent values as `None`).
pub struct RewriteRuleSetting {
    pub pattern: Option<String>,
    pub replacement: Option<String>,
    pub flags: Option<Vec<String>>,
}

/// A rule as text: its pattern's source, its replacement, its flags.
pub open spec fn rule_summary(r: RewriteRule) -> (Seq<char>, Seq<char>, RewriteFlags) {
    (r.pattern.source(), r.replacement@, r.flags)
}

/// The text of an optional setting, empty when absent.
pub open spec fn setting_text(s: Option<String>) -> Seq<char> {
    match s {
        Some(t) => t@,
        None => Seq::empty(),
    }
}

/// The flag words of a setting.
pub open spec fn setting_flag_words(flags: Option<Vec<String>>) -> Seq<Seq<char>> {
    match flags {
        Some(f) => f@.map_values(|s: String| s@),
        None => Seq::empty(),
    }
}

/// The rules that configuration adds: one for each setting with a non-empty pattern that
/// compiles and a non-empty replacement, in order.
pub open spec fn setting_rules(settings: Seq<RewriteRuleSetting>) -> Seq<(Seq<char>, Seq<char>, RewriteFlags)>
    decreases settings.len(),
{
    if settings.len() == 0 {
        Seq::empty()
    } else {
        let s = settings.last();
        let pat = setting_text(s.pattern);
        let rep = setting_text(s.replacement);
        let before = setting_rules(settings.drop_last());
        if pat.len() > 0 && rep.len() > 0 && regex_compiles(pat) {
            before.push((pat, rep, parse_flags(setting_flag_words(s.flags))))
        } else {
            before
        }
    }
}

impl RewriteModule {
    /// Adds the configured rules in order; a setting without pattern or replacement, or whose
    /// pattern does not compile, is skipped.
    pub fn init(&mut self, settings: &Vec<RewriteRuleSetting>)
        ensures
            final(self).rules().map_values(|r: RewriteRule| rule_summary(r))
                == old(self).rules().map_values(|r: RewriteRule| rule_summary(r)) + setting_rules(settings@),
    {
        let ghost start = self.rules().map_values(|r: RewriteRule| rule_summary(r));
        for i in 0..settings.len()
            invariant
                self.rules().map_values(|r: RewriteRule| rule_summary(r))
                    == start + setting_rules(settings@.take(i as int)),
        {
            assert(settings@.take(i + 1).drop_last() == settings@.take(i as int));
            let setting = &settings[i];
            let pattern: &str = match &setting.pattern {
                Some(p) => p.as_str(),
                None => "",
            };
            let replacement: &str = match &setting.replacement {
                Some(r) => r.as_str(),
                None => "",
            };
            proof { reveal_strlit(""); }
            let flags: Option<Vec<&str>> = match &setting.flags {
                Some(list) => {
                    let mut words: Vec<&str> = Vec::new();
                    for j in 0..list.len()
                        invariant
                            words@.len() == j,
                            words@.map_values(|s: &str| s@) == list@.take(j as int).map_values(|s: String| s@),
                    {
                        let w: &str = list[j].as_str();
                        let ghost prev = words@;
                        words.push(w);
                        assert forall|k: int| 0 <= k < j + 1 implies
                            (#[trigger] words@[k])@ == list@[k]@ by {
                            if k < j {
                                assert(prev.map_values(|s: &str| s@)[k] == list@.take(j as int).map_values(|s: String| s@)[k]);
                            }
                        }
                        assert(words@.map_values(|s: &str| s@) =~= list@.take(j + 1).map_values(|s: String| s@));
                    }
                    assert(list@.take(list@.len() as int) == list@);
                    Some(words)
                },
                None => None,
            };
            assert(flag_words(&flags) == setting_flag_words(setting.flags));
            if !pattern.is_empty() && !replacement.is_empty() {
                let ghost before = self.rules();
                let added = self.add_rule(pattern, replacement, flags);
                proof {
                    if added is Ok {
                        assert(self.rules() == before.push(self.rules().last()));
                        assert(self.rules().map_values(|r: RewriteRule| rule_summary(r))
                            == before.map_values(|r: RewriteRule| rule_summary(r)).push(rule_summary(self.rules().last())));
                    }
                }
            }
        }
        assert(settings@.take(settings@.len() as int) == settings@);
    }
}

} // verus!
