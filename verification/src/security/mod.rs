use vstd::prelude::*;
use crate::text::{chars_of, contains_chars, contains_seq, string_of};
pub mod auth;
pub mod headers;
pub mod rate_limiter;
pub mod firewall;
pub mod tls;

verus! {

/// The characters `"../"`.
pub open spec fn dotdot_slash() -> Seq<char> {
    seq!['.', '.', '/']
}

/// The characters `"..\"`.
pub open spec fn dotdot_backslash() -> Seq<char> {
    seq!['.', '.', '\\']
}

/// A path is a traversal attempt when it holds `../` or `..\`.
pub open spec fn spec_is_path_traversal(path: Seq<char>) -> bool {
    contains_seq(path, dotdot_slash()) || contains_seq(path, dotdot_backslash())
}

/// Each run of consecutive slashes in `s` replaced by a single slash.
pub open spec fn collapse_slashes(s: Seq<char>) -> Seq<char>
    decreases s.len(),
{
    if s.len() == 0 {
        Seq::empty()
    } else {
        let r = collapse_slashes(s.drop_last());
        if s.last() == '/' && r.len() > 0 && r.last() == '/' {
            r
        } else {
            r.push(s.last())
        }
    }
}

/// `s` without its final slash, unless `s` is a single character.
pub open spec fn strip_trailing_slash(s: Seq<char>) -> Seq<char> {
    if s.len() > 1 && s.last() == '/' {
        s.drop_last()
    } else {
        s
    }
}

/// What `sanitize_path` makes of a path.
pub open spec fn spec_sanitize_path(path: Seq<char>) -> Seq<char> {
    strip_trailing_slash(collapse_slashes(path))
}

/// No two slashes stand next to each other in `s`.
pub open spec fn no_double_slash(s: Seq<char>) -> bool {
    forall|i: int| 0 <= i < s.len() - 1 ==> !(#[trigger] s[i] == '/' && s[i + 1] == '/')
}

/// Whether the path holds `../` or `..\`.
pub fn is_path_traversal(path: &str) -> (res: bool)
    ensures
        res == spec_is_path_traversal(path@),
{
    let p = chars_of(path);
    let fwd = vec!['.', '.', '/'];
    let back = vec!['.', '.', '\\'];
    assert(fwd@ == dotdot_slash());
    assert(back@ == dotdot_backslash());
    contains_chars(&p, &fwd) || contains_chars(&p, &back)
}

/// Collapses runs of slashes into one and drops a trailing slash (except for the root).
pub fn sanitize_path(path: &str) -> (res: String)
    ensures
        res@ == spec_sanitize_path(path@),
{
    let p = chars_of(path);
    let mut out: Vec<char> = Vec::new();
    for i in 0..p.len()
        invariant
            out@ == collapse_slashes(p@.take(i as int)),
    {
        assert(p@.take(i + 1).drop_last() == p@.take(i as int));
        let c = p[i];
        if !(c == '/' && out.len() > 0 && out[out.len() - 1] == '/') {
            out.push(c);
        }
    }
    assert(p@.take(p.len() as int) == p@);
    if out.len() > 1 && out[out.len() - 1] == '/' {
        out.pop();
    }
    string_of(&out)
}

proof fn lemma_collapse_no_double(s: Seq<char>)
    ensures
        no_double_slash(collapse_slashes(s)),
    decreases s.len(),
{
    if s.len() > 0 {
        lemma_collapse_no_double(s.drop_last());
        let r = collapse_slashes(s.drop_last());
        let t = collapse_slashes(s);
        assert forall|i: int| 0 <= i < t.len() - 1 implies !(#[trigger] t[i] == '/' && t[i + 1] == '/') by {
            if t != r {
                if i < r.len() - 1 {
                    assert(t[i] == r[i] && t[i + 1] == r[i + 1]);
                }
            }
        }
    }
}

proof fn lemma_collapse_identity(s: Seq<char>)
    requires
        no_double_slash(s),
    ensures
        collapse_slashes(s) == s,
    decreases s.len(),
{
    if s.len() > 0 {
        let d = s.drop_last();
        assert forall|i: int| 0 <= i < d.len() - 1 implies !(#[trigger] d[i] == '/' && d[i + 1] == '/') by {
            assert(d[i] == s[i] && d[i + 1] == s[i + 1]);
        }
        lemma_collapse_identity(d);
        if s.len() > 1 {
            assert(!(s[s.len() - 2] == '/' && s[s.len() - 2 + 1] == '/'));
        }
        assert(d.push(s.last()) =~= s);
    }
}

proof fn lemma_sanitized_shape(path: Seq<char>)
    ensures
        no_double_slash(spec_sanitize_path(path)),
        spec_sanitize_path(path).len() > 1 ==> spec_sanitize_path(path).last() != '/',
{
    let c = collapse_slashes(path);
    lemma_collapse_no_double(path);
    let t = spec_sanitize_path(path);
    if c.len() > 1 && c.last() == '/' {
        assert forall|i: int| 0 <= i < t.len() - 1 implies !(#[trigger] t[i] == '/' && t[i + 1] == '/') by {
            assert(t[i] == c[i] && t[i + 1] == c[i + 1]);
        }
        if t.len() > 1 {
            assert(t.last() == c[c.len() - 2]);
            assert(!(c[c.len() - 2] == '/' && c[c.len() - 2 + 1] == '/'));
        }
    }
}

proof fn lemma_collapse_first(s: Seq<char>)
    requires
        s.len() > 0,
    ensures
        collapse_slashes(s).len() > 0,
        collapse_slashes(s)[0] == s[0],
    decreases s.len(),
{
    if s.len() > 1 {
        lemma_collapse_first(s.drop_last());
        let r = collapse_slashes(s.drop_last());
        assert(r[0] == s[0]);
        if !(s.last() == '/' && r.len() > 0 && r.last() == '/') {
            assert(r.push(s.last())[0] == r[0]);
        }
    } else {
        assert(s.drop_last().len() == 0);
        assert(collapse_slashes(s.drop_last()) == Seq::<char>::empty());
        assert(collapse_slashes(s) == Seq::<char>::empty().push(s.last()));
    }
}

/// Sanitizing a path that starts with a slash gives a path that starts with a slash.
pub proof fn sanitized_path_keeps_leading_slash(path: Seq<char>)
    requires
        path.len() > 0,
        path[0] == '/',
    ensures
        spec_sanitize_path(path).len() > 0,
        spec_sanitize_path(path)[0] == '/',
{
    lemma_collapse_first(path);
}

/// A sanitized path never holds two slashes in a row.
pub proof fn sanitized_path_has_no_double_slash(path: Seq<char>)
    ensures
        !contains_seq(spec_sanitize_path(path), seq!['/', '/']),
{
    lemma_sanitized_shape(path);
    let t = spec_sanitize_path(path);
    if contains_seq(t, seq!['/', '/']) {
        let i = choose|i: int| crate::text::occurs_at(t, seq!['/', '/'], i);
        assert(t.subrange(i, i + 2)[0] == '/');
        assert(t.subrange(i, i + 2)[1] == '/');
        assert(t[i] == '/' && t[i + 1] == '/');
    }
}

/// A sanitized path ends with a slash only when it is the root `/` itself.
pub proof fn sanitized_path_has_no_trailing_slash(path: Seq<char>)
    ensures
        spec_sanitize_path(path).len() > 1 ==> spec_sanitize_path(path).last() != '/',
{
    lemma_sanitized_shape(path);
}

/// Sanitizing a path twice gives the same as sanitizing it once.
pub proof fn sanitize_path_is_idempotent(path: Seq<char>)
    ensures
        spec_sanitize_path(spec_sanitize_path(path)) == spec_sanitize_path(path),
{
    let t = spec_sanitize_path(path);
    lemma_sanitized_shape(path);
    lemma_collapse_identity(t);
}

} // verus!
