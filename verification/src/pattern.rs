use vstd::prelude::*;
use regex::Regex;

verus! {

#[verifier::external_type_specification]
#[verifier::external_body]
pub struct ExRegex(regex::Regex);

/// Whether `regex::Regex::new` accepts `pattern`.
pub uninterp spec fn regex_compiles(pattern: Seq<char>) -> bool;

/// The text of the error `regex::Regex::new` gives for `pattern`.
pub uninterp spec fn regex_error_text(pattern: Seq<char>) -> Seq<char>;

/// Whether the regular expression `pattern` matches somewhere in `text` (`Regex::is_match`).
pub uninterp spec fn regex_is_match(pattern: Seq<char>, text: Seq<char>) -> bool;

/// `text` with the leftmost match of `pattern` replaced by `replacement`, whose `$name` groups are
/// expanded (`Regex::replace`).
pub uninterp spec fn regex_replace(pattern: Seq<char>, text: Seq<char>, replacement: Seq<char>) -> Seq<char>;

/// A regular expression together with the pattern it was compiled from.
#[derive(Debug)]
pub struct CompiledPattern {
    source: String,
    regex: Regex,
}

impl CompiledPattern {
    /// The pattern this expression was compiled from.
    pub closed spec fn source(&self) -> Seq<char> {
        self.source@
    }

    /// The pattern this expression was compiled from.
    pub fn as_str(&self) -> (res: &str)
        ensures
            res@ == self.source(),
    {
        self.source.as_str()
    }
}

/// `regex::Regex::new`, kept with its pattern; on failure the error's text.
/// Claims that it succeeds exactly when the named `regex_compiles` holds, that the compiled
/// expression remembers its pattern, and that the error text is the named one.
#[verifier::external_body]
pub(crate) fn compile_pattern(pattern: &str) -> (res: Result<CompiledPattern, String>)
    ensures
        match res {
            Ok(p) => regex_compiles(pattern@) && p.source() == pattern@,
            Err(e) => !regex_compiles(pattern@) && e@ == regex_error_text(pattern@),
        },
{
    match Regex::new(pattern) {
        Ok(regex) => Ok(CompiledPattern { source: pattern.to_string(), regex }),
        Err(e) => Err(e.to_string()),
    }
}

/// `Regex::is_match`: claims that the result is the named match of the expression's pattern.
#[verifier::external_body]
pub(crate) fn pattern_is_match(p: &CompiledPattern, text: &str) -> (res: bool)
    ensures
        res == regex_is_match(p.source(), text@),
{
    p.regex.is_match(text)
}

/// `Regex::replace` of the leftmost match: claims that the result is the named replacement.
#[verifier::external_body]
pub(crate) fn pattern_replace(p: &CompiledPattern, text: &str, replacement: &str) -> (res: String)
    ensures
        res@ == regex_replace(p.source(), text@, replacement@),
{
    p.regex.replace(text, replacement).to_string()
}

} // verus!
