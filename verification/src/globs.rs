//! Unix shell patterns, as the `glob` crate reads and matches them.
use vstd::prelude::*;

verus! {

/// The text of the error that `glob::Pattern::new` returns for `pattern`,
/// or nothing when it accepts the pattern.
pub uninterp spec fn glob_pattern_error(pattern: Seq<char>) -> Option<Seq<char>>;

/// Whether `glob::Pattern::matches`, on the pattern compiled from
/// `pattern`, accepts `text`.
pub uninterp spec fn glob_matches(pattern: Seq<char>, text: Seq<char>) -> bool;

/// Asks `glob::Pattern::new` whether it accepts `pattern`: for a rejected
/// pattern the result is the error's `Display` text, for an accepted one
/// nothing. Trusted: the result is the named function of the pattern text.
#[verifier::external_body]
pub(crate) fn pattern_error(pattern: &str) -> (r: Option<String>)
    ensures
        match glob_pattern_error(pattern@) {
            Some(message) => r matches Some(m) && m@ == message,
            None => r is None,
        },
{
    match glob::Pattern::new(pattern) {
        Ok(_) => None,
        Err(error) => Some(error.to_string()),
    }
}

/// Compiles `pattern` with `glob::Pattern::new` and tests `text` with
/// `glob::Pattern::matches`. Trusted: for a pattern that compiles, the
/// result is the named function of the two texts.
#[verifier::external_body]
pub(crate) fn pattern_matches(pattern: &str, text: &str) -> (r: bool)
    requires
        glob_pattern_error(pattern@) is None,
    ensures
        r == glob_matches(pattern@, text@),
{
    match glob::Pattern::new(pattern) {
        Ok(compiled) => compiled.matches(text),
        Err(_) => false,
    }
}


/// Whether `glob::Pattern::matches_with`, on the pattern compiled from
/// `pattern`, accepts `text` when matching is case-sensitive, `/` is only
/// matched literally, and wildcards may match a leading dot. Which
/// characters separate paths depends on the build target (on Windows `\`
/// does too), so this is a function of its arguments for one target.
pub uninterp spec fn glob_matches_path(pattern: Seq<char>, text: Seq<char>) -> bool;

/// Compiles `pattern` with `glob::Pattern::new` and tests `text` with
/// `glob::Pattern::matches_with` under the options above. Trusted: for a
/// pattern that compiles, the result is the named function of the two
/// texts.
#[verifier::external_body]
pub(crate) fn pattern_matches_path(pattern: &str, text: &str) -> (r: bool)
    requires
        glob_pattern_error(pattern@) is None,
    ensures
        r == glob_matches_path(pattern@, text@),
{
    let options = glob::MatchOptions {
        case_sensitive: true,
        require_literal_separator: true,
        require_literal_leading_dot: false,
    };
    match glob::Pattern::new(pattern) {
        Ok(compiled) => compiled.matches_with(text, options),
        Err(_) => false,
    }
}

} // verus!
