//! The file-name pattern of a settings file, matched by the `regex` crate.
//!
//! What the regular-expression engine computes is not proved here. It is
//! named by three uninterpreted functions, and the two functions that call
//! the engine are believed to return what those names say.

use regex::Regex;
use vstd::prelude::*;

verus! {

/// `regex::Regex`, a compiled regular expression.
#[verifier::external_type_specification]
#[verifier::external_body]
pub struct ExRegex(Regex);

/// `regex::Error`, the reason for which a pattern was not compiled.
#[verifier::external_type_specification]
#[verifier::external_body]
pub struct ExRegexError(regex::Error);

/// Whether `Regex::new` compiles the pattern text.
pub uninterp spec fn regex_accepts(pattern: Seq<char>) -> bool;

/// What the expression that `Regex::new` compiles from `pattern` captures:
/// the text that capture group `group` holds in the leftmost match in
/// `haystack`; `None` where there is no match or the group took no part in
/// it.
pub uninterp spec fn regex_group(pattern: Seq<char>, haystack: Seq<char>, group: int) -> Option<
    Seq<char>,
>;

/// What `Regex::captures` finds for a compiled expression: the text that
/// capture group `group` holds in the leftmost match in `haystack`; `None`
/// where there is no match or the group took no part in it.
pub uninterp spec fn regex_captured(re: Regex, haystack: Seq<char>, group: int) -> Option<
    Seq<char>,
>;

/// The pattern of a settings file's name: the fixed prefix, a run of
/// digits, the fixed extension, and nothing else.
pub const SETTINGS_FILE_PATTERN: &'static str = "^core_char_(\\d+)\\.dat$";

/// The capture group of the pattern that holds the identifier.
pub const IDENTIFIER_GROUP: usize = 1;

/// The identifier in a file name: the digits that the pattern captures, or
/// `None` for a name that is not a settings file's.
pub open spec fn settings_identifier(filename: Seq<char>) -> Option<Seq<char>> {
    regex_group(SETTINGS_FILE_PATTERN@, filename, IDENTIFIER_GROUP as int)
}

/// Calls `Regex::new`. Believed: it returns `Ok` exactly for the patterns
/// that `regex_accepts` names, and the expression it returns captures what
/// `regex_group` names for the pattern.
#[verifier::external_body]
fn compile(pattern: &str) -> (r: Result<Regex, regex::Error>)
    ensures
        r is Ok <==> regex_accepts(pattern@),
        r matches Ok(re) ==> forall|haystack: Seq<char>, group: int|
            #[trigger] regex_captured(re, haystack, group) == regex_group(
                pattern@,
                haystack,
                group,
            ),
{
    Regex::new(pattern)
}

/// Calls `Regex::captures` and reads one group of what it found with
/// `Captures::get` and `Match::as_str`. Believed: the text handed back is
/// the one that `regex_captured` names.
#[verifier::external_body]
fn capture(re: &Regex, haystack: &str, group: usize) -> (r: Option<String>)
    ensures
        match r {
            Some(text) => regex_captured(*re, haystack@, group as int) == Some(text@),
            None => regex_captured(*re, haystack@, group as int) is None,
        },
{
    match re.captures(haystack) {
        Some(found) => match found.get(group) {
            Some(part) => Some(part.as_str().to_string()),
            None => None,
        },
        None => None,
    }
}

/// The engine did not compile the settings-file pattern.
#[derive(Debug, Clone, Copy, PartialEq, Eq)]
pub struct PatternRejected;

/// The compiled settings-file pattern.
pub struct FilenameMatcher {
    re: Regex,
}

impl FilenameMatcher {
    #[verifier::type_invariant]
    spec fn built_from_the_pattern(self) -> bool {
        forall|haystack: Seq<char>, group: int|
            #[trigger] regex_captured(self.re, haystack, group) == regex_group(
                SETTINGS_FILE_PATTERN@,
                haystack,
                group,
            )
    }

    /// Compiles the settings-file pattern. Fails exactly where the engine
    /// rejects the pattern text.
    pub fn new() -> (r: Result<FilenameMatcher, PatternRejected>)
        ensures
            r is Ok <==> regex_accepts(SETTINGS_FILE_PATTERN@),
    {
        match compile(SETTINGS_FILE_PATTERN) {
            Ok(re) => Ok(FilenameMatcher { re }),
            Err(_) => Err(PatternRejected),
        }
    }

    /// The identifier in a file name, if the name is a settings file's.
    pub fn identifier_of(&self, filename: &str) -> (r: Option<String>)
        ensures
            match r {
                Some(id) => settings_identifier(filename@) == Some(id@),
                None => settings_identifier(filename@) is None,
            },
    {
        proof {
            use_type_invariant(self);
        }
        capture(&self.re, filename, IDENTIFIER_GROUP)
    }
}

} // verus!
