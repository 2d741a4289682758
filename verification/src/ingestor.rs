//! The filter that decides which files of a directory are read: a regular
//! expression that a file's name has to match as a whole.

use onig::{MatchParam, Regex, SearchOptions};
use vstd::prelude::*;

verus! {

/// A compiled regular expression of the Oniguruma engine.
#[verifier::external_type_specification]
#[verifier::external_body]
pub struct ExRegex(onig::Regex);

/// An error of the Oniguruma engine.
#[verifier::external_type_specification]
#[verifier::external_body]
pub struct ExRegexError(onig::Error);

/// Whether the engine accepts `pattern` as a regular expression, in its
/// default syntax and with no options.
pub uninterp spec fn compiles(pattern: Seq<char>) -> bool;

/// The pattern that a compiled expression was made from.
pub uninterp spec fn source_of(regex: Regex) -> Seq<char>;

/// What the engine finds when it matches `pattern` at the start of `text`,
/// asked to match the whole of it: the number of bytes matched, or that
/// there is no match; and nothing where the engine gave up with an error.
pub uninterp spec fn match_at_start(pattern: Seq<char>, text: Seq<char>) -> Option<Option<usize>>;

/// The engine's code for an error, as the error holds it.
pub uninterp spec fn code_of(error: onig::Error) -> i32;

/// The engine's description of an error, as the error holds it.
pub uninterp spec fn description_of(error: onig::Error) -> Seq<char>;

/// Why a filter could not be set or applied.
#[derive(Debug)]
pub struct FilterError {
    /// The engine's error code.
    pub code: i32,
    /// The engine's description of the error.
    pub description: String,
}

/// Calls `onig::Regex::new`, which compiles a pattern in the engine's default
/// syntax with no options. The result is `Ok` on the patterns that the engine
/// accepts, and the expression it holds is then the one made from `pattern`.
#[verifier::external_body]
fn compile(pattern: &str) -> (r: Result<Regex, onig::Error>)
    ensures
        r is Ok <==> compiles(pattern@),
        r matches Ok(regex) ==> source_of(regex) == pattern@,
{
    Regex::new(pattern)
}

/// Calls `onig::Regex::match_with_param` at offset zero, with the option to
/// match the whole string, no region and the default parameters. The result
/// is the number of bytes matched, or `None` for a mismatch, or the engine's
/// error; it depends on the expression's pattern and on `text` alone.
#[verifier::external_body]
fn match_whole(regex: &Regex, text: &str) -> (r: Result<Option<usize>, onig::Error>)
    ensures
        match r {
            Ok(found) => match_at_start(source_of(*regex), text@) == Some(found),
            Err(_) => match_at_start(source_of(*regex), text@) is None,
        },
{
    regex.match_with_param(
        text,
        0,
        SearchOptions::SEARCH_OPTION_WHOLE_STRING,
        None,
        MatchParam::default(),
    )
}

/// Calls `onig::Error::code`: the code that the error holds.
#[verifier::external_body]
fn error_code(error: &onig::Error) -> (r: i32)
    ensures
        r == code_of(*error),
{
    error.code()
}

/// Calls `onig::Error::description`: the text that the error holds.
#[verifier::external_body]
fn error_description(error: &onig::Error) -> (r: String)
    ensures
        r@ == description_of(*error),
{
    error.description().to_owned()
}

/// The error as this library hands it on: the engine's code and the engine's
/// description of it, both as the engine's error holds them.
fn filter_error(error: &onig::Error) -> (r: FilterError)
    ensures
        r.code == code_of(*error),
        r.description@ == description_of(*error),
{
    FilterError { code: error_code(error), description: error_description(error) }
}

/// Whether a match that starts at the beginning of a text covers all `len`
/// bytes of it.
pub open spec fn covers_whole(found: Option<usize>, len: usize) -> bool {
    found == Some(len)
}

/// Whether what the engine found is a match of the whole text, which is
/// `len` bytes long.
pub fn is_whole_match(found: Option<usize>, len: usize) -> (r: bool)
    ensures
        r == covers_whole(found, len),
{
    match found {
        Some(matched) => matched == len,
        None => false,
    }
}

/// Decides which files are read.
pub struct Ingestor {
    filt_regex: Option<Regex>,
}

impl Ingestor {
    /// The pattern of the filter, where one is set.
    pub closed spec fn filter(&self) -> Option<Seq<char>> {
        match self.filt_regex {
            Some(regex) => Some(source_of(regex)),
            None => None,
        }
    }

    /// An ingestor that admits every file.
    pub fn new() -> (r: Self)
        ensures
            r.filter() is None,
    {
        Ingestor { filt_regex: None }
    }

    /// Sets the filter to `pattern`, where the engine accepts it; where it
    /// does not, the filter stays as it was.
    pub fn set_filter(&mut self, pattern: &str) -> (r: Result<(), FilterError>)
        ensures
            r is Ok <==> compiles(pattern@),
            r is Ok ==> final(self).filter() == Some(pattern@),
            r is Err ==> final(self).filter() == old(self).filter(),
    {
        match compile(pattern) {
            Ok(regex) => {
                self.filt_regex = Some(regex);
                Ok(())
            },
            Err(error) => Err(filter_error(&error)),
        }
    }

    /// Whether a file of this name is read. A file is read where no filter
    /// is set, where it has no name that can be matched, and where the
    /// filter matches the whole of its name.
    pub fn admits(&self, name: Option<&str>) -> (r: Result<bool, FilterError>)
        ensures
            match (self.filter(), name) {
                (Some(pattern), Some(text)) => match match_at_start(pattern, text@) {
                    Some(found) => r == Ok::<bool, FilterError>(covers_whole(found, text.len())),
                    None => r is Err,
                },
                _ => r == Ok::<bool, FilterError>(true),
            },
    {
        match (&self.filt_regex, name) {
            (Some(regex), Some(text)) => match match_whole(regex, text) {
                Ok(found) => Ok(is_whole_match(found, text.len())),
                Err(error) => Err(filter_error(&error)),
            },
            _ => Ok(true),
        }
    }
}

} // verus!
