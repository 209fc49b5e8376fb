//! Splitting a typed command line into the words of a command.

use vstd::prelude::*;
use crate::escape::{unescape_unicode, unescaped_text};

verus! {

/// The words that shell-word splitting makes of line `s`, or `None` where it
/// rejects the line.
pub uninterp spec fn shell_split(s: Seq<char>) -> Option<Seq<Seq<char>>>;

/// Line `s` without its leading and trailing white space.
pub uninterp spec fn trimmed(s: Seq<char>) -> Seq<char>;

/// Relies on `shell_words::split`: it splits a line into words by the rules of
/// the POSIX shell, and fails (`ParseError`) only where a quote is left open.
/// The words depend on the line alone.
#[verifier::external_body]
fn split_words(s: &str) -> (r: Option<Vec<String>>)
    ensures
        r.is_some() == shell_split(s@).is_some(),
        r matches Some(ws) ==> shell_split(s@) == Some(ws@.map_values(|w: String| w@)),
{
    shell_words::split(s).ok()
}

/// Relies on `str::trim`: the slice without leading and trailing white space,
/// which depends on the text alone.
#[verifier::external_body]
pub(crate) fn trim_text(s: &str) -> (r: &str)
    ensures
        r@ == trimmed(s@),
{
    s.trim()
}

/// Why a command line cannot be split into words.
#[derive(Debug, Clone, Copy, PartialEq, Eq)]
pub enum TokenizeError {
    /// The hex-unescape pass gave bytes that are not UTF-8.
    InvalidText,
    /// The shell-word rules reject the line: a quote is left open.
    Unbalanced,
}

/// The words of a command line, as `tokenize` gives them for each outcome of
/// the hex-unescape pass and of shell-word splitting.
pub open spec fn tokenized(line: Seq<char>) -> Result<Seq<Seq<char>>, TokenizeError> {
    match unescaped_text(line) {
        None => Err(TokenizeError::InvalidText),
        Some(t) => match shell_split(trimmed(t)) {
            None => Err(TokenizeError::Unbalanced),
            Some(ws) => Ok(ws),
        },
    }
}

/// Splits a typed command line into words: first `\xHH` escapes are decoded,
/// then the text is trimmed and split by shell-word rules, quotes removed.
pub fn tokenize(line: &str) -> (r: Result<Vec<String>, TokenizeError>)
    ensures
        match r {
            Ok(v) => tokenized(line@) == Ok::<Seq<Seq<char>>, TokenizeError>(
                v@.map_values(|w: String| w@),
            ),
            Err(e) => tokenized(line@) == Err::<Seq<Seq<char>>, TokenizeError>(e),
        },
{
    let text = match unescape_unicode(line) {
        Some(t) => t,
        None => {
            return Err(TokenizeError::InvalidText);
        },
    };
    match split_words(trim_text(text.as_str())) {
        Some(words) => Ok(words),
        None => Err(TokenizeError::Unbalanced),
    }
}

} // verus!
