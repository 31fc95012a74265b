//! Regular expressions, as the `regex` crate understands them.
use regex::Regex;
use vstd::prelude::*;

verus! {

/// The reason for which `regex::Regex::new` rejects a pattern, or `None` where it compiles
/// the pattern, on a machine with words of so many bits. The crate refuses a pattern whose
/// compiled form takes more than ten mebibytes, and what it takes depends on the size of a
/// word.
pub uninterp spec fn regex_rejection(pattern: Seq<char>, word_bits: nat) -> Option<Seq<char>>;

/// Whether `regex::Regex::is_match` finds a match of a pattern anywhere in a text.
pub uninterp spec fn regex_accepts(pattern: Seq<char>, text: Seq<char>) -> bool;

/// Whether a pattern matches somewhere in a text, or why the pattern is rejected.
pub open spec fn regex_search(pattern: Seq<char>, text: Seq<char>) -> Result<bool, Seq<char>> {
    match regex_rejection(pattern, usize::BITS as nat) {
        Some(reason) => Err(reason),
        None => Ok(regex_accepts(pattern, text)),
    }
}

/// Compiles a pattern with `regex::Regex::new` and, where that succeeds, looks for a match in
/// a text with `regex::Regex::is_match`. The contract claims that whether the pattern
/// compiles, and the text of the error where it does not, depends on the pattern and on the
/// machine's word size alone, and that whether there is a match depends on the pattern and
/// the text alone. It does not say which patterns compile or what they match.
#[verifier::external_body]
pub(crate) fn search(pattern: &str, text: &str) -> (found: Result<bool, String>)
    ensures
        match found {
            Err(reason) => regex_rejection(pattern@, usize::BITS as nat) == Some(reason@),
            Ok(yes) => regex_rejection(pattern@, usize::BITS as nat) is None && yes
                == regex_accepts(pattern@, text@),
        },
{
    match Regex::new(pattern) {
        Ok(regex) => Ok(regex.is_match(text)),
        Err(error) => Err(error.to_string()),
    }
}

} // verus!
