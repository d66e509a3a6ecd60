//! Literal pattern matching through the `regex` crate.

use vstd::prelude::*;
use crate::text::contains;

verus! {

/// Whether `c` is one of the characters that `regex::escape` escapes.
pub open spec fn is_regex_meta(c: char) -> bool {
    ||| c == '\\'
    ||| c == '.'
    ||| c == '+'
    ||| c == '*'
    ||| c == '?'
    ||| c == '('
    ||| c == ')'
    ||| c == '|'
    ||| c == '['
    ||| c == ']'
    ||| c == '{'
    ||| c == '}'
    ||| c == '^'
    ||| c == '$'
    ||| c == '#'
    ||| c == '&'
    ||| c == '-'
    ||| c == '~'
}

/// `s` with a backslash put before each regex meta character.
pub open spec fn escaped(s: Seq<char>) -> Seq<char>
    decreases s.len(),
{
    if s.len() == 0 {
        seq![]
    } else {
        escaped(s.drop_last()) + if is_regex_meta(s.last()) {
            seq!['\\', s.last()]
        } else {
            seq![s.last()]
        }
    }
}

/// Whether `regex::Regex::new` accepts `pattern` (it refuses invalid syntax
/// and patterns that compile to more than its default size limit).
pub uninterp spec fn regex_compiles(pattern: Seq<char>) -> bool;

/// What `regex::Regex::is_match` answers for the regex compiled from
/// `pattern` on `haystack`.
pub uninterp spec fn regex_is_match(pattern: Seq<char>, haystack: Seq<char>) -> bool;

/// `regex::escape` puts a backslash before each meta character of its
/// argument (its source: a loop over the characters that pushes `\` before
/// each one for which `is_meta_character` holds, then the character).
pub assume_specification[ regex::escape ](pattern: &str) -> (r: String)
    ensures
        r@ == escaped(pattern@),
;

/// `regex::Error`, the error of `regex::Regex::new`.
#[verifier::external_type_specification]
#[verifier::external_body]
pub struct ExRegexError(regex::Error);

/// Compiles `pattern` with `regex::Regex::new` and, where that succeeds,
/// answers `Regex::is_match` of the compiled regex on `haystack`.
/// Claimed: the call succeeds exactly when the pattern compiles; the answer is
/// the named result of `is_match`; and, as the documentation of `escape`
/// says that its result matches its argument literally while `is_match`
/// reports a match anywhere in the haystack, the answer for an escaped
/// literal is whether the literal occurs in the haystack.
#[verifier::external_body]
fn regex_match(pattern: &str, haystack: &str) -> (r: Result<bool, regex::Error>)
    ensures
        r is Ok <==> regex_compiles(pattern@),
        r matches Ok(b) ==> b == regex_is_match(pattern@, haystack@),
        r matches Ok(b) ==> forall|lit: Seq<char>|
            #[trigger] escaped(lit) == pattern@ ==> (b <==> contains(haystack@, lit)),
{
    match regex::Regex::new(pattern) {
        Ok(re) => Ok(re.is_match(haystack)),
        Err(e) => Err(e),
    }
}

/// Whether the regex that matches `literal` literally compiles.
pub open spec fn literal_compiles(literal: Seq<char>) -> bool {
    regex_compiles(escaped(literal))
}

/// Whether `literal` occurs in `haystack`, decided by the regex crate on the
/// escaped literal.
pub fn literal_is_match(literal: &str, haystack: &str) -> (r: bool)
    requires
        literal_compiles(literal@),
    ensures
        r == contains(haystack@, literal@),
{
    let pattern = regex::escape(literal);
    match regex_match(pattern.as_str(), haystack) {
        Ok(b) => b,
        Err(_) => false,
    }
}

/// Whether the regex that matches `literal` literally compiles.
pub fn check_literal(literal: &str) -> (r: bool)
    ensures
        r == literal_compiles(literal@),
{
    let pattern = regex::escape(literal);
    regex_match(pattern.as_str(), "").is_ok()
}

} // verus!
