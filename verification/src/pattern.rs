//! The regular-expression side of text normalization: escaping literal
//! keys, compiling a pattern, and replacing each of its matches through a
//! lookup table.
use vstd::prelude::*;
use vstd::string::*;
use crate::table::StringMap;
use crate::text::{lowercase, to_lowercase};

verus! {

#[verifier::external_type_specification]
#[verifier::external_body]
pub struct ExRegex(regex::Regex);

#[verifier::external_type_specification]
#[verifier::external_body]
pub struct ExRegexError(regex::Error);

/// Whether `regex::Regex::new` accepts a pattern (it refuses bad syntax and
/// patterns beyond its size limits); a function of the pattern alone.
pub uninterp spec fn regex_accepts(pattern: Seq<char>) -> bool;

/// What `regex::Regex::replace_all` returns for a regex compiled from
/// `pattern`, the haystack `text`, and a replacer that gives, for each
/// match, `replacement(table, match)`.
pub uninterp spec fn replaced_matches(
    pattern: Seq<char>,
    text: Seq<char>,
    table: Map<Seq<char>, Seq<char>>,
) -> Seq<char>;

/// The characters that `regex::escape` puts a backslash before.
pub open spec fn is_meta(c: char) -> bool {
    c == '\\' || c == '.' || c == '+' || c == '*' || c == '?' || c == '(' || c == ')' || c == '|'
        || c == '[' || c == ']' || c == '{' || c == '}' || c == '^' || c == '$' || c == '#' || c
        == '&' || c == '-' || c == '~'
}

/// The text with a backslash before each meta character, so that a regex
/// matches it literally.
pub open spec fn escaped(s: Seq<char>) -> Seq<char>
    decreases s.len(),
{
    if s.len() == 0 {
        seq![]
    } else {
        let p = escaped(s.drop_last());
        if is_meta(s.last()) {
            p.push('\\').push(s.last())
        } else {
            p.push(s.last())
        }
    }
}

/// Calls `regex::escape`, which, in the version used, walks the characters
/// and pushes `\` before each one for which `is_meta_character` holds; the
/// contract states exactly that.
#[verifier::external_body]
pub(crate) fn escape(s: &str) -> (r: String)
    ensures
        r@ == escaped(s@),
{
    regex::escape(s)
}

/// What a match is replaced with: the table's value for its lower-cased
/// text, or the match itself when the table has no such key.
pub open spec fn replacement(table: Map<Seq<char>, Seq<char>>, matched: Seq<char>) -> Seq<char> {
    if table.contains_key(lowercase(matched)) {
        table[lowercase(matched)]
    } else {
        matched
    }
}

/// The replacement for one match.
pub fn replacement_for(table: &StringMap, matched: &str) -> (r: String)
    ensures
        r@ == replacement(table@, matched@),
{
    let lower = to_lowercase(matched);
    match table.get(lower.as_str()) {
        Some(v) => v.clone(),
        None => String::from_str(matched),
    }
}

/// A compiled regex together with the pattern it was compiled from. Only
/// `compile` builds one, so the two always belong together.
pub struct PatternMatcher {
    source: String,
    regex: regex::Regex,
}

impl PatternMatcher {
    /// The pattern the regex was compiled from.
    pub closed spec fn source(self) -> Seq<char> {
        self.source@
    }

    /// Calls `regex::Regex::new` on the pattern and keeps the pattern beside
    /// the regex. The contract states that the call succeeds exactly when
    /// the pattern is one the crate accepts (named, not described) and that
    /// the matcher remembers its pattern.
    #[verifier::external_body]
    pub(crate) fn compile(source: String) -> (r: Result<PatternMatcher, regex::Error>)
        ensures
            r is Ok <==> regex_accepts(source@),
            r matches Ok(m) ==> m.source() == source@,
    {
        match regex::Regex::new(&source) {
            Ok(regex) => Ok(PatternMatcher { source, regex }),
            Err(e) => Err(e),
        }
    }

    /// Calls `regex::Regex::replace_all` with a replacer that hands each
    /// whole match to `replacement_for`. The result is only named: nothing
    /// is stated of which parts of the text match.
    #[verifier::external_body]
    pub(crate) fn replace_all(&self, text: &str, table: &StringMap) -> (r: String)
        ensures
            r@ == replaced_matches(self.source(), text@, table@),
    {
        self.regex.replace_all(text, |caps: &regex::Captures| replacement_for(table, &caps[0])).into_owned()
    }
}

} // verus!
