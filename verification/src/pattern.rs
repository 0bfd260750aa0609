use vstd::prelude::*;

verus! {

#[verifier::external_type_specification]
#[verifier::external_body]
pub struct ExRegex(regex::Regex);

#[verifier::external_type_specification]
#[verifier::external_body]
pub struct ExRegexError(regex::Error);

/// Whether `regex::Regex::new` accepts `pattern`.
pub uninterp spec fn regex_compiles(pattern: Seq<char>) -> bool;

/// What `regex::Regex::is_match` gives for the compiled `pattern` on `hay`.
pub uninterp spec fn regex_is_match(pattern: Seq<char>, hay: Seq<char>) -> bool;

/// The text of the match that `regex::Regex::find` gives for the compiled
/// `pattern` on `hay`, if there is one.
pub uninterp spec fn regex_find(pattern: Seq<char>, hay: Seq<char>) -> Option<Seq<char>>;

/// For the match that `regex::Regex::captures` gives for the compiled
/// `pattern` on `hay`: the text of capture group 1 and the text of `hay`
/// after the group's end; `None` where there is no match or group 1 took
/// no part in it.
pub uninterp spec fn regex_group1(pattern: Seq<char>, hay: Seq<char>) -> Option<
    (Seq<char>, Seq<char>),
>;

/// A compiled regular expression and the pattern text it was compiled from.
/// Only `compile` makes one.
pub struct Pattern {
    re: regex::Regex,
    source: String,
}

impl Pattern {
    /// The pattern text.
    pub closed spec fn source(&self) -> Seq<char> {
        self.source@
    }
}

/// `regex::Regex::new(pattern)`: the contract claims that it succeeds
/// exactly where the name `regex_compiles` holds, and that the compiled
/// expression is kept with its pattern text.
#[verifier::external_body]
pub(crate) fn compile(pattern: &str) -> (r: Result<Pattern, regex::Error>)
    ensures
        r is Ok <==> regex_compiles(pattern@),
        r matches Ok(p) ==> p.source() == pattern@,
{
    match regex::Regex::new(pattern) {
        Ok(re) => Ok(Pattern { re, source: pattern.to_string() }),
        Err(e) => Err(e),
    }
}

/// `regex::Regex::is_match`: the contract names its result and claims no more.
#[verifier::external_body]
pub(crate) fn is_match(p: &Pattern, hay: &str) -> (r: bool)
    ensures
        r == regex_is_match(p.source(), hay@),
{
    p.re.is_match(hay)
}

/// `regex::Regex::find`, giving the matched text: the contract names its
/// result and claims no more.
#[verifier::external_body]
pub(crate) fn find(p: &Pattern, hay: &str) -> (r: Option<String>)
    ensures
        match r {
            Some(m) => regex_find(p.source(), hay@) == Some(m@),
            None => regex_find(p.source(), hay@) is None,
        },
{
    match p.re.find(hay) {
        Some(m) => Some(m.as_str().to_string()),
        None => None,
    }
}

/// `regex::Regex::captures`, giving the text of capture group 1 and the text
/// of `hay` after the group: the contract names the result and claims no more.
#[verifier::external_body]
pub(crate) fn captures_group1(p: &Pattern, hay: &str) -> (r: Option<(String, String)>)
    ensures
        match r {
            Some((g, rest)) => regex_group1(p.source(), hay@) == Some((g@, rest@)),
            None => regex_group1(p.source(), hay@) is None,
        },
{
    match p.re.captures(hay) {
        Some(c) => match c.get(1) {
            Some(m) => Some((m.as_str().to_string(), hay[m.end()..].to_string())),
            None => None,
        },
        None => None,
    }
}

} // verus!
