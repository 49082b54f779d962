//! Patterns compiled by the regex and globset crates. What a compiled pattern
//! accepts is named here and not spelled out: the engine's own logic is stated
//! over these names.

use vstd::prelude::*;

verus! {

/// regex::Regex, held opaque: a compiled regex.
#[verifier::external_type_specification]
#[verifier::external_body]
pub struct ExRegex(regex::Regex);

/// globset::GlobSet, held opaque: compiled globs.
#[verifier::external_type_specification]
#[verifier::external_body]
pub struct ExGlobSet(globset::GlobSet);

/// Whether the regex crate accepts `pattern`, built with the given
/// case-insensitivity.
pub uninterp spec fn regex_compiles(pattern: Seq<char>, case_insensitive: bool) -> bool;

/// Whether the regex built from `pattern` matches somewhere in `text`.
pub uninterp spec fn regex_finds(pattern: Seq<char>, case_insensitive: bool, text: Seq<char>) -> bool;

/// `text` with every non-overlapping match of the regex built from `pattern`,
/// left to right, replaced by `replacement` taken literally.
pub uninterp spec fn regex_replaced(
    pattern: Seq<char>,
    case_insensitive: bool,
    text: Seq<char>,
    replacement: Seq<char>,
) -> Seq<char>;

/// The byte ranges of the successive non-overlapping matches, left to right,
/// of the regex built from `pattern` in `text`.
pub uninterp spec fn regex_spans(pattern: Seq<char>, case_insensitive: bool, text: Seq<char>) -> Seq<(usize, usize)>;

/// Whether globset accepts `pattern` as a case-insensitive glob and builds a
/// glob set of it.
pub uninterp spec fn glob_compiles(pattern: Seq<char>) -> bool;

/// Whether the case-insensitive glob `pattern` matches the path `path`.
pub uninterp spec fn glob_matches(pattern: Seq<char>, path: Seq<char>) -> bool;

/// The characters that regex syntax gives a meaning to.
pub open spec fn is_regex_meta(c: char) -> bool {
    c == '\\' || c == '.' || c == '+' || c == '*' || c == '?' || c == '(' || c == ')'
        || c == '|' || c == '[' || c == ']' || c == '{' || c == '}' || c == '^'
        || c == '$' || c == '#' || c == '&' || c == '-' || c == '~'
}

/// `s` with a backslash put before each regex meta character, so that the
/// result matches `s` literally.
pub open spec fn escaped(s: Seq<char>) -> Seq<char>
    decreases s.len(),
{
    if s.len() == 0 {
        Seq::empty()
    } else if is_regex_meta(s.last()) {
        escaped(s.drop_last()).push('\\').push(s.last())
    } else {
        escaped(s.drop_last()).push(s.last())
    }
}

/// Relies on regex::escape: a backslash before each meta character.
#[verifier::external_body]
pub(crate) fn escape_regex(s: &str) -> (r: String)
    ensures
        r@ == escaped(s@),
{
    regex::escape(s)
}

/// A regex together with the pattern and flag it was built from.
pub struct RegexMatcher {
    re: regex::Regex,
    pattern: String,
    case_insensitive: bool,
}

impl RegexMatcher {
    pub closed spec fn pattern(&self) -> Seq<char> {
        self.pattern@
    }

    pub closed spec fn is_case_insensitive(&self) -> bool {
        self.case_insensitive
    }

    /// Relies on regex::RegexBuilder::build, with `case_insensitive` set: it
    /// fails on a pattern that the crate does not accept.
    #[verifier::external_body]
    pub(crate) fn compile(pattern: &str, case_insensitive: bool) -> (r: Option<RegexMatcher>)
        ensures
            r is Some <==> regex_compiles(pattern@, case_insensitive),
            r matches Some(m) ==> m.pattern() == pattern@ && m.is_case_insensitive()
                == case_insensitive,
    {
        match regex::RegexBuilder::new(pattern).case_insensitive(case_insensitive).build() {
            Ok(re) => Some(RegexMatcher { re, pattern: pattern.to_string(), case_insensitive }),
            Err(_) => None,
        }
    }

    /// Relies on regex::Regex::is_match: whether the regex matches anywhere in
    /// `text`.
    #[verifier::external_body]
    pub(crate) fn is_match(&self, text: &str) -> (r: bool)
        ensures
            r == regex_finds(self.pattern(), self.is_case_insensitive(), text@),
    {
        self.re.is_match(text)
    }

    /// Relies on regex::Regex::find_iter: the byte ranges of the successive
    /// non-overlapping matches in `text`.
    #[verifier::external_body]
    pub(crate) fn find_spans(&self, text: &str) -> (r: Vec<(usize, usize)>)
        ensures
            r@ == regex_spans(self.pattern(), self.is_case_insensitive(), text@),
    {
        self.re.find_iter(text).map(|m| (m.start(), m.end())).collect()
    }

    /// Relies on regex::Regex::replace_all with regex::NoExpand: every
    /// non-overlapping match, left to right, replaced by `replacement` as it
    /// stands.
    #[verifier::external_body]
    pub(crate) fn replace_all(&self, text: &str, replacement: &str) -> (r: String)
        ensures
            r@ == regex_replaced(self.pattern(), self.is_case_insensitive(), text@, replacement@),
    {
        self.re.replace_all(text, regex::NoExpand(replacement)).to_string()
    }
}

/// A case-insensitive glob together with the pattern it was built from.
pub struct GlobPattern {
    set: globset::GlobSet,
    pattern: String,
}

impl GlobPattern {
    pub closed spec fn pattern(&self) -> Seq<char> {
        self.pattern@
    }

    /// Relies on globset::GlobBuilder::build, with case-insensitivity set, and
    /// globset::GlobSetBuilder::build: each returns an error, and does not
    /// panic, on a pattern that globset does not accept or cannot compile.
    #[verifier::external_body]
    pub(crate) fn compile(pattern: &str) -> (r: Option<GlobPattern>)
        ensures
            r is Some <==> glob_compiles(pattern@),
            r matches Some(g) ==> g.pattern() == pattern@,
    {
        let glob = globset::GlobBuilder::new(pattern).case_insensitive(true).build().ok()?;
        match globset::GlobSetBuilder::new().add(glob).build() {
            Ok(set) => Some(GlobPattern { set, pattern: pattern.to_string() }),
            Err(_) => None,
        }
    }

    /// Relies on globset::GlobSet::is_match: whether the glob matches the
    /// whole path.
    #[verifier::external_body]
    pub(crate) fn is_match(&self, path: &str) -> (r: bool)
        ensures
            r == glob_matches(self.pattern(), path@),
    {
        self.set.is_match(std::path::Path::new(path))
    }
}

} // verus!
