//! The name transformation: a global, left-to-right, non-overlapping
//! search-and-replace on a base name, literal or by regex.

use vstd::prelude::*;
use crate::matchers::{escape_regex, escaped, regex_compiles, regex_replaced, RegexMatcher};
use crate::path::{has_sep, has_sep_vec};
use crate::text::chars_of;

verus! {

/// What a replacement is allowed to produce: a name with a path separator in
/// it would move the file out of its directory, so the name is kept instead.
pub open spec fn accepted(name: Seq<char>, replaced: Seq<char>) -> Seq<char> {
    if has_sep(replaced) {
        name
    } else {
        replaced
    }
}

/// The base name that `name` becomes. An empty search, or a pattern that does
/// not compile, leaves it as it is. In literal mode the search is escaped
/// first; the replacement is inserted as it stands.
pub open spec fn transformed(
    name: Seq<char>,
    search: Seq<char>,
    replace: Seq<char>,
    case_sensitive: bool,
    regex_mode: bool,
) -> Seq<char> {
    if search.len() == 0 {
        name
    } else {
        let pattern = if regex_mode {
            search
        } else {
            escaped(search)
        };
        if !regex_compiles(pattern, !case_sensitive) {
            name
        } else {
            accepted(name, regex_replaced(pattern, !case_sensitive, name, replace))
        }
    }
}

/// The outcome of a replacement on `name`: `replaced`, unless it holds a path
/// separator, in which case `name` is kept.
pub fn accept_replacement(name: &str, replaced: String) -> (r: String)
    ensures
        r@ == accepted(name@, replaced@),
{
    let v = chars_of(replaced.as_str());
    if has_sep_vec(&v) {
        String::from_str(name)
    } else {
        replaced
    }
}

/// The base name that `name` becomes under the search and replace patterns.
pub fn transform_name(
    name: &str,
    search: &str,
    replace: &str,
    case_sensitive: bool,
    regex_mode: bool,
) -> (r: String)
    ensures
        r@ == transformed(name@, search@, replace@, case_sensitive, regex_mode),
{
    if search.is_empty() {
        return String::from_str(name);
    }
    let pattern = if regex_mode {
        String::from_str(search)
    } else {
        escape_regex(search)
    };
    match RegexMatcher::compile(pattern.as_str(), !case_sensitive) {
        Some(re) => {
            let replaced = re.replace_all(name, replace);
            accept_replacement(name, replaced)
        },
        None => String::from_str(name),
    }
}

} // verus!
