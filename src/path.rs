//! Paths as character sequences: the base name is what follows the last
//! separator, and a rename target keeps everything before it.

use vstd::prelude::*;
use crate::text::chars_of;

verus! {

/// Path separators: both the slash and the backslash.
pub open spec fn is_sep(c: char) -> bool {
    c == '/' || c == '\\'
}

/// Whether `s` holds a path separator.
pub open spec fn has_sep(s: Seq<char>) -> bool {
    exists|i: int| 0 <= i < s.len() && is_sep(s[i])
}

/// The index where the base name of `p` starts: just past its last separator,
/// or 0 if it has none.
pub open spec fn name_start(p: Seq<char>) -> nat
    decreases p.len(),
{
    if p.len() == 0 {
        0
    } else if is_sep(p.last()) {
        p.len()
    } else {
        name_start(p.drop_last())
    }
}

/// The base name of `p`: what follows its last separator.
pub open spec fn basename(p: Seq<char>) -> Seq<char> {
    p.skip(name_start(p) as int)
}

/// The directory part of `p`, with its trailing separator.
pub open spec fn dir_part(p: Seq<char>) -> Seq<char> {
    p.take(name_start(p) as int)
}

/// The path that renaming `p` to the base name `name` produces.
pub open spec fn target_of(p: Seq<char>, name: Seq<char>) -> Seq<char> {
    dir_part(p) + name
}

pub fn is_sep_char(c: char) -> (r: bool)
    ensures
        r == is_sep(c),
{
    c == '/' || c == '\\'
}

/// Whether `s` holds a path separator.
pub fn has_sep_vec(s: &Vec<char>) -> (r: bool)
    ensures
        r == has_sep(s@),
{
    let mut i: usize = 0;
    while i < s.len()
        invariant
            i <= s.len(),
            forall|j: int| 0 <= j < i ==> !is_sep(s@[j]),
        decreases s.len() - i,
    {
        if is_sep_char(s[i]) {
            return true;
        }
        i += 1;
    }
    false
}

/// The index where the base name of `p` starts.
pub fn name_start_of(p: &Vec<char>) -> (r: usize)
    ensures
        r == name_start(p@),
        r <= p.len(),
{
    let mut i: usize = p.len();
    assert(p@.take(i as int) =~= p@);
    while i > 0 && !is_sep_char(p[i - 1])
        invariant
            i <= p.len(),
            name_start(p@) == name_start(p@.take(i as int)),
        decreases i,
    {
        assert(p@.take(i as int).drop_last() =~= p@.take(i - 1));
        i -= 1;
    }
    i
}

/// The base name of `path`.
pub fn basename_of(path: &str) -> (r: String)
    ensures
        r@ == basename(path@),
{
    let v = chars_of(path);
    let start = name_start_of(&v);
    String::from_str(path.substring_char(start, v.len()))
}

/// The path that renaming `path` to the base name `name` produces.
pub fn target_path(path: &str, name: &str) -> (r: String)
    ensures
        r@ == target_of(path@, name@),
{
    let v = chars_of(path);
    let start = name_start_of(&v);
    let mut r = String::from_str(path.substring_char(0, start));
    r.append(name);
    r
}

} // verus!
