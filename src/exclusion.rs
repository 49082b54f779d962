//! Exclusion rules: a comma-separated list of tokens, each a regex (`re:`
//! prefix), a glob, a path part or a file-name part. A path is excluded when
//! any token matches it.

use vstd::prelude::*;
use crate::matchers::{
    glob_compiles, glob_matches, regex_compiles, regex_finds, GlobPattern, RegexMatcher,
};
use crate::path::{basename, has_sep, has_sep_vec, name_start_of};
use crate::text::{chars_of, contains, contains_vec, lower, lower_vec, to_lower_char, lower_char};

verus! {

/// The white space that `str::trim` removes: Unicode's White_Space property.
pub open spec fn is_space(c: char) -> bool {
    ('\u{9}' <= c && c <= '\u{d}') || c == ' ' || c == '\u{85}' || c == '\u{a0}'
        || c == '\u{1680}' || ('\u{2000}' <= c && c <= '\u{200a}') || c == '\u{2028}'
        || c == '\u{2029}' || c == '\u{202f}' || c == '\u{205f}' || c == '\u{3000}'
}

pub open spec fn trim_start(s: Seq<char>) -> Seq<char>
    decreases s.len(),
{
    if s.len() > 0 && is_space(s[0]) {
        trim_start(s.drop_first())
    } else {
        s
    }
}

pub open spec fn trim_end(s: Seq<char>) -> Seq<char>
    decreases s.len(),
{
    if s.len() > 0 && is_space(s.last()) {
        trim_end(s.drop_last())
    } else {
        s
    }
}

/// `s` without leading and trailing white space.
pub open spec fn trim(s: Seq<char>) -> Seq<char> {
    trim_end(trim_start(s))
}

/// The parts of `s` between commas, in order; one more than there are commas.
pub open spec fn split_commas(s: Seq<char>) -> Seq<Seq<char>>
    decreases s.len(),
{
    if s.len() == 0 {
        seq![Seq::empty()]
    } else {
        let prev = split_commas(s.drop_last());
        if s.last() == ',' {
            prev.push(Seq::empty())
        } else {
            prev.update(prev.len() - 1, prev.last().push(s.last()))
        }
    }
}

/// The tokens of an exclusion list: its comma-separated parts, trimmed. Empty
/// tokens stay in the sequence and exclude nothing.
pub open spec fn exclusion_tokens(list: Seq<char>) -> Seq<Seq<char>> {
    split_commas(list).map_values(|t: Seq<char>| trim(t))
}

/// The four kinds of exclusion token.
#[derive(PartialEq, Eq, Structural, Clone, Copy, Debug)]
pub enum TokenKind {
    Regex,
    Glob,
    PathPart,
    NamePart,
}

/// A token that starts with `re:`, in any case.
pub open spec fn is_regex_token(t: Seq<char>) -> bool {
    t.len() >= 3 && lower_char(t[0]) == 'r' && lower_char(t[1]) == 'e' && t[2] == ':'
}

pub open spec fn is_glob_meta(c: char) -> bool {
    c == '*' || c == '?' || c == '[' || c == '{'
}

pub open spec fn has_glob_meta(t: Seq<char>) -> bool {
    exists|i: int| 0 <= i < t.len() && is_glob_meta(t[i])
}

/// How a token is read, in order of priority.
pub open spec fn kind_of(t: Seq<char>) -> TokenKind {
    if is_regex_token(t) {
        TokenKind::Regex
    } else if has_glob_meta(t) {
        TokenKind::Glob
    } else if has_sep(t) {
        TokenKind::PathPart
    } else {
        TokenKind::NamePart
    }
}

/// Whether the token `t` excludes the file at `path`: a regex or a glob that
/// compiles and matches the path, or a part of the path or of its base name,
/// compared in lower case.
pub open spec fn token_excludes(t: Seq<char>, path: Seq<char>) -> bool {
    t.len() > 0 && match kind_of(t) {
        TokenKind::Regex => regex_compiles(t.skip(3), true) && regex_finds(t.skip(3), true, path),
        TokenKind::Glob => glob_compiles(t) && glob_matches(t, path),
        TokenKind::PathPart => contains(lower(path), lower(t)),
        TokenKind::NamePart => contains(lower(basename(path)), lower(t)),
    }
}

/// Whether the token `t` is a regex or a glob that does not compile.
pub open spec fn token_invalid(t: Seq<char>) -> bool {
    t.len() > 0 && match kind_of(t) {
        TokenKind::Regex => !regex_compiles(t.skip(3), true),
        TokenKind::Glob => !glob_compiles(t),
        _ => false,
    }
}

/// Whether the exclusion list `list` excludes the file at `path`.
pub open spec fn excluded(list: Seq<char>, path: Seq<char>) -> bool {
    exists|i: int|
        0 <= i < exclusion_tokens(list).len() && token_excludes(
            #[trigger] exclusion_tokens(list)[i],
            path,
        )
}

pub open spec fn count_invalid(tokens: Seq<Seq<char>>) -> nat
    decreases tokens.len(),
{
    if tokens.len() == 0 {
        0
    } else {
        count_invalid(tokens.drop_last()) + if token_invalid(tokens.last()) {
            1nat
        } else {
            0nat
        }
    }
}

/// How many tokens of `list` are a regex or a glob that does not compile.
pub open spec fn invalid_tokens(list: Seq<char>) -> nat {
    count_invalid(exclusion_tokens(list))
}

pub fn is_space_char(c: char) -> (r: bool)
    ensures
        r == is_space(c),
{
    ('\u{9}' <= c && c <= '\u{d}') || c == ' ' || c == '\u{85}' || c == '\u{a0}'
        || c == '\u{1680}' || ('\u{2000}' <= c && c <= '\u{200a}') || c == '\u{2028}'
        || c == '\u{2029}' || c == '\u{202f}' || c == '\u{205f}' || c == '\u{3000}'
}

/// The bounds of `v[lo..hi]` trimmed.
fn trim_range(v: &Vec<char>, lo: usize, hi: usize) -> (r: (usize, usize))
    requires
        lo <= hi <= v.len(),
    ensures
        lo <= r.0 <= r.1 <= hi,
        trim(v@.subrange(lo as int, hi as int)) == v@.subrange(r.0 as int, r.1 as int),
{
    let mut a: usize = lo;
    while a < hi && is_space_char(v[a])
        invariant
            lo <= a <= hi <= v.len(),
            trim_start(v@.subrange(lo as int, hi as int)) == trim_start(
                v@.subrange(a as int, hi as int),
            ),
        decreases hi - a,
    {
        assert(v@.subrange(a as int, hi as int).drop_first() =~= v@.subrange(a + 1, hi as int));
        a += 1;
    }
    let ghost started = v@.subrange(a as int, hi as int);
    assert(trim_start(started) == started);
    let mut b: usize = hi;
    assert(v@.subrange(a as int, b as int) =~= started);
    while b > a && is_space_char(v[b - 1])
        invariant
            lo <= a <= b <= hi <= v.len(),
            trim_end(started) == trim_end(v@.subrange(a as int, b as int)),
        decreases b,
    {
        assert(v@.subrange(a as int, b as int).drop_last() =~= v@.subrange(a as int, b - 1));
        b -= 1;
    }
    (a, b)
}

pub fn is_glob_meta_char(c: char) -> (r: bool)
    ensures
        r == is_glob_meta(c),
{
    c == '*' || c == '?' || c == '[' || c == '{'
}

/// The kind of the non-empty token `v[a..b]`.
fn classify(v: &Vec<char>, a: usize, b: usize) -> (r: TokenKind)
    requires
        a <= b <= v.len(),
    ensures
        r == kind_of(v@.subrange(a as int, b as int)),
{
    if b - a >= 3 && to_lower_char(v[a]) == 'r' && to_lower_char(v[a + 1]) == 'e' && v[a + 2]
        == ':' {
        return TokenKind::Regex;
    }
    let mut part: Vec<char> = Vec::new();
    let mut i: usize = a;
    let mut meta = false;
    while i < b
        invariant
            a <= i <= b <= v.len(),
            part@ == v@.subrange(a as int, i as int),
            meta == has_glob_meta(part@),
        decreases b - i,
    {
        let ghost before = part@;
        if is_glob_meta_char(v[i]) {
            meta = true;
        }
        part.push(v[i]);
        i += 1;
        assert(part@ =~= v@.subrange(a as int, i as int));
        assert(part@ =~= before.push(v@[i - 1]));
        proof {
            if !meta {
                assert forall|j: int| 0 <= j < part@.len() implies !is_glob_meta(part@[j]) by {
                    if j < before.len() {
                        assert(part@[j] == before[j]);
                    }
                }
            } else {
                assert(is_glob_meta(part@[part@.len() - 1]) || has_glob_meta(before));
                if !is_glob_meta(part@[part@.len() - 1]) {
                    let k = choose|k: int| 0 <= k < before.len() && is_glob_meta(before[k]);
                    assert(part@[k] == before[k]);
                }
            }
        }
    }
    if meta {
        TokenKind::Glob
    } else if has_sep_vec(&part) {
        TokenKind::PathPart
    } else {
        TokenKind::NamePart
    }
}

/// The lower-cased characters of `v[a..b]`.
fn lower_range(v: &Vec<char>, a: usize, b: usize) -> (r: Vec<char>)
    requires
        a <= b <= v.len(),
    ensures
        r@ == lower(v@.subrange(a as int, b as int)),
{
    let mut part: Vec<char> = Vec::new();
    let mut i: usize = a;
    while i < b
        invariant
            a <= i <= b <= v.len(),
            part@ == v@.subrange(a as int, i as int),
        decreases b - i,
    {
        part.push(v[i]);
        i += 1;
        assert(part@ =~= v@.subrange(a as int, i as int));
    }
    lower_vec(&part)
}

/// The compiled form of an exclusion list.
pub struct ExclusionSet {
    regexes: Vec<RegexMatcher>,
    globs: Vec<GlobPattern>,
    path_parts: Vec<Vec<char>>,
    name_parts: Vec<Vec<char>>,
    invalid: usize,
    list: Ghost<Seq<char>>,
}

impl ExclusionSet {
    /// The exclusion list this set was compiled from.
    pub closed spec fn list(&self) -> Seq<char> {
        self.list@
    }

    /// How many tokens of the list did not compile.
    pub closed spec fn invalid_count(&self) -> nat {
        self.invalid as nat
    }

    spec fn matches(&self, path: Seq<char>) -> bool {
        ||| exists|i: int|
            0 <= i < self.regexes.len() && regex_finds(
                #[trigger] self.regexes@[i].pattern(),
                self.regexes@[i].is_case_insensitive(),
                path,
            )
        ||| exists|i: int|
            0 <= i < self.globs.len() && glob_matches(#[trigger] self.globs@[i].pattern(), path)
        ||| exists|i: int|
            0 <= i < self.path_parts.len() && contains(lower(path), #[trigger] self.path_parts@[i]@)
        ||| exists|i: int|
            0 <= i < self.name_parts.len() && contains(
                lower(basename(path)),
                #[trigger] self.name_parts@[i]@,
            )
    }

    /// The set holds exactly the matchers of its list.
    pub closed spec fn wf(&self) -> bool {
        &&& forall|p: Seq<char>| #[trigger] self.matches(p) == excluded(self.list@, p)
        &&& self.invalid == invalid_tokens(self.list@)
    }

    /// Adds the token `v[a..b]`, taken from `list`.
    fn add_token(&mut self, list: &str, v: &Vec<char>, a: usize, b: usize)
        requires
            list@ == v@,
            a <= b <= v.len(),
            a < b ==> old(self).invalid < usize::MAX,
        ensures
            forall|p: Seq<char>|
                #[trigger] final(self).matches(p) == (old(self).matches(p) || token_excludes(
                    v@.subrange(a as int, b as int),
                    p,
                )),
            final(self).invalid == old(self).invalid + if token_invalid(
                v@.subrange(a as int, b as int),
            ) {
                1int
            } else {
                0int
            },
            final(self).list == old(self).list,
    {
        let ghost t = v@.subrange(a as int, b as int);
        let ghost prev = *self;
        if a == b {
            return;
        }
        let kind = classify(v, a, b);
        match kind {
            TokenKind::Regex => {
                assert(v@.subrange(a + 3, b as int) =~= t.skip(3));
                match RegexMatcher::compile(list.substring_char(a + 3, b), true) {
                    Some(m) => {
                        self.regexes.push(m);
                        assert forall|p: Seq<char>| #[trigger]
                            self.matches(p) == (prev.matches(p) || token_excludes(t, p)) by {
                            if token_excludes(t, p) {
                                assert(self.regexes@[self.regexes.len() - 1] == m);
                            }
                            if exists|i: int|
                                0 <= i < self.regexes.len() && regex_finds(
                                    #[trigger] self.regexes@[i].pattern(),
                                    self.regexes@[i].is_case_insensitive(),
                                    p,
                                ) {
                                let i = choose|i: int|
                                    0 <= i < self.regexes.len() && regex_finds(
                                        #[trigger] self.regexes@[i].pattern(),
                                        self.regexes@[i].is_case_insensitive(),
                                        p,
                                    );
                                if i < prev.regexes.len() {
                                    assert(prev.regexes@[i] == self.regexes@[i]);
                                }
                            }
                            if exists|i: int|
                                0 <= i < prev.regexes.len() && regex_finds(
                                    #[trigger] prev.regexes@[i].pattern(),
                                    prev.regexes@[i].is_case_insensitive(),
                                    p,
                                ) {
                                let i = choose|i: int|
                                    0 <= i < prev.regexes.len() && regex_finds(
                                        #[trigger] prev.regexes@[i].pattern(),
                                        prev.regexes@[i].is_case_insensitive(),
                                        p,
                                    );
                                assert(prev.regexes@[i] == self.regexes@[i]);
                            }
                        }
                    },
                    None => {
                        self.invalid = self.invalid + 1;
                    },
                }
            },
            TokenKind::Glob => {
                match GlobPattern::compile(list.substring_char(a, b)) {
                    Some(g) => {
                        self.globs.push(g);
                        assert forall|p: Seq<char>| #[trigger]
                            self.matches(p) == (prev.matches(p) || token_excludes(t, p)) by {
                            if token_excludes(t, p) {
                                assert(self.globs@[self.globs.len() - 1] == g);
                            }
                            if exists|i: int|
                                0 <= i < self.globs.len() && glob_matches(
                                    #[trigger] self.globs@[i].pattern(),
                                    p,
                                ) {
                                let i = choose|i: int|
                                    0 <= i < self.globs.len() && glob_matches(
                                        #[trigger] self.globs@[i].pattern(),
                                        p,
                                    );
                                if i < prev.globs.len() {
                                    assert(prev.globs@[i] == self.globs@[i]);
                                }
                            }
                            if exists|i: int|
                                0 <= i < prev.globs.len() && glob_matches(
                                    #[trigger] prev.globs@[i].pattern(),
                                    p,
                                ) {
                                let i = choose|i: int|
                                    0 <= i < prev.globs.len() && glob_matches(
                                        #[trigger] prev.globs@[i].pattern(),
                                        p,
                                    );
                                assert(prev.globs@[i] == self.globs@[i]);
                            }
                        }
                    },
                    None => {
                        self.invalid = self.invalid + 1;
                    },
                }
            },
            TokenKind::PathPart => {
                let part = lower_range(v, a, b);
                self.path_parts.push(part);
                assert forall|p: Seq<char>| #[trigger]
                    self.matches(p) == (prev.matches(p) || token_excludes(t, p)) by {
                    if token_excludes(t, p) {
                        assert(self.path_parts@[self.path_parts.len() - 1]@ == lower(t));
                    }
                    if exists|i: int|
                        0 <= i < self.path_parts.len() && contains(
                            lower(p),
                            #[trigger] self.path_parts@[i]@,
                        ) {
                        let i = choose|i: int|
                            0 <= i < self.path_parts.len() && contains(
                                lower(p),
                                #[trigger] self.path_parts@[i]@,
                            );
                        if i < prev.path_parts.len() {
                            assert(prev.path_parts@[i] == self.path_parts@[i]);
                        }
                    }
                    if exists|i: int|
                        0 <= i < prev.path_parts.len() && contains(
                            lower(p),
                            #[trigger] prev.path_parts@[i]@,
                        ) {
                        let i = choose|i: int|
                            0 <= i < prev.path_parts.len() && contains(
                                lower(p),
                                #[trigger] prev.path_parts@[i]@,
                            );
                        assert(prev.path_parts@[i] == self.path_parts@[i]);
                    }
                }
            },
            TokenKind::NamePart => {
                let part = lower_range(v, a, b);
                self.name_parts.push(part);
                assert forall|p: Seq<char>| #[trigger]
                    self.matches(p) == (prev.matches(p) || token_excludes(t, p)) by {
                    if token_excludes(t, p) {
                        assert(self.name_parts@[self.name_parts.len() - 1]@ == lower(t));
                    }
                    if exists|i: int|
                        0 <= i < self.name_parts.len() && contains(
                            lower(basename(p)),
                            #[trigger] self.name_parts@[i]@,
                        ) {
                        let i = choose|i: int|
                            0 <= i < self.name_parts.len() && contains(
                                lower(basename(p)),
                                #[trigger] self.name_parts@[i]@,
                            );
                        if i < prev.name_parts.len() {
                            assert(prev.name_parts@[i] == self.name_parts@[i]);
                        }
                    }
                    if exists|i: int|
                        0 <= i < prev.name_parts.len() && contains(
                            lower(basename(p)),
                            #[trigger] prev.name_parts@[i]@,
                        ) {
                        let i = choose|i: int|
                            0 <= i < prev.name_parts.len() && contains(
                                lower(basename(p)),
                                #[trigger] prev.name_parts@[i]@,
                            );
                        assert(prev.name_parts@[i] == self.name_parts@[i]);
                    }
                }
            },
        }
    }

    /// Compiles an exclusion list. A regex or glob token that does not compile
    /// is counted and excludes nothing.
    pub fn compile(list: &str) -> (r: ExclusionSet)
        ensures
            r.wf(),
            r.list() == list@,
            r.invalid_count() == invalid_tokens(list@),
    {
        let v = chars_of(list);
        let mut set = ExclusionSet {
            regexes: Vec::new(),
            globs: Vec::new(),
            path_parts: Vec::new(),
            name_parts: Vec::new(),
            invalid: 0,
            list: Ghost(list@),
        };
        let ghost mut toks: Seq<Seq<char>> = Seq::empty();
        let mut start: usize = 0;
        let mut i: usize = 0;
        assert(v@.take(0) =~= Seq::<char>::empty());
        assert(toks.push(v@.subrange(0, 0)) =~= seq![Seq::<char>::empty()]);
        assert(toks.map_values(|t: Seq<char>| trim(t)) =~= Seq::<Seq<char>>::empty());
        while i < v.len()
            invariant
                v@ == list@,
                start <= i <= v.len(),
                split_commas(v@.take(i as int)) == toks.push(v@.subrange(start as int, i as int)),
                forall|p: Seq<char>| #[trigger]
                    set.matches(p) == exists|k: int|
                        0 <= k < toks.len() && token_excludes(trim(#[trigger] toks[k]), p),
                set.invalid == count_invalid(toks.map_values(|t: Seq<char>| trim(t))),
                set.invalid <= start,
                set.list@ == list@,
            decreases v.len() - i,
        {
            let ghost before = toks;
            assert(v@.take(i + 1).drop_last() =~= v@.take(i as int));
            assert(v@.take(i + 1).last() == v@[i as int]);
            assert(v@.take(i + 1).len() > 0);
            if v[i] == ',' {
                let (a, b) = trim_range(&v, start, i);
                set.add_token(list, &v, a, b);
                proof {
                    let t = v@.subrange(start as int, i as int);
                    toks = toks.push(t);
                    assert(toks.map_values(|t: Seq<char>| trim(t)).drop_last() =~= before.map_values(
                        |t: Seq<char>| trim(t),
                    ));
                    assert forall|p: Seq<char>| #[trigger]
                        set.matches(p) == exists|k: int|
                            0 <= k < toks.len() && token_excludes(trim(#[trigger] toks[k]), p) by {
                        if token_excludes(trim(t), p) {
                            assert(toks[toks.len() - 1] == t);
                        }
                        if exists|k: int|
                            0 <= k < toks.len() && token_excludes(trim(#[trigger] toks[k]), p) {
                            let k = choose|k: int|
                                0 <= k < toks.len() && token_excludes(trim(#[trigger] toks[k]), p);
                            if k < before.len() {
                                assert(before[k] == toks[k]);
                            }
                        }
                        if exists|k: int|
                            0 <= k < before.len() && token_excludes(trim(#[trigger] before[k]), p) {
                            let k = choose|k: int|
                                0 <= k < before.len() && token_excludes(trim(#[trigger] before[k]), p);
                            assert(before[k] == toks[k]);
                        }
                    }
                }
                start = i + 1;
                assert(split_commas(v@.take(i + 1)) == split_commas(v@.take(i as int)).push(
                    Seq::empty(),
                ));
                assert(v@.subrange(start as int, i + 1) =~= Seq::<char>::empty());
                assert(split_commas(v@.take(i + 1)) =~= toks.push(
                    v@.subrange(start as int, i + 1),
                ));
            } else {
                let ghost prev_split = split_commas(v@.take(i as int));
                assert(split_commas(v@.take(i + 1)) == prev_split.update(
                    prev_split.len() - 1,
                    prev_split.last().push(v@[i as int]),
                ));
                assert(v@.subrange(start as int, i + 1) =~= v@.subrange(start as int, i as int).push(
                    v@[i as int],
                ));
                assert(split_commas(v@.take(i + 1)) =~= toks.push(
                    v@.subrange(start as int, i + 1),
                ));
            }
            i += 1;
        }
        let (a, b) = trim_range(&v, start, v.len());
        set.add_token(list, &v, a, b);
        proof {
            let before = toks;
            let t = v@.subrange(start as int, i as int);
            toks = toks.push(t);
            assert(v@.take(i as int) =~= v@);
            assert(toks =~= split_commas(list@));
            assert(toks.map_values(|t: Seq<char>| trim(t)) =~= exclusion_tokens(list@));
            assert(toks.map_values(|t: Seq<char>| trim(t)).drop_last() =~= before.map_values(
                |t: Seq<char>| trim(t),
            ));
            assert forall|p: Seq<char>| #[trigger] set.matches(p) == excluded(list@, p) by {
                if token_excludes(trim(t), p) {
                    assert(exclusion_tokens(list@)[toks.len() - 1] == trim(t));
                }
                if excluded(list@, p) {
                    let k = choose|k: int|
                        0 <= k < exclusion_tokens(list@).len() && token_excludes(
                            #[trigger] exclusion_tokens(list@)[k],
                            p,
                        );
                    if k < before.len() {
                        assert(before[k] == toks[k]);
                    }
                }
                if exists|k: int|
                    0 <= k < before.len() && token_excludes(trim(#[trigger] before[k]), p) {
                    let k = choose|k: int|
                        0 <= k < before.len() && token_excludes(trim(#[trigger] before[k]), p);
                    assert(before[k] == toks[k]);
                    assert(exclusion_tokens(list@)[k] == trim(toks[k]));
                }
            }
        }
        set
    }

    /// How many tokens of the list did not compile.
    pub fn invalid(&self) -> (r: usize)
        ensures
            r == self.invalid_count(),
    {
        self.invalid
    }

    /// Whether the list excludes the file at `path`.
    pub fn is_excluded(&self, path: &str) -> (r: bool)
        requires
            self.wf(),
        ensures
            r == excluded(self.list(), path@),
    {
        assert(self.matches(path@) == excluded(self.list(), path@));
        let mut i: usize = 0;
        while i < self.regexes.len()
            invariant
                self.matches(path@) == excluded(self.list(), path@),
                forall|j: int|
                    0 <= j < i ==> !regex_finds(
                        #[trigger] self.regexes@[j].pattern(),
                        self.regexes@[j].is_case_insensitive(),
                        path@,
                    ),
            decreases self.regexes.len() - i,
        {
            if self.regexes[i].is_match(path) {
                return true;
            }
            i += 1;
        }
        let mut i: usize = 0;
        while i < self.globs.len()
            invariant
                self.matches(path@) == excluded(self.list(), path@),
                forall|j: int|
                    0 <= j < i ==> !glob_matches(#[trigger] self.globs@[j].pattern(), path@),
            decreases self.globs.len() - i,
        {
            if self.globs[i].is_match(path) {
                return true;
            }
            i += 1;
        }
        let v = chars_of(path);
        let lowered = lower_vec(&v);
        let mut i: usize = 0;
        while i < self.path_parts.len()
            invariant
                self.matches(path@) == excluded(self.list(), path@),
                lowered@ == lower(path@),
                forall|j: int|
                    0 <= j < i ==> !contains(lower(path@), #[trigger] self.path_parts@[j]@),
            decreases self.path_parts.len() - i,
        {
            if contains_vec(&lowered, &self.path_parts[i]) {
                return true;
            }
            i += 1;
        }
        let start = name_start_of(&v);
        let name = lower_range(&v, start, v.len());
        assert(v@.subrange(start as int, v.len() as int) =~= basename(path@));
        let mut i: usize = 0;
        while i < self.name_parts.len()
            invariant
                self.matches(path@) == excluded(self.list(), path@),
                name@ == lower(basename(path@)),
                forall|j: int|
                    0 <= j < i ==> !contains(lower(basename(path@)), #[trigger] self.name_parts@[j]@),
            decreases self.name_parts.len() - i,
        {
            if contains_vec(&name, &self.name_parts[i]) {
                return true;
            }
            i += 1;
        }
        false
    }
}

} // verus!
