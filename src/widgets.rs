//! What the list and the progress bar display.

use vstd::prelude::*;
use crate::matchers::{escape_regex, escaped, regex_compiles, regex_spans, RegexMatcher};
use crate::path::{basename, basename_of};
use crate::state::{AppState, FileEntry};
use crate::text::decimal;
use crate::text::push_decimal;

verus! {

/// A label that shows a record's current or proposed name, with the search
/// or replacement text marked in it.
pub struct HighlightedLabel {
    pub is_replacement: bool,
}

impl HighlightedLabel {
    pub fn new(is_replacement: bool) -> (r: Self)
        ensures
            r.is_replacement == is_replacement,
    {
        HighlightedLabel { is_replacement }
    }

    /// The name shown: the proposed one, or the current base name.
    pub fn text(&self, entry: &FileEntry) -> (r: String)
        ensures
            r@ == if self.is_replacement {
                entry.new_name@
            } else {
                basename(entry.original_path@)
            },
    {
        if self.is_replacement {
            entry.new_name.clone()
        } else {
            basename_of(entry.original_path.as_str())
        }
    }

    /// The text to mark in the name: none without a search; the replacement
    /// in a proposed name, if there is one; the search in a current name.
    pub fn highlight_term(&self, entry: &FileEntry) -> (r: Option<String>)
        ensures
            entry.search_pattern@.len() == 0 ==> r is None,
            entry.search_pattern@.len() > 0 && self.is_replacement ==> (if entry.replace_pattern@.len()
                == 0 {
                r is None
            } else {
                r matches Some(t) && t@ == entry.replace_pattern@
            }),
            entry.search_pattern@.len() > 0 && !self.is_replacement ==> (r matches Some(t) && t@
                == entry.search_pattern@),
    {
        if entry.search_pattern.as_str().is_empty() {
            None
        } else if self.is_replacement {
            if entry.replace_pattern.as_str().is_empty() {
                None
            } else {
                Some(entry.replace_pattern.clone())
            }
        } else {
            Some(entry.search_pattern.clone())
        }
    }
}

/// The byte ranges of `text` to mark for the term `term`, matched literally
/// with the given case-sensitivity.
pub open spec fn marked_spans(
    text: Seq<char>,
    term: Option<Seq<char>>,
    case_sensitive: bool,
) -> Seq<
    (usize, usize),
> {
    match term {
        None => Seq::empty(),
        Some(t) => if regex_compiles(escaped(t), !case_sensitive) {
            regex_spans(escaped(t), !case_sensitive, text)
        } else {
            Seq::empty()
        },
    }
}

/// The byte ranges of `text` where `term` occurs, matched literally.
pub fn term_spans(
    text: &str,
    term: &Option<String>,
    case_sensitive: bool,
) -> (r: Vec<(usize, usize)>)
    ensures
        r@ == marked_spans(
            text@,
            match term {
                Some(t) => Some(t@),
                None => None,
            },
            case_sensitive,
        ),
{
    match term {
        None => Vec::new(),
        Some(t) => {
            let pattern = escape_regex(t.as_str());
            match RegexMatcher::compile(pattern.as_str(), !case_sensitive) {
                Some(m) => m.find_spans(text),
                None => Vec::new(),
            }
        },
    }
}

/// The progress bar of a rename run.
pub struct ProgressBar;

impl ProgressBar {
    /// The bar shows only while a run with renames is in progress.
    pub fn is_visible(&self, data: &AppState) -> (r: bool)
        ensures
            r == (data.conversion_in_progress && data.conversion_total > 0),
    {
        data.conversion_in_progress && data.conversion_total > 0
    }

    /// The counts shown on the bar: `(done/total)`.
    pub fn counts_label(&self, data: &AppState) -> (r: String)
        ensures
            r@ == seq!['('] + decimal(data.conversion_done as nat) + seq!['/'] + decimal(
                data.conversion_total as nat,
            ) + seq![')'],
    {
        let mut r = String::from_str("(");
        push_decimal(&mut r, data.conversion_done as u128);
        r.append("/");
        push_decimal(&mut r, data.conversion_total as u128);
        r.append(")");
        proof {
            reveal_strlit("(");
            reveal_strlit("/");
            reveal_strlit(")");
        }
        r
    }
}

} // verus!
