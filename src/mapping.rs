//! The mapping format: one rule `key=value` per line, with blank lines and
//! `#` comments skipped. Lines end at a line feed; a carriage return before it
//! is white space and is trimmed away with the rest. Only the first character
//! of each trimmed side counts: `ab=cd` reads as `a=c`.
use vstd::prelude::*;

use crate::text::{first_index, lines, trim, trimmed, find_from};

verus! {

/// What a single trimmed line of a mapping text says.
#[derive(PartialEq, Eq, Structural, Clone, Copy, Debug)]
pub enum Line {
    /// Empty, or a comment starting with `#`.
    Blank,
    /// A rule mapping `key` to `value`.
    Rule { key: char, value: char },
    /// No `=` in the line.
    MissingSeparator,
    /// Nothing but white space before the `=`.
    EmptyKey,
    /// Nothing but white space after the `=`.
    EmptyValue,
}

/// Why a mapping text was rejected. `line` counts from 1 and includes blank
/// and comment lines; `content` is the offending line with its surrounding
/// white space removed.
#[derive(Debug)]
pub enum FormatError {
    MissingSeparator { line: usize, content: String },
    EmptyKey { line: usize, content: String },
    EmptyValue { line: usize, content: String },
    DuplicateKey { line: usize, key: char },
    DuplicateValue { line: usize, value: char },
}

/// The mathematical counterpart of [`FormatError`].
pub enum FormatErrorView {
    MissingSeparator { line: nat, content: Seq<char> },
    EmptyKey { line: nat, content: Seq<char> },
    EmptyValue { line: nat, content: Seq<char> },
    DuplicateKey { line: nat, key: char },
    DuplicateValue { line: nat, value: char },
}

impl View for FormatError {
    type V = FormatErrorView;

    open spec fn view(&self) -> FormatErrorView {
        match self {
            FormatError::MissingSeparator { line, content } => FormatErrorView::MissingSeparator {
                line: *line as nat,
                content: content@,
            },
            FormatError::EmptyKey { line, content } => FormatErrorView::EmptyKey {
                line: *line as nat,
                content: content@,
            },
            FormatError::EmptyValue { line, content } => FormatErrorView::EmptyValue {
                line: *line as nat,
                content: content@,
            },
            FormatError::DuplicateKey { line, key } => FormatErrorView::DuplicateKey {
                line: *line as nat,
                key: *key,
            },
            FormatError::DuplicateValue { line, value } => FormatErrorView::DuplicateValue {
                line: *line as nat,
                value: *value,
            },
        }
    }
}

impl FormatError {
    /// The 1-based number of the line the error is about.
    pub fn line(&self) -> (r: usize)
        ensures
            r == match self {
                FormatError::MissingSeparator { line, .. } => *line,
                FormatError::EmptyKey { line, .. } => *line,
                FormatError::EmptyValue { line, .. } => *line,
                FormatError::DuplicateKey { line, .. } => *line,
                FormatError::DuplicateValue { line, .. } => *line,
            },
    {
        match self {
            FormatError::MissingSeparator { line, .. } => *line,
            FormatError::EmptyKey { line, .. } => *line,
            FormatError::EmptyValue { line, .. } => *line,
            FormatError::DuplicateKey { line, .. } => *line,
            FormatError::DuplicateValue { line, .. } => *line,
        }
    }
}

/// What the already trimmed line `t` says.
pub open spec fn line_kind(t: Seq<char>) -> Line {
    if t.len() == 0 || t[0] == '#' {
        Line::Blank
    } else {
        let e = first_index(t, '=');
        if e >= t.len() {
            Line::MissingSeparator
        } else {
            let k = trim(t.take(e as int));
            let v = trim(t.skip(e as int + 1));
            if k.len() == 0 {
                Line::EmptyKey
            } else if v.len() == 0 {
                Line::EmptyValue
            } else {
                Line::Rule { key: k[0], value: v[0] }
            }
        }
    }
}

/// Reads the lines `ls[i..]` into the tables `fwd` (key to value) and `inv`
/// (value to key), stopping at the first faulty line. `i + 1` is the number
/// of line `ls[i]`.
pub open spec fn parse_lines(
    ls: Seq<Seq<char>>,
    i: nat,
    fwd: Map<char, char>,
    inv: Map<char, char>,
) -> Result<(Map<char, char>, Map<char, char>), FormatErrorView>
    decreases ls.len() - i,
{
    if i >= ls.len() {
        Ok((fwd, inv))
    } else {
        let t = trim(ls[i as int]);
        match line_kind(t) {
            Line::Blank => parse_lines(ls, i + 1, fwd, inv),
            Line::MissingSeparator => Err(
                FormatErrorView::MissingSeparator { line: i + 1, content: t },
            ),
            Line::EmptyKey => Err(FormatErrorView::EmptyKey { line: i + 1, content: t }),
            Line::EmptyValue => Err(FormatErrorView::EmptyValue { line: i + 1, content: t }),
            Line::Rule { key, value } => {
                if fwd.contains_key(key) {
                    Err(FormatErrorView::DuplicateKey { line: i + 1, key })
                } else if inv.contains_key(value) {
                    Err(FormatErrorView::DuplicateValue { line: i + 1, value })
                } else {
                    parse_lines(ls, i + 1, fwd.insert(key, value), inv.insert(value, key))
                }
            },
        }
    }
}

/// The forward and inverse tables that the mapping text `s` defines, or the
/// first error in it.
pub open spec fn parse_mapping(s: Seq<char>) -> Result<
    (Map<char, char>, Map<char, char>),
    FormatErrorView,
> {
    parse_lines(lines(s), 0, Map::empty(), Map::empty())
}

/// Classifies the already trimmed line `t`.
pub fn classify(t: &Vec<char>) -> (r: Line)
    ensures
        r == line_kind(t@),
{
    if t.len() == 0 || t[0] == '#' {
        return Line::Blank;
    }
    let e = find_from(t, 0, t.len(), '=');
    assert(t@.subrange(0, t.len() as int) =~= t@);
    if e >= t.len() {
        return Line::MissingSeparator;
    }
    let k = trimmed(t, 0, e);
    let v = trimmed(t, e + 1, t.len());
    assert(t@.take(e as int) =~= t@.subrange(0, e as int));
    assert(t@.skip(e as int + 1) =~= t@.subrange(e + 1, t.len() as int));
    if k.len() == 0 {
        Line::EmptyKey
    } else if v.len() == 0 {
        Line::EmptyValue
    } else {
        Line::Rule { key: k[0], value: v[0] }
    }
}

} // verus!
