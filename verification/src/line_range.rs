//! Line ranges for include directives.
//!
//! A range is written `start:end` with both parts optional: `5` is the single
//! line 5, `5:` is line 5 onward, `:10` is lines 1 through 10, `5:10` is lines
//! 5 through 9, and an empty text is the whole file. Line numbers are 1-based
//! on input; only the start is shifted down to its 0-based form.

use vstd::prelude::*;

use crate::error::Error;
use crate::text;

verus! {

/// A range of lines specified with some include directive.
#[derive(Debug, Clone, Copy, PartialEq)]
pub enum LineRange {
    Range { start: usize, end: usize },
    RangeFrom { start: usize },
    RangeTo { end: usize },
    RangeFull,
}

/// The outcome the line-range grammar assigns to a piece of text.
pub enum LineRangeParse {
    Parsed(LineRange),
    BadStart,
    BadEnd,
}

/// First index of `c` in `s` at or after `i`.
pub open spec fn find_char_from(s: Seq<char>, c: char, i: int) -> Option<int>
    decreases s.len() - i,
        when 0 <= i <= s.len()
{
    if i >= s.len() {
        None
    } else if s[i] == c {
        Some(i)
    } else {
        find_char_from(s, c, i + 1)
    }
}

/// A parsed 1-based line number, shifted down by one, saturating at zero.
pub open spec fn dec_sat(v: int) -> int {
    if v >= 1 {
        v - 1
    } else {
        0
    }
}

/// Whether `s` parses as a `usize` line number, and its value.
pub open spec fn usize_of(s: Seq<char>) -> Option<int> {
    if s.len() > 0 && text::all_digits(s) && text::decimal_val(s) <= usize::MAX {
        Some(text::decimal_val(s))
    } else {
        None
    }
}

/// What the line-range grammar says of `s`: split at the first colon, the
/// left part is the start, everything after the first colon is the end.
pub open spec fn spec_line_range(s: Seq<char>) -> LineRangeParse {
    match find_char_from(s, ':', 0) {
        None => {
            if s.len() == 0 {
                LineRangeParse::Parsed(LineRange::RangeFull)
            } else {
                match usize_of(s) {
                    Some(v) => LineRangeParse::Parsed(
                        LineRange::Range { start: dec_sat(v) as usize, end: (dec_sat(v) + 1) as usize },
                    ),
                    None => LineRangeParse::BadStart,
                }
            }
        },
        Some(ci) => {
            let left = s.subrange(0, ci);
            let right = s.subrange(ci + 1, s.len() as int);
            if left.len() == 0 {
                if right.len() == 0 {
                    LineRangeParse::BadEnd
                } else {
                    match usize_of(right) {
                        Some(e) => LineRangeParse::Parsed(LineRange::RangeTo { end: e as usize }),
                        None => LineRangeParse::BadEnd,
                    }
                }
            } else {
                match usize_of(left) {
                    Some(v) => {
                        if right.len() == 0 {
                            LineRangeParse::Parsed(LineRange::RangeFrom { start: dec_sat(v) as usize })
                        } else {
                            match usize_of(right) {
                                Some(e) => LineRangeParse::Parsed(
                                    LineRange::Range { start: dec_sat(v) as usize, end: e as usize },
                                ),
                                None => LineRangeParse::BadEnd,
                            }
                        }
                    },
                    None => LineRangeParse::BadStart,
                }
            }
        },
    }
}

/// First index of `c` in `v` at or after `from`.
pub fn find_char(v: &[char], c: char, from: usize) -> (r: Option<usize>)
    requires
        from <= v@.len(),
    ensures
        match r {
            Some(j) => from <= j < v@.len() && v@[j as int] == c && find_char_from(
                v@,
                c,
                from as int,
            ) == Some(j as int),
            None => find_char_from(v@, c, from as int) is None,
        },
{
    let mut i = from;
    while i < v.len()
        invariant
            from <= i <= v@.len(),
            find_char_from(v@, c, from as int) == find_char_from(v@, c, i as int),
        decreases v@.len() - i,
    {
        if v[i] == c {
            return Some(i);
        }
        i = i + 1;
    }
    None
}

impl LineRange {
    /// Parse an optional range text; absent means the whole file.
    ///
    /// Fails exactly when the start or end part is present but is not a
    /// `usize` decimal number, with a message naming the offending part.
    pub fn from_str(parts: Option<&str>) -> (r: Result<LineRange, Error>)
        ensures
            match r {
                Ok(lr) => {
                    let s = if parts is Some { parts->0@ } else { Seq::<char>::empty() };
                    spec_line_range(s) == LineRangeParse::Parsed(lr)
                },
                Err(e) => {
                    let s = if parts is Some { parts->0@ } else { Seq::<char>::empty() };
                    &&& !(spec_line_range(s) is Parsed)
                    &&& e@.len() == 1
                    &&& (spec_line_range(s) is BadStart ==> e@[0]
                        == "failed to parse start line number"@)
                    &&& (spec_line_range(s) is BadEnd ==> e@[0] == "failed to parse end line number"@)
                },
            },
    {
        let v: Vec<char> = match parts {
            Some(s) => text::chars_of(s),
            None => Vec::new(),
        };
        match find_char(v.as_slice(), ':', 0) {
            None => {
                if v.len() == 0 {
                    Ok(LineRange::RangeFull)
                } else {
                    match text::parse_usize(v.as_slice()) {
                        Some(n) => {
                            let start = if n >= 1 {
                                n - 1
                            } else {
                                0
                            };
                            Ok(LineRange::Range { start, end: start + 1 })
                        },
                        None => Err(Error::new("failed to parse start line number".to_owned())),
                    }
                }
            },
            Some(ci) => {
                let left: &[char] = vstd::slice::slice_subrange(v.as_slice(), 0, ci);
                let right: &[char] = vstd::slice::slice_subrange(v.as_slice(), ci + 1, v.len());
                if left.len() == 0 {
                    match text::parse_usize(right) {
                        Some(e) if right.len() > 0 => Ok(LineRange::RangeTo { end: e }),
                        _ => Err(Error::new("failed to parse end line number".to_owned())),
                    }
                } else {
                    match text::parse_usize(left) {
                        Some(n) => {
                            let start = if n >= 1 {
                                n - 1
                            } else {
                                0
                            };
                            if right.len() == 0 {
                                Ok(LineRange::RangeFrom { start })
                            } else {
                                match text::parse_usize(right) {
                                    Some(e) => Ok(LineRange::Range { start, end: e }),
                                    None => Err(
                                        Error::new("failed to parse end line number".to_owned()),
                                    ),
                                }
                            }
                        },
                        None => Err(Error::new("failed to parse start line number".to_owned())),
                    }
                }
            },
        }
    }

    /// The 0-based first line the range selects.
    pub open spec fn spec_start(&self) -> int {
        match *self {
            LineRange::Range { start, .. } => start as int,
            LineRange::RangeFrom { start } => start as int,
            LineRange::RangeTo { .. } => 0,
            LineRange::RangeFull => 0,
        }
    }

    /// The 0-based exclusive end line, if the range is bounded above.
    pub open spec fn spec_end(&self) -> Option<int> {
        match *self {
            LineRange::Range { end, .. } => Some(end as int),
            LineRange::RangeFrom { .. } => None,
            LineRange::RangeTo { end } => Some(end as int),
            LineRange::RangeFull => None,
        }
    }

    pub fn start(&self) -> (r: usize)
        ensures
            r == self.spec_start(),
    {
        match self {
            LineRange::Range { start, .. } => *start,
            LineRange::RangeFrom { start } => *start,
            LineRange::RangeTo { .. } => 0,
            LineRange::RangeFull => 0,
        }
    }

    pub fn end(&self) -> (r: Option<usize>)
        ensures
            match r {
                Some(e) => self.spec_end() == Some(e as int),
                None => self.spec_end() is None,
            },
    {
        match self {
            LineRange::Range { end, .. } => Some(*end),
            LineRange::RangeFrom { .. } => None,
            LineRange::RangeTo { end } => Some(*end),
            LineRange::RangeFull => None,
        }
    }
}

} // verus!
