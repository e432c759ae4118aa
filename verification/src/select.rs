//! Selecting one line from split lines, and one field from a split
//! line, by their 1-based numbers; every failing bound is reported with
//! the requested number and the count that was actually available.

use vstd::prelude::*;
use vstd::string::StrSliceExecFns;
use crate::split::{split_chars, split_line};

verus! {

/// Why a request produced no output. Each bound failure carries the
/// requested 1-based number and the count actually available.
#[derive(Clone, Copy, Debug, PartialEq, Eq, Structural)]
pub enum SelectError {
    /// The requested line number is zero or exceeds the number of lines.
    LineOutOfRange { requested: usize, available: usize },
    /// The requested field index is zero or exceeds the number of fields.
    FieldOutOfRange { requested: usize, available: usize },
    /// Delimiter mode was requested with an empty delimiter.
    EmptyDelimiter,
}

/// What a whole request must produce: the line of `lines` with 1-based
/// number `number`; in delimiter mode (`csv`), instead the field of
/// that line with 1-based index `index` after splitting on `delim`; or
/// the error naming the bound that failed.
pub open spec fn select_spec(
    lines: Seq<Seq<char>>,
    number: usize,
    csv: bool,
    delim: Seq<char>,
    index: usize,
) -> Result<Seq<char>, SelectError> {
    if !(1 <= number <= lines.len()) {
        Err(SelectError::LineOutOfRange { requested: number, available: lines.len() as usize })
    } else {
        let line = lines[number - 1];
        if !csv {
            Ok(line)
        } else if delim.len() == 0 {
            Err(SelectError::EmptyDelimiter)
        } else {
            let fields = split_chars(line, delim);
            if 1 <= index <= fields.len() {
                Ok(fields[index - 1])
            } else {
                Err(
                    SelectError::FieldOutOfRange {
                        requested: index,
                        available: fields.len() as usize,
                    },
                )
            }
        }
    }
}

/// Selects the line with 1-based number `number`, or reports the
/// requested number and the line count when it is out of range.
pub fn line_at(lines: &Vec<String>, number: usize) -> (r: Result<String, SelectError>)
    ensures
        match r {
            Ok(line) => 1 <= number <= lines@.len() && line@ == lines.deep_view()[number - 1],
            Err(e) => !(1 <= number <= lines@.len()) && e == (SelectError::LineOutOfRange {
                requested: number,
                available: lines@.len() as usize,
            }),
        },
{
    if 1 <= number && number <= lines.len() {
        let line = lines[number - 1].clone();
        proof {
            assert(line@ == lines.deep_view()[number - 1]);
        }
        Ok(line)
    } else {
        Err(SelectError::LineOutOfRange { requested: number, available: lines.len() })
    }
}

/// Splits `line` on the non-empty delimiter `delim` and selects the
/// field with 1-based index `index`, or reports the requested index and
/// the field count when it is out of range.
pub fn field_at(line: &str, delim: &str, index: usize) -> (r: Result<String, SelectError>)
    requires
        delim@.len() >= 1,
    ensures
        ({
            let fields = split_chars(line@, delim@);
            match r {
                Ok(f) => 1 <= index <= fields.len() && f@ == fields[index - 1],
                Err(e) => !(1 <= index <= fields.len()) && e == (SelectError::FieldOutOfRange {
                    requested: index,
                    available: fields.len() as usize,
                }),
            }
        }),
{
    let fields = split_line(line, delim);
    if 1 <= index && index <= fields.len() {
        let f = fields[index - 1].clone();
        proof {
            assert(f@ == fields.deep_view()[index - 1]);
        }
        Ok(f)
    } else {
        Err(SelectError::FieldOutOfRange { requested: index, available: fields.len() })
    }
}

/// Answers a whole request against the split lines: returns exactly
/// what `select_spec` says, the selected line or field, or the error
/// naming the failing bound.
pub fn select(lines: &Vec<String>, number: usize, csv: bool, delim: &str, index: usize) -> (r:
    Result<String, SelectError>)
    ensures
        match (r, select_spec(lines.deep_view(), number, csv, delim@, index)) {
            (Ok(out), Ok(want)) => out@ == want,
            (Err(e), Err(want)) => e == want,
            _ => false,
        },
{
    match line_at(lines, number) {
        Err(e) => Err(e),
        Ok(line) => {
            if !csv {
                Ok(line)
            } else if delim.unicode_len() == 0 {
                Err(SelectError::EmptyDelimiter)
            } else {
                field_at(line.as_str(), delim, index)
            }
        },
    }
}

} // verus!
