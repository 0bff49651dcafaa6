//! Lint/ElseLayout: a multi-line `if` or `unless` whose `else` has code on
//! the same line as the keyword.
use vstd::prelude::*;
use vstd::string::StringSliceAdditionalSpecFns;
use crate::diagnostic::{message, Diagnostic, Location};
use crate::text::{offset_to_line_col, spec_line_col};

verus! {

pub struct ElseLayout;

pub const ELSE_LAYOUT_MESSAGE: &'static str = "Odd `else` layout detected. Did you mean to use `elsif`?";

/// The `else` of a conditional: where its keyword starts, how many
/// statements it has and where the first starts.
#[derive(Clone, Copy)]
pub struct ElseClause {
    pub keyword_start: usize,
    pub statement_count: usize,
    pub first_statement: Option<usize>,
}

/// Where the cop reports a conditional that starts at `start`, ends at
/// `end` and has `then` where `has_then`, if it does.
pub open spec fn else_layout_offense(s: Seq<u8>, start: int, end: int, has_then: bool, else_clause: Option<ElseClause>) -> Option<
    int,
> {
    match else_clause {
        Some(e) => {
            let last = if end >= 1 { end - 1 } else { 0 };
            if spec_line_col(s, start).0 == spec_line_col(s, last).0 {
                None
            } else {
                match e.first_statement {
                    Some(f) => if has_then && e.statement_count == 1 {
                        None
                    } else if spec_line_col(s, f as int).0 == spec_line_col(s, e.keyword_start as int).0 {
                        Some(f as int)
                    } else {
                        None
                    },
                    None => None,
                }
            }
        },
        None => None,
    }
}

impl ElseLayout {
    pub fn name(&self) -> (r: &'static str)
        ensures
            r@ == "Lint/ElseLayout"@,
    {
        "Lint/ElseLayout"
    }

    /// Checks an `if` or `unless` (with its keyword) that spans
    /// `[start, end)`.
    pub fn check_node(&self, source: &[u8], start: usize, end: usize, has_then: bool, else_clause: Option<ElseClause>) -> (r: Option<
        Diagnostic,
    >)
        requires
            start <= source@.len() < usize::MAX,
            end <= source@.len(),
            else_clause matches Some(e) ==> e.keyword_start <= source@.len() && (e.first_statement matches Some(f) ==> f
                <= source@.len()),
        ensures
            match else_layout_offense(source@, start as int, end as int, has_then, else_clause) {
                Some(at) => r matches Some(d) && d.location.line == spec_line_col(source@, at).0
                    && d.location.column == spec_line_col(source@, at).1 && d.message@ == ELSE_LAYOUT_MESSAGE.spec_bytes()
                    && !d.corrected,
                None => r is None,
            },
    {
        let e = match else_clause {
            Some(e) => e,
            None => {
                return None;
            },
        };
        let (start_line, _) = offset_to_line_col(source, start);
        let last = if end >= 1 { end - 1 } else { 0 };
        let (end_line, _) = offset_to_line_col(source, last);
        if start_line == end_line {
            return None;
        }
        let f = match e.first_statement {
            Some(f) => f,
            None => {
                return None;
            },
        };
        if has_then && e.statement_count == 1 {
            return None;
        }
        let (else_line, _) = offset_to_line_col(source, e.keyword_start);
        let (line, column) = offset_to_line_col(source, f);
        if line == else_line {
            Some(Diagnostic { location: Location { line, column }, message: message(ELSE_LAYOUT_MESSAGE), corrected: false })
        } else {
            None
        }
    }
}

} // verus!
