//! Layout/SpaceAroundEqualsInParameterDefault: the `=` of an optional
//! parameter's default, with one space on each side (`space`) or none
//! (`no_space`).
use vstd::prelude::*;
use vstd::string::StringSliceAdditionalSpecFns;
use crate::cop::layout::space_around_operators::{opt_edit, opt_report, two_edits};
use crate::diagnostic::{
    correction, edit, lemma_reports_none, message, push_report, report, reports_all, Correction, Diagnostic, Report,
};
use crate::text::{bytes_eq, is_ascii_whitespace, spec_is_ascii_whitespace};

verus! {

pub struct SpaceAroundEqualsInParameterDefault;

pub open spec fn whitespace_at(s: Seq<u8>, i: int) -> bool {
    0 <= i < s.len() && spec_is_ascii_whitespace(s[i])
}

/// The report for the `=` at `[start, end)` under `style`.
pub open spec fn parameter_default_report(s: Seq<u8>, start: int, end: int, style: Seq<u8>) -> Option<Report> {
    let before = whitespace_at(s, start - 1);
    let after = whitespace_at(s, end);
    if style == "space".spec_bytes() {
        if !before || !after {
            Some(
                report(
                    start,
                    "Surrounding space missing for operator `=`.".spec_bytes(),
                    opt_edit(!before, edit(start, start, " ".spec_bytes())) + opt_edit(!after, edit(end, end, " ".spec_bytes())),
                ),
            )
        } else {
            None
        }
    } else if style == "no_space".spec_bytes() {
        if before || after {
            Some(
                report(
                    start,
                    "Surrounding space detected for operator `=`.".spec_bytes(),
                    opt_edit(before, edit(start - 1, start, seq![])) + opt_edit(after, edit(end, end + 1, seq![])),
                ),
            )
        } else {
            None
        }
    } else {
        None
    }
}

impl SpaceAroundEqualsInParameterDefault {
    pub fn name(&self) -> (r: &'static str)
        ensures
            r@ == "Layout/SpaceAroundEqualsInParameterDefault"@,
    {
        "Layout/SpaceAroundEqualsInParameterDefault"
    }

    pub fn supports_autocorrect(&self) -> (r: bool)
        ensures
            r,
    {
        true
    }

    /// Checks the `=` at `[op_start, op_end)` of one optional parameter;
    /// `style` is the configured `EnforcedStyle`.
    pub fn check_node(&self, source: &[u8], op_start: usize, op_end: usize, style: &[u8], autocorrect: bool) -> (r: (
        Vec<Diagnostic>,
        Vec<Correction>,
    ))
        requires
            op_start <= op_end <= source@.len() < usize::MAX,
        ensures
            reports_all(
                source@,
                opt_report(parameter_default_report(source@, op_start as int, op_end as int, style@)),
                autocorrect,
                r.0@,
                r.1@,
            ),
    {
        let mut diags: Vec<Diagnostic> = Vec::new();
        let mut corrections: Vec<Correction> = Vec::new();
        proof {
            lemma_reports_none(source@, autocorrect);
            reveal_strlit("space");
            reveal_strlit("no_space");
            reveal_strlit("");
            assert("".spec_bytes() =~= Seq::<u8>::empty());
        }
        let before = op_start > 0 && is_ascii_whitespace(source[op_start - 1]);
        let after = op_end < source.len() && is_ascii_whitespace(source[op_end]);
        if bytes_eq(style, "space".as_bytes()) {
            if !before || !after {
                let edits = two_edits(!before, correction(op_start, op_start, " "), !after, correction(op_end, op_end, " "));
                push_report(
                    source,
                    &mut diags,
                    &mut corrections,
                    autocorrect,
                    op_start,
                    message("Surrounding space missing for operator `=`."),
                    edits,
                    Ghost(Seq::<Report>::empty()),
                );
                assert(Seq::<Report>::empty().push(parameter_default_report(source@, op_start as int, op_end as int, style@).unwrap())
                    =~= opt_report(parameter_default_report(source@, op_start as int, op_end as int, style@)));
            }
        } else if bytes_eq(style, "no_space".as_bytes()) {
            if before || after {
                let s = if before { op_start - 1 } else { op_start };
                let e = if after { op_end + 1 } else { op_end };
                let edits = two_edits(before, correction(s, op_start, ""), after, correction(op_end, e, ""));
                push_report(
                    source,
                    &mut diags,
                    &mut corrections,
                    autocorrect,
                    op_start,
                    message("Surrounding space detected for operator `=`."),
                    edits,
                    Ghost(Seq::<Report>::empty()),
                );
                assert(Seq::<Report>::empty().push(parameter_default_report(source@, op_start as int, op_end as int, style@).unwrap())
                    =~= opt_report(parameter_default_report(source@, op_start as int, op_end as int, style@)));
            }
        }
        (diags, corrections)
    }
}

} // verus!
