//! Layout/SpaceBeforeBlockBraces: the space before the `{` of a block,
//! required (`space`) or forbidden (`no_space`), with a separate style for
//! empty braces.
use vstd::prelude::*;
use vstd::string::StringSliceAdditionalSpecFns;
use crate::ascii::LBRACE;
use crate::cop::layout::space_around_operators::opt_report;
use crate::diagnostic::{
    correction, edit, edits_of, lemma_reports_none, message, push_report, report, reports_all, Correction, Diagnostic, Report,
};
use crate::text::{bytes_eq, spec_is_blank, SPACE};

verus! {

pub struct SpaceBeforeBlockBraces;

/// The report for a block whose opening delimiter spans
/// `[open_start, open_end)` and whose closing delimiter starts at
/// `close_start`.
pub open spec fn block_brace_report(
    s: Seq<u8>,
    open_start: int,
    open_end: int,
    close_start: int,
    style: Seq<u8>,
    empty_style: Seq<u8>,
) -> Option<Report> {
    let effective = if close_start == open_end { empty_style } else { style };
    if s.subrange(open_start, open_end) != seq![LBRACE] {
        None
    } else if effective == "no_space".spec_bytes() {
        if open_start > 0 && s[open_start - 1] == SPACE {
            Some(report(open_start - 1, "Space detected to the left of {.".spec_bytes(), seq![edit(open_start - 1, open_start, seq![])]))
        } else {
            None
        }
    } else if open_start > 0 && !spec_is_blank(s[open_start - 1]) {
        Some(report(open_start, "Space missing to the left of {.".spec_bytes(), seq![edit(open_start, open_start, " ".spec_bytes())]))
    } else {
        None
    }
}

impl SpaceBeforeBlockBraces {
    pub fn name(&self) -> (r: &'static str)
        ensures
            r@ == "Layout/SpaceBeforeBlockBraces"@,
    {
        "Layout/SpaceBeforeBlockBraces"
    }

    pub fn supports_autocorrect(&self) -> (r: bool)
        ensures
            r,
    {
        true
    }

    /// Checks one block; `style` and `empty_style` are the configured
    /// `EnforcedStyle` and `EnforcedStyleForEmptyBraces`.
    pub fn check_node(
        &self,
        source: &[u8],
        open_start: usize,
        open_end: usize,
        close_start: usize,
        style: &[u8],
        empty_style: &[u8],
        autocorrect: bool,
    ) -> (r: (Vec<Diagnostic>, Vec<Correction>))
        requires
            open_start <= open_end <= source@.len() < usize::MAX,
        ensures
            reports_all(
                source@,
                opt_report(block_brace_report(source@, open_start as int, open_end as int, close_start as int, style@, empty_style@)),
                autocorrect,
                r.0@,
                r.1@,
            ),
    {
        let ghost want = block_brace_report(source@, open_start as int, open_end as int, close_start as int, style@, empty_style@);
        let mut diags: Vec<Diagnostic> = Vec::new();
        let mut corrections: Vec<Correction> = Vec::new();
        proof {
            lemma_reports_none(source@, autocorrect);
            reveal_strlit("no_space");
            reveal_strlit("");
            assert("".spec_bytes() =~= Seq::<u8>::empty());
        }
        let brace = open_end - open_start == 1 && source[open_start] == LBRACE;
        assert(brace == (source@.subrange(open_start as int, open_end as int) == seq![LBRACE])) by {
            let sub = source@.subrange(open_start as int, open_end as int);
            if open_end - open_start == 1 && source@[open_start as int] == LBRACE {
                assert(sub =~= seq![LBRACE]);
            }
            if sub == seq![LBRACE] {
                assert(sub.len() == 1);
                assert(sub[0] == source@[open_start as int]);
            }
        }
        if !brace {
            return (diags, corrections);
        }
        let effective = if close_start == open_end { empty_style } else { style };
        if bytes_eq(effective, "no_space".as_bytes()) {
            if open_start > 0 && source[open_start - 1] == SPACE {
                let mut edits: Vec<Correction> = Vec::new();
                edits.push(correction(open_start - 1, open_start, ""));
                assert(edits_of(edits@) =~= seq![edit(open_start - 1, open_start as int, seq![])]);
                push_report(
                    source,
                    &mut diags,
                    &mut corrections,
                    autocorrect,
                    open_start - 1,
                    message("Space detected to the left of {."),
                    edits,
                    Ghost(Seq::<Report>::empty()),
                );
                assert(Seq::<Report>::empty().push(want.unwrap()) =~= opt_report(want));
            }
        } else if open_start > 0 && source[open_start - 1] != SPACE && source[open_start - 1] != 0x09u8 {
            let mut edits: Vec<Correction> = Vec::new();
            edits.push(correction(open_start, open_start, " "));
            assert(edits_of(edits@) =~= seq![edit(open_start as int, open_start as int, " ".spec_bytes())]);
            push_report(
                source,
                &mut diags,
                &mut corrections,
                autocorrect,
                open_start,
                message("Space missing to the left of {."),
                edits,
                Ghost(Seq::<Report>::empty()),
            );
            assert(Seq::<Report>::empty().push(want.unwrap()) =~= opt_report(want));
        }
        (diags, corrections)
    }
}

} // verus!
