//! Layout/SpaceBeforeSemicolon: no space or tab before a semicolon.
use vstd::prelude::*;
use vstd::string::StringSliceAdditionalSpecFns;
use crate::ascii::{BACKSLASH, LBRACE, QUESTION, SEMICOLON};
use crate::code_map::CodeMap;
use crate::cop::layout::space_before_comma::{blank_runs_in_order, lemma_blank_runs_corrections_in_order, reports_offenses};
use crate::diagnostic::{corrections_in_order, message, Correction, Diagnostic, Location};
use crate::text::{
    blank_run_back, lemma_blank_run_back_bounds, lemma_line_start_bounds, line_start,
    line_start_of, offset_to_line_col, skip_blanks_back, spec_is_blank,
};

verus! {

pub struct SpaceBeforeSemicolon;

pub const SPACE_BEFORE_SEMICOLON_MESSAGE: &'static str = "Space found before semicolon.";

/// 1 when the whitespace run `[whitespace_start, semicolon)` begins with
/// the escaped space of a character literal `?\ `, else 0.
pub open spec fn spec_escaped_space_prefix_len(s: Seq<u8>, whitespace_start: int, semicolon: int) -> int {
    if whitespace_start < semicolon && whitespace_start >= 2 && s[whitespace_start - 2] == QUESTION
        && s[whitespace_start - 1] == BACKSLASH {
        1
    } else {
        0
    }
}

/// Where the offending whitespace before the byte at `i` starts, if that
/// byte is a semicolon in code that is reported: there is whitespace, it
/// does not start the line, and it does not follow a `{`.
pub open spec fn semicolon_offense(s: Seq<u8>, map: CodeMap, i: int) -> Option<int> {
    if s[i] == SEMICOLON && i != 0 && map.spec_is_code(i) {
        let ls = line_start(s, i);
        let w0 = blank_run_back(s, i, ls);
        let w = w0 + spec_escaped_space_prefix_len(s, w0, i);
        if w == i || w == ls || s[w - 1] == LBRACE {
            None
        } else {
            Some(w)
        }
    } else {
        None
    }
}

pub open spec fn semicolon_offenses(s: Seq<u8>, map: CodeMap, n: int) -> Seq<(int, int)>
    decreases n,
{
    if n <= 0 {
        seq![]
    } else {
        let prev = semicolon_offenses(s, map, n - 1);
        match semicolon_offense(s, map, n - 1) {
            Some(w) => prev.push((w, n - 1)),
            None => prev,
        }
    }
}

/// 1 when the whitespace before a semicolon begins with the escaped space
/// of a character literal, else 0.
pub fn escaped_space_char_literal_prefix_len(bytes: &[u8], whitespace_start: usize, semicolon: usize) -> (r: usize)
    requires
        whitespace_start <= bytes@.len(),
    ensures
        r == spec_escaped_space_prefix_len(bytes@, whitespace_start as int, semicolon as int),
{
    if whitespace_start < semicolon && whitespace_start >= 2 && bytes[whitespace_start - 2]
        == QUESTION && bytes[whitespace_start - 1] == BACKSLASH {
        1
    } else {
        0
    }
}

impl SpaceBeforeSemicolon {
    pub fn name(&self) -> (r: &'static str)
        ensures
            r@ == "Layout/SpaceBeforeSemicolon"@,
    {
        "Layout/SpaceBeforeSemicolon"
    }

    pub fn supports_autocorrect(&self) -> (r: bool)
        ensures
            r,
    {
        true
    }

    /// Reports each run of spaces and tabs before a semicolon in code.
    pub fn check_source(&self, source: &[u8], code_map: &CodeMap, autocorrect: bool) -> (r: (
        Vec<Diagnostic>,
        Vec<Correction>,
    ))
        requires
            source@.len() < usize::MAX,
        ensures
            reports_offenses(
                source@,
                semicolon_offenses(source@, *code_map, source@.len() as int),
                SPACE_BEFORE_SEMICOLON_MESSAGE.spec_bytes(),
                autocorrect,
                r.0@,
                r.1@,
            ),
    {
        let mut diags: Vec<Diagnostic> = Vec::new();
        let mut corrections: Vec<Correction> = Vec::new();
        let mut i: usize = 0;
        while i < source.len()
            invariant
                i <= source@.len() < usize::MAX,
                reports_offenses(
                    source@,
                    semicolon_offenses(source@, *code_map, i as int),
                    SPACE_BEFORE_SEMICOLON_MESSAGE.spec_bytes(),
                    autocorrect,
                    diags@,
                    corrections@,
                ),
            decreases source@.len() - i,
        {
            let ghost prev = semicolon_offenses(source@, *code_map, i as int);
            if source[i] == SEMICOLON && i != 0 && code_map.is_code(i) {
                let ls = line_start_of(source, i);
                let w0 = skip_blanks_back(source, i, ls);
                let w = w0 + escaped_space_char_literal_prefix_len(source, w0, i);
                if w == i || w == ls || source[w - 1] == LBRACE {
                    assert(semicolon_offenses(source@, *code_map, i + 1) == prev);
                } else {
                    let (line, column) = offset_to_line_col(source, w);
                    diags.push(
                        Diagnostic {
                            location: Location { line, column },
                            message: message(SPACE_BEFORE_SEMICOLON_MESSAGE),
                            corrected: autocorrect,
                        },
                    );
                    if autocorrect {
                        corrections.push(Correction { start: w, end: i, replacement: Vec::new() });
                    }
                    assert(semicolon_offenses(source@, *code_map, i + 1) == prev.push(
                        (w as int, i as int),
                    ));
                }
            } else {
                assert(semicolon_offenses(source@, *code_map, i + 1) == prev);
            }
            i = i + 1;
        }
        (diags, corrections)
    }
}


proof fn lemma_semicolon_offenses_runs(s: Seq<u8>, map: CodeMap, n: int)
    requires
        0 <= n <= s.len(),
    ensures
        blank_runs_in_order(s, semicolon_offenses(s, map, n)),
        forall|k: int| 0 <= k < semicolon_offenses(s, map, n).len() ==> #[trigger] semicolon_offenses(s, map, n)[k].1 < n,
    decreases n,
{
    if n > 0 {
        lemma_semicolon_offenses_runs(s, map, n - 1);
        let prev = semicolon_offenses(s, map, n - 1);
        let offs = semicolon_offenses(s, map, n);
        let i = n - 1;
        if semicolon_offense(s, map, i) is Some {
            let ls = line_start(s, i);
            lemma_line_start_bounds(s, i);
            lemma_blank_run_back_bounds(s, i, ls);
            let w = semicolon_offense(s, map, i)->0;
            assert(offs == prev.push((w, i)));
            assert forall|k: int| 0 <= k < offs.len() implies 0 <= #[trigger] offs[k].0 < offs[k].1 < s.len()
                && !spec_is_blank(s[offs[k].1]) by {
                if k < prev.len() {
                    assert(offs[k] == prev[k]);
                }
            }
            assert forall|k: int, j: int|
                #![trigger offs[k], s[j]]
                0 <= k < offs.len() && offs[k].0 <= j < offs[k].1 implies spec_is_blank(s[j]) by {
                if k < prev.len() {
                    assert(offs[k] == prev[k]);
                }
            }
            assert forall|k: int, l: int| 0 <= k < l < offs.len() implies #[trigger] offs[k].1 < #[trigger] offs[l].1 by {
                assert(offs[k] == prev[k]);
                if l < prev.len() {
                    assert(offs[l] == prev[l]);
                }
            }
        }
    }
}

/// The edits of SpaceBeforeSemicolon lie in source order and do not
/// overlap, so they can be applied in one pass.
pub proof fn law_semicolon_corrections_in_order(
    s: Seq<u8>,
    map: CodeMap,
    autocorrect: bool,
    diags: Seq<Diagnostic>,
    corrections: Seq<Correction>,
)
    requires
        reports_offenses(
            s,
            semicolon_offenses(s, map, s.len() as int),
            SPACE_BEFORE_SEMICOLON_MESSAGE.spec_bytes(),
            autocorrect,
            diags,
            corrections,
        ),
    ensures
        corrections_in_order(s.len(), corrections),
{
    lemma_semicolon_offenses_runs(s, map, s.len() as int);
    lemma_blank_runs_corrections_in_order(
        s,
        semicolon_offenses(s, map, s.len() as int),
        SPACE_BEFORE_SEMICOLON_MESSAGE.spec_bytes(),
        autocorrect,
        diags,
        corrections,
    );
}

} // verus!
