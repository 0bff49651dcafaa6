//! Layout/SpaceBeforeComma: no space or tab before a comma.
use vstd::prelude::*;
use vstd::string::StringSliceAdditionalSpecFns;
use crate::ascii::{BACKSLASH, COMMA, LT, QUESTION};
use crate::code_map::CodeMap;
use crate::diagnostic::{corrections_in_order, message, Correction, Diagnostic, Location};
use crate::text::{
    is_blank, lemma_line_start_bounds, line_start, line_start_of, offset_to_line_col, spec_is_blank,
    spec_line_col, NEWLINE,
};

verus! {

pub struct SpaceBeforeComma;

pub const SPACE_BEFORE_COMMA_MESSAGE: &'static str = "Space found before comma.";

/// Going back from `i`, the start of the run of spaces and tabs that ends
/// at `i`.
pub open spec fn blank_run_start(s: Seq<u8>, i: int) -> int
    decreases i,
{
    if i > 0 && spec_is_blank(s[i - 1]) {
        blank_run_start(s, i - 1)
    } else {
        i
    }
}

pub proof fn lemma_blank_run_start_bounds(s: Seq<u8>, i: int)
    requires
        0 <= i <= s.len(),
    ensures
        0 <= blank_run_start(s, i) <= i,
        forall|j: int| blank_run_start(s, i) <= j < i ==> spec_is_blank(#[trigger] s[j]),
    decreases i,
{
    if i > 0 && spec_is_blank(s[i - 1]) {
        lemma_blank_run_start_bounds(s, i - 1);
    }
}

/// The start of the spaces and tabs right before `comma_offset`, if there
/// are any.
pub open spec fn spec_whitespace_before_comma_start(s: Seq<u8>, comma_offset: int) -> Option<int> {
    let start = blank_run_start(s, comma_offset);
    if start < comma_offset {
        Some(start)
    } else {
        None
    }
}

/// A comma counts when it is code, or when it sits in a heredoc
/// interpolation outside any literal nested there.
pub open spec fn spec_comma_is_code(map: CodeMap, offset: int) -> bool {
    map.spec_is_code(offset) || (map.spec_is_heredoc_interpolation(offset)
        && !map.spec_is_non_code_in_heredoc_interpolation(offset))
}

/// The start of the offending whitespace before the byte at `i`, if that
/// byte is a comma that is reported: the whitespace does not start the
/// line, does not follow the closing quote of a string listed in
/// `closings`, and is not the escaped space of a character literal `?\ `.
pub open spec fn comma_offense(s: Seq<u8>, map: CodeMap, closings: Seq<usize>, i: int) -> Option<int> {
    if s[i] == COMMA && spec_comma_is_code(map, i) {
        match spec_whitespace_before_comma_start(s, i) {
            Some(start) => {
                if start == line_start(s, i) {
                    None
                } else if start > 0 && closings.contains((start - 1) as usize) {
                    None
                } else if start >= 2 && s[start - 1] == BACKSLASH && s[start - 2] == QUESTION {
                    None
                } else {
                    Some(start)
                }
            },
            None => None,
        }
    } else {
        None
    }
}

/// The offenses among the first `n` bytes, as (whitespace start, comma).
pub open spec fn comma_offenses(s: Seq<u8>, map: CodeMap, closings: Seq<usize>, n: int) -> Seq<(int, int)>
    decreases n,
{
    if n <= 0 {
        seq![]
    } else {
        let prev = comma_offenses(s, map, closings, n - 1);
        match comma_offense(s, map, closings, n - 1) {
            Some(start) => prev.push((start, n - 1)),
            None => prev,
        }
    }
}

/// What the cop reports for the offenses `offs`, with or without edits.
pub open spec fn reports_offenses(
    s: Seq<u8>,
    offs: Seq<(int, int)>,
    msg: Seq<u8>,
    autocorrect: bool,
    diags: Seq<Diagnostic>,
    corrections: Seq<Correction>,
) -> bool {
    &&& diags.len() == offs.len()
    &&& forall|k: int|
        0 <= k < offs.len() ==> {
            &&& (#[trigger] diags[k]).location.line == spec_line_col(s, offs[k].0).0
            &&& diags[k].location.column == spec_line_col(s, offs[k].0).1
            &&& diags[k].message@ == msg
            &&& diags[k].corrected == autocorrect
        }
    &&& corrections.len() == (if autocorrect {
        offs.len()
    } else {
        0
    })
    &&& forall|k: int|
        0 <= k < corrections.len() ==> {
            &&& (#[trigger] corrections[k]).start == offs[k].0
            &&& corrections[k].end == offs[k].1
            &&& corrections[k].replacement@.len() == 0
        }
}

/// The start of the spaces and tabs right before `comma_offset`, if any.
pub fn whitespace_before_comma_start(bytes: &[u8], comma_offset: usize) -> (r: Option<usize>)
    requires
        comma_offset <= bytes@.len(),
    ensures
        match r {
            Some(v) => spec_whitespace_before_comma_start(bytes@, comma_offset as int) == Some(
                v as int,
            ),
            None => spec_whitespace_before_comma_start(bytes@, comma_offset as int) is None,
        },
{
    let mut start = comma_offset;
    while start > 0 && is_blank(bytes[start - 1])
        invariant
            start <= comma_offset <= bytes@.len(),
            blank_run_start(bytes@, start as int) == blank_run_start(bytes@, comma_offset as int),
        decreases start,
    {
        start = start - 1;
    }
    if start < comma_offset {
        Some(start)
    } else {
        None
    }
}

/// Whether the comma at `offset` is checked.
pub fn comma_is_code(code_map: &CodeMap, offset: usize) -> (r: bool)
    ensures
        r == spec_comma_is_code(*code_map, offset as int),
{
    code_map.is_code(offset) || (code_map.is_heredoc_interpolation(offset)
        && !code_map.is_non_code_in_heredoc_interpolation(offset))
}

/// Whether `v` holds `x`.
pub fn contains_offset(v: &[usize], x: usize) -> (r: bool)
    ensures
        r == v@.contains(x),
{
    let mut k: usize = 0;
    while k < v.len()
        invariant
            k <= v@.len(),
            forall|j: int| 0 <= j < k ==> v@[j] != x,
        decreases v@.len() - k,
    {
        if v[k] == x {
            return true;
        }
        k = k + 1;
    }
    false
}

impl SpaceBeforeComma {
    pub fn name(&self) -> (r: &'static str)
        ensures
            r@ == "Layout/SpaceBeforeComma"@,
    {
        "Layout/SpaceBeforeComma"
    }

    pub fn supports_autocorrect(&self) -> (r: bool)
        ensures
            r,
    {
        true
    }

    /// Reports each space run before a comma that is code. `closings` lists
    /// the offsets of the closing quotes of strings that span three or more
    /// lines; whitespace right after one of them is accepted.
    pub fn check_source(&self, source: &[u8], code_map: &CodeMap, closings: &[usize], autocorrect: bool) -> (r: (Vec<Diagnostic>, Vec<Correction>))
        requires
            source@.len() < usize::MAX,
        ensures
            reports_offenses(
                source@,
                comma_offenses(source@, *code_map, closings@, source@.len() as int),
                SPACE_BEFORE_COMMA_MESSAGE.spec_bytes(),
                autocorrect,
                r.0@,
                r.1@,
            ),
    {
        let mut diags: Vec<Diagnostic> = Vec::new();
        let mut corrections: Vec<Correction> = Vec::new();
        let mut i: usize = 0;
        while i < source.len()
            invariant
                i <= source@.len() < usize::MAX,
                reports_offenses(
                    source@,
                    comma_offenses(source@, *code_map, closings@, i as int),
                    SPACE_BEFORE_COMMA_MESSAGE.spec_bytes(),
                    autocorrect,
                    diags@,
                    corrections@,
                ),
            decreases source@.len() - i,
        {
            let ghost prev = comma_offenses(source@, *code_map, closings@, i as int);
            if source[i] == COMMA && comma_is_code(code_map, i) {
                match whitespace_before_comma_start(source, i) {
                    Some(start) => {
                        proof {
                            lemma_blank_run_start_bounds(source@, i as int);
                        }
                        let ls = line_start_of(source, i);
                        let skip = start == ls || (start > 0 && contains_offset(closings, start - 1))
                            || (start >= 2 && source[start - 1] == BACKSLASH && source[start - 2]
                            == QUESTION);
                        if !skip {
                            let (line, column) = offset_to_line_col(source, start);
                            diags.push(
                                Diagnostic {
                                    location: Location { line, column },
                                    message: message(SPACE_BEFORE_COMMA_MESSAGE),
                                    corrected: autocorrect,
                                },
                            );
                            if autocorrect {
                                corrections.push(
                                    Correction { start, end: i, replacement: Vec::new() },
                                );
                            }
                            assert(comma_offenses(source@, *code_map, closings@, i + 1) == prev.push(
                                (start as int, i as int),
                            ));
                        } else {
                            assert(comma_offenses(source@, *code_map, closings@, i + 1) == prev);
                        }
                    },
                    None => {
                        assert(comma_offenses(source@, *code_map, closings@, i + 1) == prev);
                    },
                }
            } else {
                assert(comma_offenses(source@, *code_map, closings@, i + 1) == prev);
            }
            i = i + 1;
        }
        (diags, corrections)
    }
}


/// Offenses as (whitespace start, byte) whose runs of spaces and tabs end
/// right at a byte that is neither, in increasing order of that byte.
pub open spec fn blank_runs_in_order(s: Seq<u8>, offs: Seq<(int, int)>) -> bool {
    &&& forall|k: int|
        0 <= k < offs.len() ==> 0 <= #[trigger] offs[k].0 < offs[k].1 < s.len() && !spec_is_blank(s[offs[k].1])
    &&& forall|k: int, j: int|
        #![trigger offs[k], s[j]]
        0 <= k < offs.len() && offs[k].0 <= j < offs[k].1 ==> spec_is_blank(s[j])
    &&& forall|k: int, l: int| #![trigger offs[k], offs[l]] 0 <= k < l < offs.len() ==> offs[k].1 < offs[l].1
}

/// Edits that remove such runs lie in source order and do not overlap.
pub proof fn lemma_blank_runs_corrections_in_order(
    s: Seq<u8>,
    offs: Seq<(int, int)>,
    msg: Seq<u8>,
    autocorrect: bool,
    diags: Seq<Diagnostic>,
    corrections: Seq<Correction>,
)
    requires
        blank_runs_in_order(s, offs),
        reports_offenses(s, offs, msg, autocorrect, diags, corrections),
    ensures
        corrections_in_order(s.len(), corrections),
{
    assert forall|k: int| 0 <= k < corrections.len() - 1 implies #[trigger] corrections[k].end <= corrections[k
        + 1].start by {
        assert(offs[k].1 < offs[k + 1].1);
        if offs[k + 1].0 <= offs[k].1 {
            assert(spec_is_blank(s[offs[k].1]));
        }
    }
    assert forall|k: int| 0 <= k < corrections.len() implies #[trigger] corrections[k].start <= corrections[k].end
        <= s.len() by {
        assert(offs[k].0 < offs[k].1 < s.len());
    }
}

proof fn lemma_comma_offenses_runs(s: Seq<u8>, map: CodeMap, closings: Seq<usize>, n: int)
    requires
        0 <= n <= s.len(),
    ensures
        blank_runs_in_order(s, comma_offenses(s, map, closings, n)),
        forall|k: int|
            0 <= k < comma_offenses(s, map, closings, n).len() ==> #[trigger] comma_offenses(s, map, closings, n)[k].1
                < n,
    decreases n,
{
    if n > 0 {
        lemma_comma_offenses_runs(s, map, closings, n - 1);
        lemma_blank_run_start_bounds(s, n - 1);
        let prev = comma_offenses(s, map, closings, n - 1);
        let offs = comma_offenses(s, map, closings, n);
        if comma_offense(s, map, closings, n - 1) is Some {
            assert(offs == prev.push((blank_run_start(s, n - 1), n - 1)));
            assert forall|k: int| 0 <= k < offs.len() implies 0 <= #[trigger] offs[k].0 < offs[k].1 < s.len()
                && !spec_is_blank(s[offs[k].1]) by {
                if k < prev.len() {
                    assert(offs[k] == prev[k]);
                }
            }
            assert forall|k: int, j: int|
                #![trigger offs[k], s[j]]
                0 <= k < offs.len() && offs[k].0 <= j < offs[k].1 implies spec_is_blank(s[j]) by {
                if k < prev.len() {
                    assert(offs[k] == prev[k]);
                }
            }
            assert forall|k: int, l: int| 0 <= k < l < offs.len() implies #[trigger] offs[k].1 < #[trigger] offs[l].1 by {
                assert(offs[k] == prev[k]);
                if l < prev.len() {
                    assert(offs[l] == prev[l]);
                }
            }
        }
    }
}

/// The edits of SpaceBeforeComma lie in source order and do not overlap,
/// so they can be applied in one pass.
pub proof fn law_comma_corrections_in_order(
    s: Seq<u8>,
    map: CodeMap,
    closings: Seq<usize>,
    autocorrect: bool,
    diags: Seq<Diagnostic>,
    corrections: Seq<Correction>,
)
    requires
        reports_offenses(
            s,
            comma_offenses(s, map, closings, s.len() as int),
            SPACE_BEFORE_COMMA_MESSAGE.spec_bytes(),
            autocorrect,
            diags,
            corrections,
        ),
    ensures
        corrections_in_order(s.len(), corrections),
{
    lemma_comma_offenses_runs(s, map, closings, s.len() as int);
    lemma_blank_runs_corrections_in_order(
        s,
        comma_offenses(s, map, closings, s.len() as int),
        SPACE_BEFORE_COMMA_MESSAGE.spec_bytes(),
        autocorrect,
        diags,
        corrections,
    );
}


/// The closing delimiter of a string spanning `[start, end)` that counts
/// for the cop: one of a string (no heredoc) whose first and last lines
/// are two lines or more apart, at the start of its closing delimiter.
pub open spec fn spec_multiline_closing(s: Seq<u8>, start: int, end: int, opening: Option<(usize, usize)>, closing: Option<(usize, usize)>) -> Option<usize> {
    match (opening, closing) {
        (Some(o), Some(c)) => {
            let last = if end > 0 { end - 1 } else { 0 };
            if o.1 - o.0 >= 2 && s[o.0 as int] == LT && s[o.0 + 1] == LT {
                None
            } else if spec_line_col(s, last).0 >= spec_line_col(s, start).0 + 2 {
                Some(c.0)
            } else {
                None
            }
        },
        _ => None,
    }
}

/// The start of the closing delimiter of a string that spans three lines
/// or more, heredocs aside.
pub fn multiline_closing(source: &[u8], start: usize, end: usize, opening: Option<(usize, usize)>, closing: Option<(usize, usize)>) -> (r: Option<usize>)
    requires
        start <= end <= source@.len() < usize::MAX,
        opening matches Some(o) ==> o.0 <= o.1 <= source@.len(),
    ensures
        r == spec_multiline_closing(source@, start as int, end as int, opening, closing),
{
    match (opening, closing) {
        (Some(o), Some(c)) => {
            let last = if end > 0 { end - 1 } else { 0 };
            if o.1 - o.0 >= 2 && source[o.0] == LT && source[o.0 + 1] == LT {
                return None;
            }
            let (first_line, _) = offset_to_line_col(source, start);
            let (last_line, _) = offset_to_line_col(source, last);
            if last_line >= first_line && last_line - first_line >= 2 {
                Some(c.0)
            } else {
                None
            }
        },
        _ => None,
    }
}

} // verus!
