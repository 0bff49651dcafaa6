//! Layout/SpaceInsideArrayPercentLiteral and
//! Layout/SpaceInsidePercentLiteralDelimiters: spacing inside `%w()`,
//! `%i[]` and `%x()` literals.
use vstd::prelude::*;
use vstd::string::StringSliceAdditionalSpecFns;
use crate::ascii::{BACKSLASH, PERCENT};
use crate::cop::layout::space_inside_array_literal_brackets::{is_only_whitespace, spec_is_only_whitespace};
use crate::diagnostic::{
    appends_events, event, event_if, lemma_appends_concat, lemma_appends_nothing, push_event,
    push_event_if, reports_events, Correction, Diagnostic, Event,
};
use crate::text::{offset_to_line_col, spec_line_col, NEWLINE, SPACE, TAB};

verus! {

pub struct SpaceInsideArrayPercentLiteral;

pub struct SpaceInsidePercentLiteralDelimiters;

pub const ARRAY_PERCENT_MESSAGE: &'static str = "Use only a single space inside array percent literal.";

pub const PERCENT_DELIMITERS_MESSAGE: &'static str = "Do not use spaces inside percent literal delimiters.";

/// A literal with delimiters: the spans of its opening (such as `%w(`)
/// and of its closing delimiter.
pub struct PercentLiteral {
    pub open_start: usize,
    pub open_end: usize,
    pub close_start: usize,
    /// An `%x` command rather than an array.
    pub is_command: bool,
}

/// The opening starts with `%` and one of `kinds`.
pub open spec fn opens_with(s: Seq<u8>, lit: PercentLiteral, kinds: Seq<u8>) -> bool {
    lit.open_end - lit.open_start >= 2 && s[lit.open_start as int] == PERCENT && kinds.contains(s[lit.open_start + 1])
}

pub open spec fn array_kinds() -> Seq<u8> {
    seq![0x77u8, 0x57u8, 0x69u8, 0x49u8]
}

pub open spec fn command_kinds() -> Seq<u8> {
    seq![0x78u8]
}

/// The end of the run of spaces at `j`, not passing `hi`.
pub open spec fn space_run_end(s: Seq<u8>, j: int, hi: int) -> int
    decreases hi - j,
{
    if j < hi && s[j] == SPACE {
        space_run_end(s, j + 1, hi)
    } else {
        j
    }
}

pub proof fn lemma_space_run_end(s: Seq<u8>, j: int, hi: int)
    requires
        j <= hi,
    ensures
        j <= space_run_end(s, j, hi) <= hi,
    decreases hi - j,
{
    if j < hi && s[j] == SPACE {
        lemma_space_run_end(s, j + 1, hi);
    }
}

/// The events for the runs of spaces in `[j, cs)` of the content that
/// starts at `oe`: a run of two or more spaces between two items of one
/// line, after a byte that is no backslash.
pub open spec fn percent_space_events(s: Seq<u8>, oe: int, cs: int, j: int) -> Seq<Event>
    decreases cs - j,
{
    if j >= cs || j < oe {
        seq![]
    } else if s[j] == SPACE {
        let en = space_run_end(s, j, cs);
        proof {
            lemma_space_run_end(s, j + 1, cs);
        }
        let report = en - j >= 2 && j > oe && s[j - 1] != NEWLINE && en < cs && s[en] != NEWLINE
            && s[j - 1] != BACKSLASH && s[j - 1] != TAB;
        event_if(report, event(j, ARRAY_PERCENT_MESSAGE.spec_bytes(), j, en, " ".spec_bytes())) + percent_space_events(s, oe, cs, en)
    } else {
        percent_space_events(s, oe, cs, j + 1)
    }
}

pub open spec fn array_percent_events(s: Seq<u8>, lit: PercentLiteral) -> Seq<Event> {
    if lit.is_command || !opens_with(s, lit, array_kinds()) || lit.close_start <= lit.open_end {
        seq![]
    } else {
        percent_space_events(s, lit.open_end as int, lit.close_start as int, lit.open_end as int)
    }
}

pub open spec fn percent_literal_in_bounds(len: int, lit: PercentLiteral) -> bool {
    lit.open_start <= lit.open_end <= len && lit.close_start <= len
}

/// The spaces at the start of `[oe, cs)`.
pub open spec fn leading_spaces(s: Seq<u8>, oe: int, cs: int) -> int {
    space_run_end(s, oe, cs) - oe
}

/// The start of the run of spaces that ends at `cs`, not below `oe`.
pub open spec fn trailing_space_start(s: Seq<u8>, oe: int, cs: int) -> int
    decreases cs - oe,
{
    if cs > oe && s[cs - 1] == SPACE {
        trailing_space_start(s, oe, cs - 1)
    } else {
        cs
    }
}

/// The events for the content `[oe, cs)` of a percent literal.
pub open spec fn delimiter_events(s: Seq<u8>, oe: int, cs: int) -> Seq<Event> {
    if cs <= oe {
        seq![]
    } else if spec_is_only_whitespace(s, oe, cs) {
        seq![event(oe, PERCENT_DELIMITERS_MESSAGE.spec_bytes(), oe, cs, seq![])]
    } else if spec_line_col(s, if oe >= 1 { oe - 1 } else { 0 }).0 != spec_line_col(s, cs).0 {
        seq![]
    } else {
        event_if(s[oe] == SPACE, event(oe, PERCENT_DELIMITERS_MESSAGE.spec_bytes(), oe, oe + leading_spaces(s, oe, cs), seq![]))
            + event_if(cs - oe > 1 && s[cs - 1] == SPACE, event(cs - 1, PERCENT_DELIMITERS_MESSAGE.spec_bytes(), trailing_space_start(s, oe, cs), cs, seq![]))
    }
}

pub open spec fn percent_delimiter_events(s: Seq<u8>, lit: PercentLiteral) -> Seq<Event> {
    if !opens_with(s, lit, if lit.is_command { command_kinds() } else { array_kinds() }) {
        seq![]
    } else {
        delimiter_events(s, lit.open_end as int, lit.close_start as int)
    }
}

fn opens_with_exec(s: &[u8], lit: &PercentLiteral, command: bool) -> (r: bool)
    requires
        percent_literal_in_bounds(s@.len() as int, *lit),
    ensures
        r == opens_with(s@, *lit, if command { command_kinds() } else { array_kinds() }),
{
    if lit.open_end - lit.open_start < 2 || s[lit.open_start] != PERCENT {
        return false;
    }
    let k = s[lit.open_start + 1];
    let r = if command {
        k == 0x78
    } else {
        k == 0x77 || k == 0x57 || k == 0x69 || k == 0x49
    };
    proof {
        let ks = if command { command_kinds() } else { array_kinds() };
        if r {
            if command {
                assert(ks[0] == k);
            } else if k == 0x77 {
                assert(ks[0] == k);
            } else if k == 0x57 {
                assert(ks[1] == k);
            } else if k == 0x69 {
                assert(ks[2] == k);
            } else {
                assert(ks[3] == k);
            }
        }
    }
    r
}

fn space_end(s: &[u8], j: usize, hi: usize) -> (r: usize)
    requires
        j <= hi <= s@.len(),
    ensures
        r == space_run_end(s@, j as int, hi as int),
        j <= r <= hi,
{
    let mut k = j;
    while k < hi && s[k] == SPACE
        invariant
            j <= k <= hi <= s@.len(),
            space_run_end(s@, k as int, hi as int) == space_run_end(s@, j as int, hi as int),
        decreases hi - k,
    {
        k = k + 1;
    }
    k
}

/// Reports the spaces inside the delimiters of a percent literal whose
/// content is `[open_end, close_start)`.
pub fn check_percent_literal(
    source: &[u8],
    open_end: usize,
    close_start: usize,
    diagnostics: &mut Vec<Diagnostic>,
    corrections: &mut Vec<Correction>,
    autocorrect: bool,
)
    requires
        source@.len() < usize::MAX,
        open_end <= source@.len(),
        close_start <= source@.len(),
    ensures
        appends_events(source@, delimiter_events(source@, open_end as int, close_start as int), autocorrect, old(diagnostics)@, old(corrections)@, final(diagnostics)@, final(corrections)@),
{
    let ghost d0 = diagnostics@;
    let ghost c0 = corrections@;
    proof {
        lemma_appends_nothing(source@, autocorrect, d0, c0);
        reveal_strlit("");
        assert("".spec_bytes() =~= Seq::<u8>::empty());
    }
    if close_start <= open_end {
        return ;
    }
    if is_only_whitespace(source, open_end, close_start) {
        push_event(source, diagnostics, corrections, autocorrect, open_end, PERCENT_DELIMITERS_MESSAGE, open_end, close_start, "");
        return ;
    }
    let before = if open_end >= 1 { open_end - 1 } else { 0 };
    let (open_line, _) = offset_to_line_col(source, before);
    let (close_line, _) = offset_to_line_col(source, close_start);
    if open_line != close_line {
        return ;
    }
    let lead = space_end(source, open_end, close_start);
    push_event_if(source, diagnostics, corrections, autocorrect, source[open_end] == SPACE, open_end, PERCENT_DELIMITERS_MESSAGE, open_end, lead, "");
    let ghost d1 = diagnostics@;
    let ghost c1 = corrections@;
    let mut ts = close_start;
    while ts > open_end && source[ts - 1] == SPACE
        invariant
            open_end <= ts <= close_start <= source@.len(),
            trailing_space_start(source@, open_end as int, ts as int) == trailing_space_start(source@, open_end as int, close_start as int),
        decreases ts,
    {
        ts = ts - 1;
    }
    let trail = close_start - open_end > 1 && source[close_start - 1] == SPACE;
    let at = if trail { close_start - 1 } else { close_start };
    push_event_if(source, diagnostics, corrections, autocorrect, trail, at, PERCENT_DELIMITERS_MESSAGE, ts, close_start, "");
    proof {
        lemma_appends_concat(
            source@,
            event_if(source@[open_end as int] == SPACE, event(open_end as int, PERCENT_DELIMITERS_MESSAGE.spec_bytes(), open_end as int, lead as int, "".spec_bytes())),
            event_if(trail, event(at as int, PERCENT_DELIMITERS_MESSAGE.spec_bytes(), ts as int, close_start as int, "".spec_bytes())),
            autocorrect, d0, c0, d1, c1, diagnostics@, corrections@,
        );
    }
}

impl SpaceInsideArrayPercentLiteral {
    pub fn name(&self) -> (r: &'static str)
        ensures
            r@ == "Layout/SpaceInsideArrayPercentLiteral"@,
    {
        "Layout/SpaceInsideArrayPercentLiteral"
    }

    pub fn supports_autocorrect(&self) -> (r: bool)
        ensures
            r,
    {
        true
    }

    /// Reports runs of two or more spaces between the items of a `%w`,
    /// `%W`, `%i` or `%I` array.
    pub fn check_node(&self, source: &[u8], lit: &PercentLiteral, autocorrect: bool) -> (r: (Vec<Diagnostic>, Vec<Correction>))
        requires
            source@.len() < usize::MAX,
            percent_literal_in_bounds(source@.len() as int, *lit),
        ensures
            reports_events(source@, array_percent_events(source@, *lit), autocorrect, r.0@, r.1@),
    {
        let mut diags: Vec<Diagnostic> = Vec::new();
        let mut corrs: Vec<Correction> = Vec::new();
        if lit.is_command || !opens_with_exec(source, lit, false) || lit.close_start <= lit.open_end {
            return (diags, corrs);
        }
        let oe = lit.open_end;
        let cs = lit.close_start;
        let ghost d0 = diags@;
        let ghost c0 = corrs@;
        proof {
            lemma_appends_nothing(source@, autocorrect, d0, c0);
        }
        let mut j = oe;
        while j < cs
            invariant
                oe <= j <= cs <= source@.len() < usize::MAX,
                d0.len() == 0 && c0.len() == 0,
                percent_space_events(source@, oe as int, cs as int, oe as int) == percent_space_events(source@, oe as int, cs as int, oe as int),
                appends_events(
                    source@,
                    percent_space_events(source@, oe as int, cs as int, oe as int).subrange(
                        0,
                        percent_space_events(source@, oe as int, cs as int, oe as int).len() - percent_space_events(source@, oe as int, cs as int, j as int).len(),
                    ),
                    autocorrect, d0, c0, diags@, corrs@,
                ),
                percent_space_events(source@, oe as int, cs as int, oe as int).len() >= percent_space_events(source@, oe as int, cs as int, j as int).len(),
                percent_space_events(source@, oe as int, cs as int, oe as int).subrange(
                    percent_space_events(source@, oe as int, cs as int, oe as int).len() - percent_space_events(source@, oe as int, cs as int, j as int).len(),
                    percent_space_events(source@, oe as int, cs as int, oe as int).len() as int,
                ) == percent_space_events(source@, oe as int, cs as int, j as int),
            decreases cs - j,
        {
            let ghost all = percent_space_events(source@, oe as int, cs as int, oe as int);
            let ghost rest = percent_space_events(source@, oe as int, cs as int, j as int);
            let ghost done = all.subrange(0, all.len() - rest.len());
            let ghost d1 = diags@;
            let ghost c1 = corrs@;
            if source[j] == SPACE {
                let en = space_end(source, j, cs);
                proof {
                    lemma_space_run_end(source@, j + 1, cs as int);
                }
                let report = en - j >= 2 && j > oe && source[j - 1] != NEWLINE && en < cs && source[en] != NEWLINE
                    && source[j - 1] != BACKSLASH && source[j - 1] != TAB;
                push_event_if(source, &mut diags, &mut corrs, autocorrect, report, j, ARRAY_PERCENT_MESSAGE, j, en, " ");
                proof {
                    let e = event_if(report, event(j as int, ARRAY_PERCENT_MESSAGE.spec_bytes(), j as int, en as int, " ".spec_bytes()));
                    let next = percent_space_events(source@, oe as int, cs as int, en as int);
                    assert(rest == e + next);
                    lemma_appends_concat(source@, done, e, autocorrect, d0, c0, d1, c1, diags@, corrs@);
                    assert(all =~= done + rest);
                    assert(done + rest =~= done + e + next);
                    assert(done + e =~= all.subrange(0, all.len() - next.len()));
                    assert(all.subrange(all.len() - next.len(), all.len() as int) =~= next);
                }
                j = en;
            } else {
                proof {
                    assert(rest == percent_space_events(source@, oe as int, cs as int, j + 1));
                }
                j = j + 1;
            }
        }
        proof {
            let all = percent_space_events(source@, oe as int, cs as int, oe as int);
            assert(percent_space_events(source@, oe as int, cs as int, cs as int) =~= seq![]);
            assert(all.subrange(0, all.len() as int) =~= all);
            assert(diags@.subrange(0, diags@.len() as int) =~= diags@);
            assert(corrs@.subrange(0, corrs@.len() as int) =~= corrs@);
        }
        (diags, corrs)
    }
}

impl SpaceInsidePercentLiteralDelimiters {
    pub fn name(&self) -> (r: &'static str)
        ensures
            r@ == "Layout/SpaceInsidePercentLiteralDelimiters"@,
    {
        "Layout/SpaceInsidePercentLiteralDelimiters"
    }

    pub fn supports_autocorrect(&self) -> (r: bool)
        ensures
            r,
    {
        true
    }

    /// Reports spaces just inside the delimiters of a `%w`, `%W`, `%i`,
    /// `%I` or `%x` literal.
    pub fn check_node(&self, source: &[u8], lit: &PercentLiteral, autocorrect: bool) -> (r: (Vec<Diagnostic>, Vec<Correction>))
        requires
            source@.len() < usize::MAX,
            percent_literal_in_bounds(source@.len() as int, *lit),
        ensures
            reports_events(source@, percent_delimiter_events(source@, *lit), autocorrect, r.0@, r.1@),
    {
        let mut diags: Vec<Diagnostic> = Vec::new();
        let mut corrs: Vec<Correction> = Vec::new();
        if !opens_with_exec(source, lit, lit.is_command) {
            return (diags, corrs);
        }
        check_percent_literal(source, lit.open_end, lit.close_start, &mut diags, &mut corrs, autocorrect);
        proof {
            assert(diags@.subrange(0, diags@.len() as int) =~= diags@);
            assert(corrs@.subrange(0, corrs@.len() as int) =~= corrs@);
        }
        (diags, corrs)
    }
}

} // verus!
