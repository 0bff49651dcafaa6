//! Layout/TrailingWhitespace: whitespace at the end of a line.
use vstd::prelude::*;
use vstd::string::StringSliceAdditionalSpecFns;
use crate::diagnostic::{Correction, Diagnostic, Location, corrections_in_order, message};
use crate::text::{
    NEWLINE, blank_run_end, bytes_eq, is_line_split, lemma_blank_run_end_bounds, lemma_line_split_unique, line_spans, skip_blanks, views,
    CARRIAGE_RETURN, UNDERSCORE, is_ascii_alnum, is_ascii_alpha, is_blank, spec_is_ascii_alpha,
    spec_is_blank, spec_is_word_byte,
};

verus! {

pub const TRAILING_WHITESPACE_MESSAGE: &'static str = "Trailing whitespace detected.";

/// Reports trailing whitespace (spaces, tabs, U+00A0 and U+3000) at the end
/// of each line, up to the `__END__` data section.
pub struct TrailingWhitespace;

pub const LESS_THAN: u8 = 0x3c;
pub const TILDE: u8 = 0x7e;
pub const MINUS: u8 = 0x2d;
pub const SINGLE_QUOTE: u8 = 0x27;
pub const DOUBLE_QUOTE: u8 = 0x22;

/// The length of the whitespace unit that ends just before `end`: a space or
/// a tab (1 byte), an ideographic space U+3000 (3 bytes), a no-break space
/// U+00A0 (2 bytes); 0 when none ends there.
pub open spec fn ws_unit_len(line: Seq<u8>, end: int) -> int {
    if 1 <= end <= line.len() && spec_is_blank(line[end - 1]) {
        1
    } else if 3 <= end <= line.len() && line[end - 3] == 0xe3u8 && line[end - 2] == 0x80u8
        && line[end - 1] == 0x80u8 {
        3
    } else if 2 <= end <= line.len() && line[end - 2] == 0xc2u8 && line[end - 1] == 0xa0u8 {
        2
    } else {
        0
    }
}

/// Where the run of whitespace units that ends at `end` starts.
pub open spec fn trailing_run_start(line: Seq<u8>, end: int) -> int
    decreases end,
{
    if end > 0 && ws_unit_len(line, end) > 0 {
        trailing_run_start(line, end - ws_unit_len(line, end))
    } else {
        end
    }
}

/// The offset where the trailing whitespace of `line` starts, if it has any.
pub open spec fn spec_trailing_whitespace_start(line: Seq<u8>) -> Option<int> {
    let e = trailing_run_start(line, line.len() as int);
    if e < line.len() {
        Some(e)
    } else {
        None
    }
}

/// `line` without one final carriage return.
pub open spec fn spec_strip_cr(line: Seq<u8>) -> Seq<u8> {
    if line.len() > 0 && line.last() == CARRIAGE_RETURN {
        line.drop_last()
    } else {
        line
    }
}

/// A line that is neither empty nor made of whitespace only.
pub open spec fn spec_line_has_nonblank_content(line: Seq<u8>) -> bool {
    line.len() > 0 && spec_trailing_whitespace_start(line) != Some(0int)
}

proof fn lemma_trailing_run_start_bounds(line: Seq<u8>, end: int)
    requires
        0 <= end <= line.len(),
    ensures
        0 <= trailing_run_start(line, end) <= end,
        trailing_run_start(line, end) == 0 || ws_unit_len(line, trailing_run_start(line, end))
            == 0,
    decreases end,
{
    if end > 0 && ws_unit_len(line, end) > 0 {
        lemma_trailing_run_start_bounds(line, end - ws_unit_len(line, end));
    }
}

fn ws_unit_before(line: &[u8], end: usize) -> (r: usize)
    requires
        end <= line@.len(),
    ensures
        r == ws_unit_len(line@, end as int),
{
    if end >= 1 && is_blank(line[end - 1]) {
        1
    } else if end >= 3 && line[end - 3] == 0xe3 && line[end - 2] == 0x80 && line[end - 1] == 0x80 {
        3
    } else if end >= 2 && line[end - 2] == 0xc2 && line[end - 1] == 0xa0 {
        2
    } else {
        0
    }
}

/// `line` without its line-ending carriage return.
pub fn strip_line_ending_carriage_return(line: &[u8]) -> (r: &[u8])
    ensures
        r@ == spec_strip_cr(line@),
{
    if line.len() > 0 && line[line.len() - 1] == CARRIAGE_RETURN {
        &line[0..line.len() - 1]
    } else {
        line
    }
}

/// The offset where the trailing whitespace of `line` starts; `None` when the
/// line does not end in whitespace.
pub fn trailing_whitespace_start(line: &[u8]) -> (r: Option<usize>)
    ensures
        match r {
            Some(k) => spec_trailing_whitespace_start(line@) == Some(k as int),
            None => spec_trailing_whitespace_start(line@) is None,
        },
{
    let mut end = line.len();
    let mut unit = ws_unit_before(line, end);
    while unit > 0
        invariant
            end <= line@.len(),
            unit == ws_unit_len(line@, end as int),
            trailing_run_start(line@, end as int) == trailing_run_start(
                line@,
                line@.len() as int,
            ),
        decreases end,
    {
        end = end - unit;
        unit = ws_unit_before(line, end);
    }
    if end < line.len() {
        Some(end)
    } else {
        None
    }
}

/// Whether `line` holds something other than whitespace.
pub fn line_has_nonblank_content(line: &[u8]) -> (r: bool)
    ensures
        r == spec_line_has_nonblank_content(line@),
{
    if line.len() == 0 {
        return false;
    }
    match trailing_whitespace_start(line) {
        Some(k) => k != 0,
        None => true,
    }
}

} // verus!

verus! {

/// The first position `p >= from` where `<<` starts in `line`.
pub open spec fn first_shift(line: Seq<u8>, from: int) -> Option<int>
    decreases line.len() - from,
{
    if from < 0 || from + 1 >= line.len() {
        None
    } else if line[from] == LESS_THAN && line[from + 1] == LESS_THAN {
        Some(from)
    } else {
        first_shift(line, from + 1)
    }
}

/// Moves left from `p` over spaces and tabs, stopping at position 0.
pub open spec fn skip_blanks_back(line: Seq<u8>, p: int) -> int
    decreases p,
{
    if p > 0 && spec_is_blank(line[p]) {
        skip_blanks_back(line, p - 1)
    } else {
        p
    }
}

/// A byte that ends an operand, so that a following `<<` is a shift or an
/// append rather than a heredoc opener.
pub open spec fn spec_ends_operand(b: u8) -> bool {
    spec_is_word_byte(b) || b == 0x29u8 || b == 0x5du8 || b == 0x7du8 || b == 0x40u8 || b
        == 0x24u8
}

/// The first index `i >= from` with `s[i] == b`.
pub open spec fn first_index_of(s: Seq<u8>, from: int, b: u8) -> Option<int>
    decreases s.len() - from,
{
    if from < 0 || from >= s.len() {
        None
    } else if s[from] == b {
        Some(from)
    } else {
        first_index_of(s, from + 1, b)
    }
}

/// The end of the run of identifier bytes that starts at `i`.
pub open spec fn word_run_end(s: Seq<u8>, i: int) -> int
    decreases s.len() - i,
{
    if 0 <= i < s.len() && spec_is_word_byte(s[i]) {
        word_run_end(s, i + 1)
    } else {
        i
    }
}

/// `after` with a leading quote and its closing quote removed, when both
/// are there.
pub open spec fn unquote(after: Seq<u8>) -> Seq<u8> {
    if after.len() > 0 && (after[0] == SINGLE_QUOTE || after[0] == DOUBLE_QUOTE) {
        match first_index_of(after, 1, after[0]) {
            Some(e) => after.subrange(1, e),
            None => after,
        }
    } else {
        after
    }
}

/// The heredoc terminator that a `<<` at `pos` opens, if it opens one.
pub open spec fn opener_at(line: Seq<u8>, pos: int) -> Option<Seq<u8>> {
    let raw_after = line.subrange(pos + 2, line.len() as int);
    let prefixed = raw_after.len() > 0 && (raw_after[0] == TILDE || raw_after[0] == MINUS);
    if !prefixed && pos > 0 && spec_ends_operand(line[skip_blanks_back(line, pos - 1)]) {
        None
    } else {
        let after = unquote(
            if prefixed {
                raw_after.drop_first()
            } else {
                raw_after
            },
        );
        if after.len() == 0 || !(spec_is_ascii_alpha(after[0]) || after[0] == UNDERSCORE) {
            None
        } else {
            Some(after.take(word_run_end(after, 0)))
        }
    }
}

pub proof fn lemma_first_shift_bounds(line: Seq<u8>, from: int)
    ensures
        first_shift(line, from) matches Some(p) ==> from <= p && p + 1 < line.len() && 0 <= p,
    decreases line.len() - from,
{
    if !(from < 0 || from + 1 >= line.len()) && !(line[from] == LESS_THAN && line[from + 1]
        == LESS_THAN) {
        lemma_first_shift_bounds(line, from + 1);
    }
}

/// The terminators of the heredocs opened on `line` at or after `from`, in
/// source order.
pub open spec fn openers_from(line: Seq<u8>, from: int) -> Seq<Seq<u8>>
    decreases line.len() - from,
{
    match first_shift(line, from) {
        None => seq![],
        Some(pos) => {
            proof {
                lemma_first_shift_bounds(line, from);
            }
            let rest = openers_from(line, pos + 2);
            match opener_at(line, pos) {
                Some(t) => seq![t] + rest,
                None => rest,
            }
        },
    }
}

fn find_shift(line: &[u8], from: usize) -> (r: Option<usize>)
    requires
        from <= line@.len(),
    ensures
        match r {
            Some(p) => first_shift(line@, from as int) == Some(p as int),
            None => first_shift(line@, from as int) is None,
        },
{
    let mut i = from;
    while line.len() - i > 1
        invariant
            from <= i <= line@.len(),
            first_shift(line@, from as int) == first_shift(line@, i as int),
        decreases line@.len() - i,
    {
        if line[i] == LESS_THAN && line[i + 1] == LESS_THAN {
            return Some(i);
        }
        i = i + 1;
    }
    None
}

fn ends_operand(b: u8) -> (r: bool)
    ensures
        r == spec_ends_operand(b),
{
    is_ascii_alnum(b) || b == UNDERSCORE || b == 0x29 || b == 0x5d || b == 0x7d || b == 0x40
        || b == 0x24
}

fn unquote_range(line: &[u8], start: usize) -> (r: (usize, usize))
    requires
        start <= line@.len(),
    ensures
        r.0 <= r.1 <= line@.len(),
        line@.subrange(r.0 as int, r.1 as int) == unquote(
            line@.subrange(start as int, line@.len() as int),
        ),
{
    let ghost after = line@.subrange(start as int, line@.len() as int);
    if start < line.len() && (line[start] == SINGLE_QUOTE || line[start] == DOUBLE_QUOTE) {
        let quote = line[start];
        assert(after[0] == quote);
        let mut j = start + 1;
        while j < line.len()
            invariant
                start + 1 <= j <= line@.len(),
                after == line@.subrange(start as int, line@.len() as int),
                quote == after[0],
                quote == SINGLE_QUOTE || quote == DOUBLE_QUOTE,
                first_index_of(after, 1, quote) == first_index_of(after, j - start, quote),
            decreases line@.len() - j,
        {
            if line[j] == quote {
                assert(after[j - start] == quote);
                assert(first_index_of(after, j - start, quote) == Some(j - start));
                assert(after.subrange(1, j - start) =~= line@.subrange(start + 1, j as int));
                return (start + 1, j);
            }
            j = j + 1;
        }
        (start, line.len())
    } else {
        (start, line.len())
    }
}

/// The heredoc terminator opened by the `<<` at `pos`, if any.
fn opener_at_exec(line: &[u8], pos: usize) -> (r: Option<Vec<u8>>)
    requires
        pos + 1 < line@.len(),
    ensures
        match r {
            Some(t) => opener_at(line@, pos as int) == Some(t@),
            None => opener_at(line@, pos as int) is None,
        },
{
    let ghost raw_after = line@.subrange(pos + 2, line@.len() as int);
    let n = line.len();
    let after_start = pos + 2;
    let prefixed = after_start < line.len() && (line[after_start] == TILDE || line[after_start]
        == MINUS);
    if !prefixed && pos > 0 {
        let mut check_pos = pos - 1;
        while check_pos > 0 && is_blank(line[check_pos])
            invariant
                check_pos < line@.len(),
                skip_blanks_back(line@, pos - 1) == skip_blanks_back(line@, check_pos as int),
            decreases check_pos,
        {
            check_pos = check_pos - 1;
        }
        if ends_operand(line[check_pos]) {
            return None;
        }
    }
    let body_start = if prefixed {
        after_start + 1
    } else {
        after_start
    };
    assert(line@.subrange(body_start as int, line@.len() as int) == (if prefixed {
        raw_after.drop_first()
    } else {
        raw_after
    }));
    let (a, b) = unquote_range(line, body_start);
    let ghost after = line@.subrange(a as int, b as int);
    if a == b || !(is_ascii_alpha(line[a]) || line[a] == UNDERSCORE) {
        return None;
    }
    let mut e = a;
    while e < b && (is_ascii_alnum(line[e]) || line[e] == UNDERSCORE)
        invariant
            a <= e <= b <= line@.len(),
            after == line@.subrange(a as int, b as int),
            word_run_end(after, 0) == word_run_end(after, e - a),
        decreases b - e,
    {
        e = e + 1;
    }
    assert(after.take(word_run_end(after, 0)) =~= line@.subrange(a as int, e as int));
    Some(vstd::slice::slice_to_vec(&line[a..e]))
}

} // verus!

verus! {

/// The terminators of the heredocs opened on `line`, in source order.
pub fn heredoc_openers(line: &[u8]) -> (r: Vec<Vec<u8>>)
    ensures
        views(r@) == openers_from(line@, 0),
{
    let mut res: Vec<Vec<u8>> = Vec::new();
    let mut search_from: usize = 0;
    while search_from < line.len() && line.len() - search_from > 1
        invariant
            search_from <= line@.len(),
            views(res@) + openers_from(line@, search_from as int) == openers_from(line@, 0),
        decreases line@.len() - search_from,
    {
        proof {
            lemma_first_shift_bounds(line@, search_from as int);
        }
        match find_shift(line, search_from) {
            None => {
                assert(openers_from(line@, search_from as int) == Seq::<Seq<u8>>::empty());
                search_from = line.len();
                assert(openers_from(line@, search_from as int) =~= Seq::<Seq<u8>>::empty());
                assert(views(res@) + openers_from(line@, search_from as int) =~= views(res@));
                assert(views(res@) =~= views(res@) + Seq::<Seq<u8>>::empty());
            },
            Some(pos) => {
                let ghost old_res = res@;
                let ghost rest = openers_from(line@, pos + 2);
                match opener_at_exec(line, pos) {
                    Some(t) => {
                        res.push(t);
                        assert(views(res@) =~= views(old_res).push(t@));
                        assert(views(old_res) + (seq![t@] + rest) =~= views(old_res).push(t@)
                            + rest);
                    },
                    None => {},
                }
                search_from = pos + 2;
            },
        }
    }
    proof {
        lemma_first_shift_bounds(line@, search_from as int);
    }
    assert(openers_from(line@, search_from as int) =~= Seq::<Seq<u8>>::empty());
    assert(views(res@) + Seq::<Seq<u8>>::empty() =~= views(res@));
    res
}

/// The bytes of `__END__`.
pub open spec fn end_marker() -> Seq<u8> {
    seq![0x5fu8, 0x5fu8, 0x45u8, 0x4eu8, 0x44u8, 0x5fu8, 0x5fu8]
}

/// One line of the scan. The state is the stack of open heredoc terminators
/// (the innermost last) and whether a nonblank line has been seen; the step
/// gives the next state, whether the scan stops at a data section, and the
/// column where the trailing whitespace to report starts.
pub open spec fn tw_step(stack: Seq<Seq<u8>>, saw_nonblank: bool, raw_line: Seq<u8>, allow_in_heredoc: bool) -> (
    Seq<Seq<u8>>,
    bool,
    bool,
    Option<int>,
) {
    let line = spec_strip_cr(raw_line);
    let closes = stack.len() > 0 && line.subrange(blank_run_end(line, 0), line.len() as int)
        == stack.last();
    let stack1 = if closes {
        stack.drop_last()
    } else {
        stack
    };
    if stack.len() > 0 && !closes && allow_in_heredoc {
        (stack1, saw_nonblank, false, None)
    } else if line == end_marker() && stack1.len() == 0 && saw_nonblank {
        (stack1, saw_nonblank, true, None)
    } else {
        let stack2 = if stack1.len() == 0 {
            openers_from(line, 0).reverse()
        } else {
            stack1
        };
        (
            stack2,
            saw_nonblank || spec_line_has_nonblank_content(line),
            false,
            spec_trailing_whitespace_start(line),
        )
    }
}

/// The scan of the first `n` lines: the state after them, whether it has
/// stopped, and the offenses found, as (line index, start column, end column).
pub open spec fn tw_run(s: Seq<u8>, spans: Seq<(usize, usize)>, allow_in_heredoc: bool, n: int) -> (
    Seq<Seq<u8>>,
    bool,
    bool,
    Seq<(int, int, int)>,
)
    decreases n,
{
    if n <= 0 {
        (seq![], false, false, seq![])
    } else {
        let prev = tw_run(s, spans, allow_in_heredoc, n - 1);
        if prev.2 {
            prev
        } else {
            let raw = s.subrange(spans[n - 1].0 as int, spans[n - 1].1 as int);
            let step = tw_step(prev.0, prev.1, raw, allow_in_heredoc);
            (
                step.0,
                step.1,
                step.2,
                match step.3 {
                    Some(c) => prev.3.push((n - 1, c, spec_strip_cr(raw).len() as int)),
                    None => prev.3,
                },
            )
        }
    }
}

/// The offenses of a text: `(line index, start column, end column)` of each
/// reported trailing whitespace, in line order.
pub open spec fn trailing_whitespace_offenses(s: Seq<u8>, spans: Seq<(usize, usize)>, allow_in_heredoc: bool) -> Seq<(int, int, int)> {
    tw_run(s, spans, allow_in_heredoc, spans.len() as int).3
}

/// What `check_lines` reports for `s`, given its line split.
pub open spec fn reports_trailing_whitespace(
    s: Seq<u8>,
    spans: Seq<(usize, usize)>,
    allow_in_heredoc: bool,
    autocorrect: bool,
    diags: Seq<Diagnostic>,
    corrections: Seq<Correction>,
) -> bool {
    let offs = trailing_whitespace_offenses(s, spans, allow_in_heredoc);
    &&& diags.len() == offs.len()
    &&& forall|k: int|
        0 <= k < offs.len() ==> {
            &&& (#[trigger] diags[k]).location.line == offs[k].0 + 1
            &&& diags[k].location.column == offs[k].1
            &&& diags[k].message@ == TRAILING_WHITESPACE_MESSAGE.spec_bytes()
            &&& diags[k].corrected == autocorrect
        }
    &&& corrections.len() == (if autocorrect {
        offs.len()
    } else {
        0
    })
    &&& forall|k: int|
        0 <= k < corrections.len() ==> {
            &&& (#[trigger] corrections[k]).start == spans[offs[k].0].0 + offs[k].1
            &&& corrections[k].end == spans[offs[k].0].0 + offs[k].2
            &&& corrections[k].replacement@.len() == 0
        }
}

proof fn lemma_strip_cr_len(line: Seq<u8>)
    ensures
        spec_strip_cr(line).len() <= line.len(),
        spec_strip_cr(line) =~= line.subrange(0, spec_strip_cr(line).len() as int),
{
}

proof fn lemma_tws_bounds(line: Seq<u8>)
    ensures
        spec_trailing_whitespace_start(line) matches Some(c) ==> 0 <= c < line.len(),
{
    lemma_trailing_run_start_bounds(line, line.len() as int);
}

/// One line of the scan: updates the heredoc stack and returns the new
/// "nonblank line seen" flag, whether the data section starts here, and the
/// column where this line's trailing whitespace starts, if it is reported.
fn scan_line(stack: &mut Vec<Vec<u8>>, saw_nonblank: bool, raw: &[u8], allow_in_heredoc: bool) -> (r: (bool, bool, Option<usize>))
    ensures
        ({
            let step = tw_step(views(old(stack)@), saw_nonblank, raw@, allow_in_heredoc);
            &&& views(final(stack)@) == step.0
            &&& r.0 == step.1
            &&& r.1 == step.2
            &&& match r.2 {
                Some(c) => step.3 == Some(c as int),
                None => step.3 is None,
            }
        }),
{
    let ghost old_stack = views(stack@);
    let line = strip_line_ending_carriage_return(raw);
    let mut closes = false;
    if stack.len() > 0 {
        let t = skip_blanks(line, 0);
        let top = &stack[stack.len() - 1];
        closes = bytes_eq(&line[t..line.len()], top.as_slice());
        assert(views(stack@).last() == top@);
    }
    if stack.len() > 0 && !closes && allow_in_heredoc {
        return (saw_nonblank, false, None);
    }
    if closes {
        stack.pop();
        assert(views(stack@) =~= old_stack.drop_last());
    }
    if line.len() == 7 && line[0] == 0x5f && line[1] == 0x5f && line[2] == 0x45 && line[3]
        == 0x4e && line[4] == 0x44 && line[5] == 0x5f && line[6] == 0x5f && stack.len() == 0
        && saw_nonblank {
        assert(line@ =~= end_marker());
        return (saw_nonblank, true, None);
    }
    proof {
        if line@ == end_marker() {
            assert(line@[0] == 0x5fu8 && line@[6] == 0x5fu8);
        }
    }
    if stack.len() == 0 {
        let mut openers = heredoc_openers(line);
        let ghost all = views(openers@);
        while openers.len() > 0
            invariant
                views(openers@) == all.subrange(0, openers@.len() as int),
                views(stack@) =~= all.subrange(openers@.len() as int, all.len() as int).reverse(),
                openers@.len() <= all.len(),
            decreases openers@.len(),
        {
            let ghost old_openers = openers@;
            let ghost old_stack2 = views(stack@);
            let t = openers.pop().unwrap();
            let ghost m = openers@.len() as int;
            assert(old_openers[m] == t);
            assert(views(old_openers)[m] == t@);
            assert(all[m] == t@);
            stack.push(t);
            assert(views(stack@) =~= old_stack2.push(t@));
            assert(views(openers@) =~= all.subrange(0, openers@.len() as int));
            assert(all.subrange(m, all.len() as int).reverse() =~= all.subrange(m + 1, all.len() as int).reverse().push(all[m]));
        }
        assert(all.subrange(0, all.len() as int) =~= all);
    }
    let tws = trailing_whitespace_start(line);
    (saw_nonblank || line_has_nonblank_content(line), false, tws)
}

impl TrailingWhitespace {
    pub fn name(&self) -> (r: &'static str)
        ensures
            r@ == "Layout/TrailingWhitespace"@,
    {
        "Layout/TrailingWhitespace"
    }

    pub fn supports_autocorrect(&self) -> (r: bool)
        ensures
            r,
    {
        true
    }

    /// Scans `source` line by line and reports trailing whitespace; with
    /// `allow_in_heredoc`, lines inside heredocs are skipped. With
    /// `autocorrect`, each offense comes with the edit that deletes it.
    pub fn check_lines(&self, source: &[u8], allow_in_heredoc: bool, autocorrect: bool) -> (r: (
        Vec<Diagnostic>,
        Vec<Correction>,
    ))
        ensures
            forall|spans: Seq<(usize, usize)>|
                is_line_split(source@, spans) ==> reports_trailing_whitespace(
                    source@,
                    spans,
                    allow_in_heredoc,
                    autocorrect,
                    r.0@,
                    r.1@,
                ),
    {
        let spans = line_spans(source);
        let mut diags: Vec<Diagnostic> = Vec::new();
        let mut corrections: Vec<Correction> = Vec::new();
        let mut stack: Vec<Vec<u8>> = Vec::new();
        let mut saw_nonblank = false;
        let mut i: usize = 0;
        let mut stopped = false;
        assert(views(stack@) =~= Seq::<Seq<u8>>::empty());
        while i < spans.len() && !stopped
            invariant
                is_line_split(source@, spans@),
                i <= spans@.len(),
                ({
                    let run = tw_run(source@, spans@, allow_in_heredoc, i as int);
                    &&& views(stack@) == run.0
                    &&& saw_nonblank == run.1
                    &&& stopped == run.2
                    &&& diags@.len() == run.3.len()
                    &&& forall|k: int|
                        0 <= k < run.3.len() ==> {
                            &&& (#[trigger] diags@[k]).location.line == run.3[k].0 + 1
                            &&& diags@[k].location.column == run.3[k].1
                            &&& diags@[k].message@ == TRAILING_WHITESPACE_MESSAGE.spec_bytes()
                            &&& diags@[k].corrected == autocorrect
                        }
                    &&& corrections@.len() == (if autocorrect {
                        run.3.len()
                    } else {
                        0
                    })
                    &&& forall|k: int|
                        0 <= k < corrections@.len() ==> {
                            &&& (#[trigger] corrections@[k]).start == spans@[run.3[k].0].0
                                + run.3[k].1
                            &&& corrections@[k].end == spans@[run.3[k].0].0 + run.3[k].2
                            &&& corrections@[k].replacement@.len() == 0
                        }
                }),
            decreases spans@.len() - i,
        {
            let ghost prev = tw_run(source@, spans@, allow_in_heredoc, i as int);
            let (ls, le) = spans[i];
            assert(spans@[i as int].0 <= spans@[i as int].1 <= source@.len());
            let raw = &source[ls..le];
            proof {
                lemma_strip_cr_len(raw@);
                lemma_tws_bounds(spec_strip_cr(raw@));
            }
            let (saw, stop, tws) = scan_line(&mut stack, saw_nonblank, raw, allow_in_heredoc);
            saw_nonblank = saw;
            stopped = stop;
            match tws {
                Some(c) => {
                    let line_len = if raw.len() > 0 && raw[raw.len() - 1] == CARRIAGE_RETURN {
                        raw.len() - 1
                    } else {
                        raw.len()
                    };
                    diags.push(
                        Diagnostic {
                            location: Location { line: i + 1, column: c },
                            message: message(TRAILING_WHITESPACE_MESSAGE),
                            corrected: autocorrect,
                        },
                    );
                    if autocorrect {
                        corrections.push(
                            Correction { start: ls + c, end: ls + line_len, replacement: Vec::new() },
                        );
                    }
                },
                None => {},
            }
            i = i + 1;
        }
        proof {
            assert forall|n: int| i <= n <= spans@.len() implies tw_run(
                source@,
                spans@,
                allow_in_heredoc,
                n,
            ) == tw_run(source@, spans@, allow_in_heredoc, i as int) by {
                lemma_tw_run_stopped(source@, spans@, allow_in_heredoc, i as int, n);
            }
            assert forall|sp: Seq<(usize, usize)>| is_line_split(source@, sp) implies sp
                == spans@ by {
                lemma_line_split_unique(source@, sp, spans@);
            }
        }
        (diags, corrections)
    }
}

proof fn lemma_tw_run_stopped(s: Seq<u8>, spans: Seq<(usize, usize)>, allow: bool, i: int, n: int)
    requires
        0 <= i <= n,
        i == spans.len() || tw_run(s, spans, allow, i).2,
        n <= spans.len(),
    ensures
        tw_run(s, spans, allow, n) == tw_run(s, spans, allow, i),
    decreases n - i,
{
    if n > i {
        lemma_tw_run_stopped(s, spans, allow, i, n - 1);
    }
}

} // verus!

verus! {

proof fn lemma_ws_unit_prefix(line: Seq<u8>, c: int)
    requires
        0 <= c <= line.len(),
    ensures
        ws_unit_len(line.take(c), c) == ws_unit_len(line, c),
{
}

/// Deleting the trailing whitespace that is reported for a line (the bytes
/// from the reported column up to the line ending, which is kept) leaves a
/// line without trailing whitespace. This fails only when the line has no
/// final carriage return and a carriage return stands just before the
/// removed whitespace: that byte then becomes the line ending.
pub proof fn lemma_corrected_line_has_no_trailing_whitespace(raw_line: Seq<u8>, c: int)
    requires
        spec_trailing_whitespace_start(spec_strip_cr(raw_line)) == Some(c),
        !(spec_strip_cr(raw_line) == raw_line && c > 0 && raw_line[c - 1] == CARRIAGE_RETURN),
    ensures
        spec_trailing_whitespace_start(
            spec_strip_cr(
                raw_line.take(c) + raw_line.skip(spec_strip_cr(raw_line).len() as int),
            ),
        ) is None,
{
    let line = spec_strip_cr(raw_line);
    lemma_trailing_run_start_bounds(line, line.len() as int);
    lemma_strip_cr_len(raw_line);
    let fixed = raw_line.take(c) + raw_line.skip(line.len() as int);
    let kept = line.take(c);
    if line.len() < raw_line.len() {
        assert(raw_line.skip(line.len() as int) =~= seq![CARRIAGE_RETURN]);
        assert(fixed.drop_last() =~= kept);
    } else {
        assert(raw_line.skip(line.len() as int) =~= Seq::<u8>::empty());
        assert(fixed =~= kept);
        if kept.len() > 0 {
            assert(kept.last() == line[c - 1]);
        }
    }
    assert(spec_strip_cr(fixed) =~= kept);
    lemma_ws_unit_prefix(line, c);
    assert(kept.len() == c);
    assert(trailing_run_start(kept, c) == c);
}

/// Facts about the offenses of the first `n` lines: their line indices are
/// below `n` and increasing, and each range lies inside its line.
proof fn lemma_tw_run_shape(s: Seq<u8>, spans: Seq<(usize, usize)>, allow: bool, n: int)
    requires
        is_line_split(s, spans),
        0 <= n <= spans.len(),
    ensures
        ({
            let offs = tw_run(s, spans, allow, n).3;
            &&& forall|k: int|
                0 <= k < offs.len() ==> 0 <= (#[trigger] offs[k]).0 < n && 0 <= offs[k].1
                    <= offs[k].2 && spans[offs[k].0].0 + offs[k].2 <= spans[offs[k].0].1
            &&& forall|k: int| 0 <= k < offs.len() - 1 ==> (#[trigger] offs[k]).0 < offs[k + 1].0
        }),
    decreases n,
{
    if n > 0 {
        lemma_tw_run_shape(s, spans, allow, n - 1);
        let prev = tw_run(s, spans, allow, n - 1);
        if !prev.2 {
            let raw = s.subrange(spans[n - 1].0 as int, spans[n - 1].1 as int);
            lemma_strip_cr_len(raw);
            lemma_tws_bounds(spec_strip_cr(raw));
        }
    }
}

/// The corrections that `check_lines` produces can be applied in one pass:
/// they are in source order and do not overlap.
pub proof fn lemma_trailing_whitespace_corrections_in_order(
    s: Seq<u8>,
    spans: Seq<(usize, usize)>,
    allow_in_heredoc: bool,
    diags: Seq<Diagnostic>,
    corrections: Seq<Correction>,
)
    requires
        is_line_split(s, spans),
        reports_trailing_whitespace(s, spans, allow_in_heredoc, true, diags, corrections),
    ensures
        corrections_in_order(s.len(), corrections),
{
    lemma_tw_run_shape(s, spans, allow_in_heredoc, spans.len() as int);
    let offs = trailing_whitespace_offenses(s, spans, allow_in_heredoc);
    assert forall|k: int| 0 <= k < corrections.len() - 1 implies #[trigger] corrections[k].end
        <= corrections[k + 1].start by {
        let a = offs[k].0;
        let b = offs[k + 1].0;
        assert(a < b);
        assert forall|m: int| a <= m < b implies spans[m].1 < spans[m + 1].0 by {}
        lemma_spans_increase(s, spans, a, b);
    }
}

proof fn lemma_spans_increase(s: Seq<u8>, spans: Seq<(usize, usize)>, a: int, b: int)
    requires
        is_line_split(s, spans),
        0 <= a < b < spans.len(),
    ensures
        spans[a].1 < spans[b].0,
    decreases b - a,
{
    if b - a > 1 {
        lemma_spans_increase(s, spans, a, b - 1);
    }
}

/// The terminators of the heredocs that the scan holds open when it
/// reaches line `k` (0-based).
pub open spec fn open_heredocs(s: Seq<u8>, spans: Seq<(usize, usize)>, allow_in_heredoc: bool, k: int) -> Seq<Seq<u8>> {
    tw_run(s, spans, allow_in_heredoc, k).0
}

/// The text of line `k` (0-based) without a final carriage return.
pub open spec fn line_text(s: Seq<u8>, spans: Seq<(usize, usize)>, k: int) -> Seq<u8> {
    spec_strip_cr(s.subrange(spans[k].0 as int, spans[k].1 as int))
}

/// A byte of a whitespace unit.
pub open spec fn is_whitespace_unit_byte(b: u8) -> bool {
    spec_is_blank(b) || b == 0xe3u8 || b == 0x80u8 || b == 0xc2u8 || b == 0xa0u8
}

proof fn lemma_whitespace_run_bytes(line: Seq<u8>, end: int)
    requires
        0 <= end <= line.len(),
        trailing_run_start(line, end) == 0,
    ensures
        forall|i: int| 0 <= i < end ==> is_whitespace_unit_byte(#[trigger] line[i]),
    decreases end,
{
    if end > 0 && ws_unit_len(line, end) > 0 {
        lemma_whitespace_run_bytes(line, end - ws_unit_len(line, end));
    }
}

proof fn lemma_first_shift_at(line: Seq<u8>, from: int)
    ensures
        first_shift(line, from) matches Some(p) ==> 0 <= p < line.len() && line[p] == LESS_THAN,
    decreases line.len() - from,
{
    if !(from < 0 || from + 1 >= line.len()) && !(line[from] == LESS_THAN && line[from + 1]
        == LESS_THAN) {
        lemma_first_shift_at(line, from + 1);
    }
}

proof fn lemma_openers_need_content(line: Seq<u8>, from: int)
    requires
        openers_from(line, from).len() > 0,
    ensures
        spec_line_has_nonblank_content(line),
    decreases line.len() - from,
{
    lemma_first_shift_bounds(line, from);
    lemma_first_shift_at(line, from);
    let pos = first_shift(line, from)->0;
    if spec_trailing_whitespace_start(line) == Some(0int) {
        lemma_whitespace_run_bytes(line, line.len() as int);
        assert(is_whitespace_unit_byte(line[pos]));
    }
}

/// While the scan goes on, a nonblank line seen so far, or an open heredoc,
/// means that the scan has seen a nonblank line.
proof fn lemma_tw_run_saw_content(s: Seq<u8>, spans: Seq<(usize, usize)>, allow: bool, n: int)
    requires
        is_line_split(s, spans),
        0 <= n <= spans.len(),
    ensures
        !tw_run(s, spans, allow, n).2 ==> {
            &&& tw_run(s, spans, allow, n).0.len() > 0 ==> tw_run(s, spans, allow, n).1
            &&& forall|j: int|
                0 <= j < n && spec_line_has_nonblank_content(#[trigger] line_text(s, spans, j))
                    ==> tw_run(s, spans, allow, n).1
        },
    decreases n,
{
    if n > 0 {
        lemma_tw_run_saw_content(s, spans, allow, n - 1);
        let prev = tw_run(s, spans, allow, n - 1);
        if !prev.2 {
            let raw = s.subrange(spans[n - 1].0 as int, spans[n - 1].1 as int);
            let line = spec_strip_cr(raw);
            assert(line == line_text(s, spans, n - 1));
            let stack = prev.0;
            let closes = stack.len() > 0 && line.subrange(blank_run_end(line, 0), line.len() as int)
                == stack.last();
            let stack1 = if closes { stack.drop_last() } else { stack };
            if stack.len() > 0 && !closes && allow {
            } else if line == end_marker() && stack1.len() == 0 && prev.1 {
            } else {
                if stack1.len() == 0 && openers_from(line, 0).reverse().len() > 0 {
                    lemma_openers_need_content(line, 0);
                }
            }
        }
    }
}

proof fn lemma_data_marker_ends_offenses(s: Seq<u8>, spans: Seq<(usize, usize)>, allow: bool, k: int)
    requires
        is_line_split(s, spans),
        0 <= k < spans.len(),
        line_text(s, spans, k) == end_marker(),
        exists|j: int| 0 <= j < k && spec_line_has_nonblank_content(#[trigger] line_text(s, spans, j)),
        open_heredocs(s, spans, allow, k).len() == 0,
    ensures
        forall|m: int| 0 <= m < trailing_whitespace_offenses(s, spans, allow).len()
            ==> (#[trigger] trailing_whitespace_offenses(s, spans, allow)[m]).0 < k,
{
    lemma_tw_run_saw_content(s, spans, allow, k);
    lemma_tw_run_shape(s, spans, allow, k);
    let before = tw_run(s, spans, allow, k);
    if before.2 {
        lemma_tw_run_stopped(s, spans, allow, k, spans.len() as int);
    } else {
        let raw = s.subrange(spans[k].0 as int, spans[k].1 as int);
        assert(spec_strip_cr(raw) == line_text(s, spans, k));
        let step = tw_step(before.0, before.1, raw, allow);
        assert(step.2);
        assert(step.3 is None);
        assert(tw_run(s, spans, allow, k + 1) == (step.0, step.1, step.2, before.3));
        lemma_tw_run_stopped(s, spans, allow, k + 1, spans.len() as int);
    }
}

/// Nothing past an `__END__` line is reported once a nonblank line came
/// before it and no heredoc is open there: the rest of the file is data.
pub proof fn law_nothing_reported_after_data_marker(
    s: Seq<u8>,
    spans: Seq<(usize, usize)>,
    allow_in_heredoc: bool,
    autocorrect: bool,
    k: int,
    diags: Seq<Diagnostic>,
    corrections: Seq<Correction>,
)
    requires
        is_line_split(s, spans),
        0 <= k < spans.len(),
        line_text(s, spans, k) == end_marker(),
        exists|j: int| 0 <= j < k && spec_line_has_nonblank_content(#[trigger] line_text(s, spans, j)),
        open_heredocs(s, spans, allow_in_heredoc, k).len() == 0,
        reports_trailing_whitespace(s, spans, allow_in_heredoc, autocorrect, diags, corrections),
    ensures
        forall|i: int| 0 <= i < diags.len() ==> (#[trigger] diags[i]).location.line <= k,
{
    lemma_data_marker_ends_offenses(s, spans, allow_in_heredoc, k);
    let offs = trailing_whitespace_offenses(s, spans, allow_in_heredoc);
    assert forall|i: int| 0 <= i < diags.len() implies (#[trigger] diags[i]).location.line <= k by {
        assert(offs[i].0 < k);
    }
}

} // verus!
