//! Layout/SpaceAroundOperators: one space on each side of a binary or
//! assignment operator, no space around `**` (and around `/` of a rational
//! literal) in the default styles, extra spaces only where they align the
//! operator with a neighbouring line.
use vstd::prelude::*;
use vstd::string::StringSliceAdditionalSpecFns;
use crate::ascii::{AMP, BANG, CARET, DOT, EQUALS, GT, LT, MINUS, PERCENT, PIPE, PLUS, SLASH, STAR, TILDE};
use crate::code_map::CodeMap;
use crate::cop::layout::space_before_first_arg::{
    find_nearest_nonblank, is_blank_or_comment, line_indentation, line_of, nearest_down, nearest_up,
    spec_is_blank_or_comment, spec_line_indentation,
};
use crate::bytes::append;
use crate::text::bytes_eq;
use crate::diagnostic::{
    correction, edit, edit_of, edits_of, lemma_reports_none, message, push_report, report, reports_all, Correction,
    Diagnostic, Edit, Report,
};
use crate::text::{
    blank_run_end, is_blank, is_line_split, line_spans, line_start, line_start_of, skip_blanks, spec_is_ascii_digit, spec_is_blank,
    utf8_or, utf8_valid, CARRIAGE_RETURN, HASH, NEWLINE, SPACE,
};

verus! {

pub struct SpaceAroundOperators;

/// The width of the character that starts with byte `b`, as its lead byte
/// announces it.
pub open spec fn lead_width(b: u8) -> int {
    if b < 0x80 {
        1
    } else if 0xc0 <= b < 0xe0 {
        2
    } else if 0xe0 <= b < 0xf0 {
        3
    } else {
        4
    }
}

fn lead_width_exec(b: u8) -> (r: usize)
    ensures
        r == lead_width(b),
{
    if b < 0x80 {
        1
    } else if 0xc0 <= b && b < 0xe0 {
        2
    } else if 0xe0 <= b && b < 0xf0 {
        3
    } else {
        4
    }
}

/// The characters that start at or after byte `i` and before byte `cap`.
pub open spec fn chars_before(line: Seq<u8>, i: int, cap: int) -> int
    decreases (if i < cap { cap - i } else { 0 }),
{
    if i >= cap || i < 0 {
        0
    } else {
        1 + chars_before(line, i + lead_width(line[i]), cap)
    }
}

/// The character column of byte column `byte_col` of `line`.
pub open spec fn spec_bytes_to_char_col(line: Seq<u8>, byte_col: int) -> int {
    chars_before(line, 0, if byte_col < line.len() { byte_col } else { line.len() as int })
}

/// The byte where character `target` starts, walking from byte `i`, which
/// starts character `chars`; the end of the line when it has exactly
/// `target` characters.
pub open spec fn byte_of_char(line: Seq<u8>, i: int, chars: int, target: int) -> Option<int>
    decreases (if i < line.len() { line.len() - i } else { 0 }),
{
    if i < line.len() {
        if chars == target {
            Some(i)
        } else {
            byte_of_char(line, i + lead_width(line[i]), chars + 1, target)
        }
    } else if chars == target {
        Some(i)
    } else {
        None
    }
}

pub open spec fn spec_char_col_to_bytes(line: Seq<u8>, char_col: int) -> Option<int> {
    byte_of_char(line, 0, 0, char_col)
}

/// Counts the characters of `line` that start before byte `byte_col`.
pub fn bytes_to_char_col(line: &[u8], byte_col: usize) -> (r: usize)
    requires
        line@.len() + 4 <= usize::MAX,
    ensures
        r == spec_bytes_to_char_col(line@, byte_col as int),
{
    let cap = if byte_col < line.len() { byte_col } else { line.len() };
    let mut chars: usize = 0;
    let mut i: usize = 0;
    while i < cap
        invariant
            cap <= line@.len(),
            line@.len() + 4 <= usize::MAX,
            chars <= i <= cap + 4,
            chars + chars_before(line@, i as int, cap as int) == chars_before(line@, 0, cap as int),
        decreases cap + 4 - i,
    {
        let w = lead_width_exec(line[i]);
        i = i + w;
        chars = chars + 1;
    }
    chars
}

/// The byte offset in `line` where character column `char_col` starts.
pub fn char_col_to_bytes(line: &[u8], char_col: usize) -> (r: Option<usize>)
    requires
        line@.len() + 4 <= usize::MAX,
    ensures
        match r {
            Some(b) => spec_char_col_to_bytes(line@, char_col as int) == Some(b as int) && b <= line@.len() + 3,
            None => spec_char_col_to_bytes(line@, char_col as int) is None,
        },
{
    let mut chars: usize = 0;
    let mut i: usize = 0;
    while i < line.len()
        invariant
            line@.len() + 4 <= usize::MAX,
            chars <= i <= line@.len() + 3,
            byte_of_char(line@, i as int, chars as int, char_col as int) == spec_char_col_to_bytes(line@, char_col as int),
        decreases line@.len() + 4 - i,
    {
        if chars == char_col {
            return Some(i);
        }
        i = i + lead_width_exec(line[i]);
        chars = chars + 1;
    }
    if chars == char_col {
        Some(i)
    } else {
        None
    }
}

/// Byte `b` is reached from byte `i` by stepping over whole characters.
pub open spec fn reaches_char_start(line: Seq<u8>, i: int, b: int) -> bool
    decreases (if i < b { b - i } else { 0 }),
{
    if i == b {
        true
    } else if i < b && i < line.len() {
        reaches_char_start(line, i + lead_width(line[i]), b)
    } else {
        false
    }
}

/// Byte `b` of `line` is the start of a character, or the end of the line
/// after its last character.
pub open spec fn is_char_boundary(line: Seq<u8>, b: int) -> bool {
    0 <= b <= line.len() && reaches_char_start(line, 0, b)
}

proof fn lemma_chars_before_nonneg(line: Seq<u8>, i: int, cap: int)
    ensures
        chars_before(line, i, cap) >= 0,
    decreases (if i < cap { cap - i } else { 0 }),
{
    if !(i >= cap || i < 0) {
        lemma_chars_before_nonneg(line, i + lead_width(line[i]), cap);
    }
}

proof fn lemma_byte_of_char_counted(line: Seq<u8>, i: int, c: int, b: int)
    requires
        0 <= i <= b <= line.len(),
        reaches_char_start(line, i, b),
    ensures
        byte_of_char(line, i, c, c + chars_before(line, i, b)) == Some(b),
    decreases b - i,
{
    if i < b {
        let next = i + lead_width(line[i]);
        assert(reaches_char_start(line, next, b));
        assert(next <= b);
        lemma_chars_before_nonneg(line, next, b);
        lemma_byte_of_char_counted(line, i + lead_width(line[i]), c + 1, b);
    }
}

proof fn lemma_byte_of_char_past_end(line: Seq<u8>, i: int, c: int, t: int)
    requires
        0 <= i,
        t > c + chars_before(line, i, line.len() as int),
    ensures
        byte_of_char(line, i, c, t) is None,
    decreases (if i < line.len() { line.len() - i } else { 0 }),
{
    lemma_chars_before_nonneg(line, i, line.len() as int);
    if i < line.len() {
        lemma_byte_of_char_past_end(line, i + lead_width(line[i]), c + 1, t);
    }
}

/// Turning a byte column that starts a character into a character column
/// and back gives the byte column again; a character column past the last
/// character of the line has no byte column.
pub proof fn law_char_columns_round_trip(line: Seq<u8>, b: int, n: int)
    ensures
        is_char_boundary(line, b) ==> spec_char_col_to_bytes(line, spec_bytes_to_char_col(line, b)) == Some(b),
        n > spec_bytes_to_char_col(line, line.len() as int) ==> spec_char_col_to_bytes(line, n) is None,
{
    if is_char_boundary(line, b) {
        lemma_byte_of_char_counted(line, 0, 0, b);
    }
    if n > spec_bytes_to_char_col(line, line.len() as int) {
        lemma_byte_of_char_past_end(line, 0, 0, n);
    }
}

pub open spec fn is_compound_prefix(b: u8) -> bool {
    b == PLUS || b == MINUS || b == STAR || b == SLASH || b == PERCENT || b == CARET || b == PIPE || b == AMP
}

/// An assignment-like operator (`=`, `==`, `!=`, `<=`, `>=`, `+=` and the
/// other compound assignments, or `<<`) ends at byte column `t` of `line`.
pub open spec fn ends_assignment_like(line: Seq<u8>, t: int) -> bool {
    if t <= 0 || t > line.len() {
        false
    } else if line[t - 1] == EQUALS {
        let before = if t >= 2 { line[t - 2] } else { SPACE };
        spec_is_blank(before) || before == EQUALS || before == BANG || before == LT || before == GT
            || is_compound_prefix(before)
    } else {
        line[t - 1] == LT && t >= 2 && line[t - 2] == LT
    }
}

pub fn line_has_operator_ending_at_col(line: &[u8], target_end_col: usize) -> (r: bool)
    ensures
        r == ends_assignment_like(line@, target_end_col as int),
{
    if target_end_col == 0 || target_end_col > line.len() {
        return false;
    }
    let end_byte = line[target_end_col - 1];
    if end_byte == EQUALS {
        let before = if target_end_col >= 2 { line[target_end_col - 2] } else { SPACE };
        is_blank(before) || before == EQUALS || before == BANG || before == LT || before == GT || before == PLUS
            || before == MINUS || before == STAR || before == SLASH || before == PERCENT || before == CARET
            || before == PIPE || before == AMP
    } else {
        end_byte == LT && target_end_col >= 2 && line[target_end_col - 2] == LT
    }
}

/// An assignment-like operator in code ends at character column `cec` of
/// line `k`.
pub open spec fn ends_aligned(s: Seq<u8>, cm: CodeMap, spans: Seq<(usize, usize)>, k: int, cec: int) -> bool {
    let line = line_of(s, spans, k);
    match spec_char_col_to_bytes(line, cec) {
        Some(be) => be > 0 && cm.spec_is_code(spans[k].0 + be - 1) && ends_assignment_like(line, be),
        None => false,
    }
}

/// Line `k` lines up with an operator `op` at character columns
/// `[cc, cec)`: the same operator in code starts there, or a code token
/// starts there after a blank, or an assignment-like operator ends at `cec`.
pub open spec fn candidate_aligned(
    s: Seq<u8>,
    cm: CodeMap,
    spans: Seq<(usize, usize)>,
    k: int,
    cc: int,
    cec: int,
    op: Seq<u8>,
) -> bool {
    let line = line_of(s, spans, k);
    let ls = spans[k].0 as int;
    (match spec_char_col_to_bytes(line, cc) {
        Some(bc) => (bc + op.len() <= line.len() && line.subrange(bc, bc + op.len()) == op && cm.spec_is_code(ls + bc))
            || (bc > 0 && bc < line.len() && spec_is_blank(line[bc - 1]) && !spec_is_blank(line[bc]) && cm.spec_is_code(
            ls + bc,
        )),
        None => false,
    }) || ends_aligned(s, cm, spans, k, cec)
}

/// Line `k` has, in code, an assignment-like operator ending at `cec` or
/// an `=` after a blank at `cc`.
pub open spec fn aligned_assignment(s: Seq<u8>, cm: CodeMap, spans: Seq<(usize, usize)>, k: int, cc: int, cec: int) -> bool {
    let line = line_of(s, spans, k);
    ends_aligned(s, cm, spans, k, cec) || match spec_char_col_to_bytes(line, cc) {
        Some(bc) => bc + 1 <= line.len() && line[bc] == EQUALS && cm.spec_is_code(spans[k].0 + bc) && bc > 0
            && spec_is_blank(line[bc - 1]),
        None => false,
    }
}

/// Line `k` has an `=` in code that does not start `=>` or `=~`.
pub open spec fn has_assignment(s: Seq<u8>, cm: CodeMap, spans: Seq<(usize, usize)>, k: int) -> bool {
    let line = line_of(s, spans, k);
    exists|i: int|
        0 <= i < line.len() && #[trigger] line[i] == EQUALS && cm.spec_is_code(spans[k].0 + i) && !(i + 1 < line.len()
            && (line[i + 1] == GT || line[i + 1] == TILDE))
}

pub open spec fn spans_fit(s: Seq<u8>, spans: Seq<(usize, usize)>) -> bool {
    &&& is_line_split(s, spans)
    &&& s.len() + 8 <= usize::MAX
}

fn line_slice<'a>(source: &'a [u8], spans: &Vec<(usize, usize)>, k: usize) -> (r: (&'a [u8], usize))
    requires
        is_line_split(source@, spans@),
        k < spans@.len(),
    ensures
        r.0@ == line_of(source@, spans@, k as int),
        r.1 == spans@[k as int].0,
        r.1 + r.0@.len() <= source@.len(),
{
    let (a, b) = spans[k];
    assert(spans@[k as int].0 <= spans@[k as int].1 <= source@.len());
    (&source[a..b], a)
}

fn ends_aligned_exec(source: &[u8], cm: &CodeMap, spans: &Vec<(usize, usize)>, k: usize, cec: usize) -> (r: bool)
    requires
        spans_fit(source@, spans@),
        k < spans@.len(),
    ensures
        r == ends_aligned(source@, *cm, spans@, k as int, cec as int),
{
    let (line, ls) = line_slice(source, spans, k);
    match char_col_to_bytes(line, cec) {
        Some(be) => be > 0 && cm.is_code(ls + be - 1) && line_has_operator_ending_at_col(line, be),
        None => false,
    }
}

fn candidate_aligned_exec(
    source: &[u8],
    cm: &CodeMap,
    spans: &Vec<(usize, usize)>,
    k: usize,
    cc: usize,
    cec: usize,
    op: &[u8],
) -> (r: bool)
    requires
        spans_fit(source@, spans@),
        k < spans@.len(),
    ensures
        r == candidate_aligned(source@, *cm, spans@, k as int, cc as int, cec as int, op@),
{
    let (line, ls) = line_slice(source, spans, k);
    let first = match char_col_to_bytes(line, cc) {
        Some(bc) => {
            let same = bc <= line.len() && op.len() <= line.len() - bc && crate::text::bytes_eq(&line[bc..bc + op.len()], op)
                && cm.is_code(ls + bc);
            same || (bc > 0 && bc < line.len() && is_blank(line[bc - 1]) && !is_blank(line[bc]) && cm.is_code(ls + bc))
        },
        None => false,
    };
    first || ends_aligned_exec(source, cm, spans, k, cec)
}

fn aligned_assignment_exec(source: &[u8], cm: &CodeMap, spans: &Vec<(usize, usize)>, k: usize, cc: usize, cec: usize) -> (r: bool)
    requires
        spans_fit(source@, spans@),
        k < spans@.len(),
    ensures
        r == aligned_assignment(source@, *cm, spans@, k as int, cc as int, cec as int),
{
    if ends_aligned_exec(source, cm, spans, k, cec) {
        return true;
    }
    let (line, ls) = line_slice(source, spans, k);
    match char_col_to_bytes(line, cc) {
        Some(bc) => bc < line.len() && line[bc] == EQUALS && cm.is_code(ls + bc) && bc > 0 && is_blank(line[bc - 1]),
        None => false,
    }
}

fn has_assignment_exec(source: &[u8], cm: &CodeMap, spans: &Vec<(usize, usize)>, k: usize) -> (r: bool)
    requires
        spans_fit(source@, spans@),
        k < spans@.len(),
    ensures
        r == has_assignment(source@, *cm, spans@, k as int),
{
    let (line, ls) = line_slice(source, spans, k);
    let mut i: usize = 0;
    while i < line.len()
        invariant
            i <= line@.len(),
            line@ == line_of(source@, spans@, k as int),
            k < spans@.len(),
            source@.len() + 8 <= usize::MAX,
            ls == spans@[k as int].0,
            ls + line@.len() <= source@.len(),
            forall|j: int|
                0 <= j < i ==> !(#[trigger] line@[j] == EQUALS && cm.spec_is_code(ls + j) && !(j + 1 < line@.len() && (
                line@[j + 1] == GT || line@[j + 1] == TILDE))),
        decreases line@.len() - i,
    {
        if line[i] == EQUALS && cm.is_code(ls + i) && !(i + 1 < line.len() && (line[i + 1] == GT || line[i + 1] == TILDE)) {
            return true;
        }
        i = i + 1;
    }
    false
}

pub proof fn lemma_chars_before_bound(line: Seq<u8>, i: int, cap: int)
    requires
        0 <= i,
    ensures
        chars_before(line, i, cap) <= (if i < cap { cap - i } else { 0 }),
    decreases (if i < cap { cap - i } else { 0 }),
{
    if i < cap {
        lemma_chars_before_bound(line, i + lead_width(line[i]), cap);
    }
}

pub open spec fn near_aligned(s: Seq<u8>, cm: CodeMap, spans: Seq<(usize, usize)>, k: Option<int>, cc: int, cec: int, op: Seq<u8>) -> bool {
    k matches Some(j) && candidate_aligned(s, cm, spans, j, cc, cec, op)
}

/// The nearest code line above, or else the nearest below, of line `idx`
/// (with the indentation `filter` where one is given) lines up.
pub open spec fn standalone_aligned(
    s: Seq<u8>,
    cm: CodeMap,
    spans: Seq<(usize, usize)>,
    idx: int,
    cc: int,
    cec: int,
    op: Seq<u8>,
    filter: Option<int>,
) -> bool {
    near_aligned(s, cm, spans, nearest_up(s, spans, idx, filter), cc, cec, op) || near_aligned(
        s,
        cm,
        spans,
        nearest_down(s, spans, idx, filter),
        cc,
        cec,
        op,
    )
}

/// Going up from line `k` over blank and comment lines and lines indented
/// deeper than `indent`, a line indented by `indent` has an aligned
/// assignment before a line indented less is met.
pub open spec fn assignment_above(s: Seq<u8>, cm: CodeMap, spans: Seq<(usize, usize)>, k: int, cc: int, cec: int, indent: int) -> bool
    decreases (if k >= 0 { k + 1 } else { 0 }),
{
    if k < 0 || k >= spans.len() {
        false
    } else {
        let line = line_of(s, spans, k);
        if spec_is_blank_or_comment(line) {
            assignment_above(s, cm, spans, k - 1, cc, cec, indent)
        } else if spec_line_indentation(line) < indent {
            false
        } else if spec_line_indentation(line) == indent && aligned_assignment(s, cm, spans, k, cc, cec) {
            true
        } else {
            assignment_above(s, cm, spans, k - 1, cc, cec, indent)
        }
    }
}

/// Going down from line `k` the same way, the first line indented by
/// `indent` that has an assignment: `Some(aligned)`, or `None`.
pub open spec fn assignment_below(s: Seq<u8>, cm: CodeMap, spans: Seq<(usize, usize)>, k: int, cc: int, cec: int, indent: int) -> Option<bool>
    decreases (if 0 <= k < spans.len() { spans.len() - k } else { 0 }),
{
    if k < 0 || k >= spans.len() {
        None
    } else {
        let line = line_of(s, spans, k);
        if spec_is_blank_or_comment(line) {
            assignment_below(s, cm, spans, k + 1, cc, cec, indent)
        } else if spec_line_indentation(line) < indent {
            None
        } else if spec_line_indentation(line) == indent && has_assignment(s, cm, spans, k) {
            Some(aligned_assignment(s, cm, spans, k, cc, cec))
        } else {
            assignment_below(s, cm, spans, k + 1, cc, cec, indent)
        }
    }
}

/// The operator `op` at offset `start` lines up with a neighbouring line:
/// the nearest code line above or below, or the nearest one with the same
/// indentation; for an operator ending in `=`, an aligned assignment above
/// in its group, or no misaligned one below.
pub open spec fn spec_is_aligned(s: Seq<u8>, cm: CodeMap, spans: Seq<(usize, usize)>, start: int, op: Seq<u8>) -> bool {
    let idx = crate::text::spec_line_col(s, start).0 - 1;
    let line = line_of(s, spans, idx);
    let cc = spec_bytes_to_char_col(line, start - crate::text::line_start(s, start));
    let cec = cc + op.len();
    let indent = if blank_run_end(line, 0) < line.len() { blank_run_end(line, 0) } else { 0 };
    standalone_aligned(s, cm, spans, idx, cc, cec, op, None) || standalone_aligned(s, cm, spans, idx, cc, cec, op, Some(indent))
        || (op.len() > 0 && op.last() == EQUALS && (assignment_above(s, cm, spans, idx - 1, cc, cec, indent)
        || assignment_below(s, cm, spans, idx + 1, cc, cec, indent) != Some(false)))
}

fn standalone_aligned_exec(
    source: &[u8],
    cm: &CodeMap,
    spans: &Vec<(usize, usize)>,
    idx: usize,
    cc: usize,
    cec: usize,
    op: &[u8],
    filter: Option<usize>,
) -> (r: bool)
    requires
        spans_fit(source@, spans@),
        idx < spans@.len(),
    ensures
        r == standalone_aligned(source@, *cm, spans@, idx as int, cc as int, cec as int, op@, match filter {
            Some(i) => Some(i as int),
            None => None,
        }),
{
    match find_nearest_nonblank(source, spans, idx, true, filter) {
        Some(k) => {
            if candidate_aligned_exec(source, cm, spans, k, cc, cec, op) {
                return true;
            }
        },
        None => {},
    }
    match find_nearest_nonblank(source, spans, idx, false, filter) {
        Some(k) => candidate_aligned_exec(source, cm, spans, k, cc, cec, op),
        None => false,
    }
}

fn assignment_above_exec(source: &[u8], cm: &CodeMap, spans: &Vec<(usize, usize)>, idx: usize, cc: usize, cec: usize, indent: usize) -> (r: bool)
    requires
        spans_fit(source@, spans@),
        idx < spans@.len(),
    ensures
        r == assignment_above(source@, *cm, spans@, idx - 1, cc as int, cec as int, indent as int),
{
    let mut k = idx;
    while k > 0
        invariant
            spans_fit(source@, spans@),
            k <= idx < spans@.len(),
            assignment_above(source@, *cm, spans@, k - 1, cc as int, cec as int, indent as int) == assignment_above(
                source@,
                *cm,
                spans@,
                idx - 1,
                cc as int,
                cec as int,
                indent as int,
            ),
        decreases k,
    {
        let j = k - 1;
        let (line, _) = line_slice(source, spans, j);
        if !is_blank_or_comment(line) {
            let ind = line_indentation(line);
            if ind < indent {
                return false;
            }
            if ind == indent && aligned_assignment_exec(source, cm, spans, j, cc, cec) {
                return true;
            }
        }
        k = j;
    }
    false
}

#[verifier::rlimit(40)]
fn assignment_below_exec(source: &[u8], cm: &CodeMap, spans: &Vec<(usize, usize)>, idx: usize, cc: usize, cec: usize, indent: usize) -> (r: Option<bool>)
    requires
        spans_fit(source@, spans@),
        idx < spans@.len(),
    ensures
        r == assignment_below(source@, *cm, spans@, idx + 1, cc as int, cec as int, indent as int),
{
    let n = spans.len();
    let mut k = idx + 1;
    while k < n
        invariant
            spans_fit(source@, spans@),
            idx < k <= spans@.len(),
            n == spans@.len(),
            assignment_below(source@, *cm, spans@, k as int, cc as int, cec as int, indent as int) == assignment_below(
                source@,
                *cm,
                spans@,
                idx + 1,
                cc as int,
                cec as int,
                indent as int,
            ),
        decreases spans@.len() - k,
    {
        let (line, _) = line_slice(source, spans, k);
        if !is_blank_or_comment(line) {
            let ind = line_indentation(line);
            if ind < indent {
                return None;
            }
            if ind == indent && has_assignment_exec(source, cm, spans, k) {
                return Some(aligned_assignment_exec(source, cm, spans, k, cc, cec));
            }
        }
        k = k + 1;
    }
    None
}

/// Whether the operator `op` at offset `start` lines up with a
/// neighbouring line.
pub fn is_aligned(source: &[u8], cm: &CodeMap, spans: &Vec<(usize, usize)>, start: usize, op: &[u8]) -> (r: bool)
    requires
        spans_fit(source@, spans@),
        start + op@.len() <= source@.len(),
    ensures
        r == spec_is_aligned(source@, *cm, spans@, start as int, op@),
{
    let (line_no, _) = crate::text::offset_to_line_col(source, start);
    proof {
        crate::text::lemma_line_in_split(source@, spans@, start as int);
    }
    let idx = line_no - 1;
    let (line, _) = line_slice(source, spans, idx);
    let ls = crate::text::line_start_of(source, start);
    let cc = bytes_to_char_col(line, start - ls);
    proof {
        lemma_chars_before_bound(line@, 0, if start - ls < line@.len() { (start - ls) as int } else { line@.len() as int });
    }
    let cec = cc + op.len();
    let t = line_indentation(line);
    let indent = if t < line.len() { t } else { 0 };
    if standalone_aligned_exec(source, cm, spans, idx, cc, cec, op, None) {
        return true;
    }
    if standalone_aligned_exec(source, cm, spans, idx, cc, cec, op, Some(indent)) {
        return true;
    }
    if op.len() > 0 && op[op.len() - 1] == EQUALS {
        if assignment_above_exec(source, cm, spans, idx, cc, cec, indent) {
            return true;
        }
        return assignment_below_exec(source, cm, spans, idx, cc, cec, indent) != Some(false);
    }
    false
}

/// The suffix `r` of a rational literal.
pub const RATIONAL_SUFFIX: u8 = 0x72;

pub open spec fn blank_at(s: Seq<u8>, i: int) -> bool {
    0 <= i < s.len() && spec_is_blank(s[i])
}

pub open spec fn break_or_end(s: Seq<u8>, i: int) -> bool {
    i >= s.len() || s[i] == NEWLINE || s[i] == CARRIAGE_RETURN
}

/// Two spaces start at `i`.
pub open spec fn two_spaces(s: Seq<u8>, i: int) -> bool {
    0 <= i && i + 1 < s.len() && s[i] == SPACE && s[i + 1] == SPACE
}

/// The start of the run of spaces that ends at `i`.
pub open spec fn spaces_back(s: Seq<u8>, i: int) -> int
    decreases i,
{
    if i > 0 && s[i - 1] == SPACE {
        spaces_back(s, i - 1)
    } else {
        i
    }
}

/// The end of the run of spaces that starts at `i`.
pub open spec fn spaces_fwd(s: Seq<u8>, i: int) -> int
    decreases s.len() - i,
{
    if 0 <= i < s.len() && s[i] == SPACE {
        spaces_fwd(s, i + 1)
    } else {
        i
    }
}

/// The end of the run of ASCII digits that starts at `i`.
pub open spec fn digits_fwd(s: Seq<u8>, i: int) -> int
    decreases s.len() - i,
{
    if 0 <= i < s.len() && spec_is_ascii_digit(s[i]) {
        digits_fwd(s, i + 1)
    } else {
        i
    }
}

/// After the `/` ending at `end` come spaces and then digits followed by
/// `r`: the divisor is a rational literal.
pub open spec fn rational_after(s: Seq<u8>, end: int) -> bool {
    let i = spaces_fwd(s, end);
    let j = digits_fwd(s, i);
    j > i && j < s.len() && s[j] == RATIONAL_SUFFIX
}

pub open spec fn op_text(s: Seq<u8>, start: int, end: int) -> Seq<u8> {
    utf8_or(s.subrange(start, end), "??".spec_bytes())
}

pub open spec fn opt_edit(c: bool, e: Edit) -> Seq<Edit> {
    if c {
        seq![e]
    } else {
        seq![]
    }
}

/// Spaced: a space or tab before, and a space, tab or line break after.
pub open spec fn spaced(s: Seq<u8>, start: int, end: int) -> bool {
    blank_at(s, start - 1) && (blank_at(s, end) || break_or_end(s, end))
}

/// The report for more than one space around an operator, unless the
/// spaces before it are indentation, it is aligned (where `allow`), or the
/// spaces after it lead to a comment.
pub open spec fn extra_space_report(s: Seq<u8>, cm: CodeMap, spans: Seq<(usize, usize)>, start: int, end: int, allow: bool) -> Option<Report> {
    let mb = two_spaces(s, start - 2);
    let ma = two_spaces(s, end);
    let ls = line_start(s, start);
    if !mb && !ma {
        None
    } else if mb && blank_run_end(s.subrange(ls, start), 0) == start - ls {
        None
    } else if allow && spec_is_aligned(s, cm, spans, start, s.subrange(start, end)) {
        None
    } else if ma && spaces_fwd(s, end) < s.len() && s[spaces_fwd(s, end)] == HASH {
        None
    } else {
        Some(
            report(
                start,
                "Operator `".spec_bytes() + op_text(s, start, end) + "` should be surrounded by a single space.".spec_bytes(),
                opt_edit(mb, edit(spaces_back(s, start), start, " ".spec_bytes())) + opt_edit(
                    ma,
                    edit(end, spaces_fwd(s, end), " ".spec_bytes()),
                ),
            ),
        )
    }
}

/// The report for an operator that lacks a space on a side.
pub open spec fn missing_report(s: Seq<u8>, start: int, end: int) -> Report {
    report(
        start,
        "Surrounding space missing for operator `".spec_bytes() + op_text(s, start, end) + "`.".spec_bytes(),
        opt_edit(!blank_at(s, start - 1), edit(start, start, " ".spec_bytes())) + opt_edit(
            !blank_at(s, end) && !break_or_end(s, end),
            edit(end, end, " ".spec_bytes()),
        ),
    )
}

/// An operator that wants one space on each side.
pub open spec fn spacing_report(s: Seq<u8>, cm: CodeMap, spans: Seq<(usize, usize)>, start: int, end: int, allow: bool) -> Option<Report> {
    if spaced(s, start, end) {
        extra_space_report(s, cm, spans, start, end, allow)
    } else {
        Some(missing_report(s, start, end))
    }
}

/// An operator that wants no space around it.
pub open spec fn no_space_report(s: Seq<u8>, start: int, end: int) -> Option<Report> {
    let sb = start > 0 && s[start - 1] == SPACE;
    let sa = end < s.len() && s[end] == SPACE;
    if sb || sa {
        Some(
            report(
                start,
                "Space around operator `".spec_bytes() + op_text(s, start, end) + "` detected.".spec_bytes(),
                opt_edit(sb, edit(spaces_back(s, start), start, seq![])) + opt_edit(sa, edit(end, spaces_fwd(s, end), seq![])),
            ),
        )
    } else {
        None
    }
}

fn spaces_back_exec(s: &[u8], i: usize) -> (r: usize)
    requires
        i <= s@.len(),
    ensures
        r == spaces_back(s@, i as int),
        r <= i,
{
    let mut j = i;
    while j > 0 && s[j - 1] == SPACE
        invariant
            j <= i <= s@.len(),
            spaces_back(s@, j as int) == spaces_back(s@, i as int),
        decreases j,
    {
        j = j - 1;
    }
    j
}

fn spaces_fwd_exec(s: &[u8], i: usize) -> (r: usize)
    requires
        i <= s@.len(),
    ensures
        r == spaces_fwd(s@, i as int),
        i <= r <= s@.len(),
{
    let mut j = i;
    while j < s.len() && s[j] == SPACE
        invariant
            i <= j <= s@.len(),
            spaces_fwd(s@, j as int) == spaces_fwd(s@, i as int),
        decreases s@.len() - j,
    {
        j = j + 1;
    }
    j
}

fn digits_fwd_exec(s: &[u8], i: usize) -> (r: usize)
    requires
        i <= s@.len(),
    ensures
        r == digits_fwd(s@, i as int),
        i <= r <= s@.len(),
{
    let mut j = i;
    while j < s.len() && crate::text::is_ascii_digit(s[j])
        invariant
            i <= j <= s@.len(),
            digits_fwd(s@, j as int) == digits_fwd(s@, i as int),
        decreases s@.len() - j,
    {
        j = j + 1;
    }
    j
}

fn rational_after_exec(s: &[u8], end: usize) -> (r: bool)
    requires
        end <= s@.len(),
    ensures
        r == rational_after(s@, end as int),
{
    let i = spaces_fwd_exec(s, end);
    let j = digits_fwd_exec(s, i);
    j > i && j < s.len() && s[j] == RATIONAL_SUFFIX
}

/// `prefix`, the operator text (or `??`), and `suffix`.
fn op_message(prefix: &str, op: &[u8], suffix: &str) -> (r: Vec<u8>)
    ensures
        r@ == prefix.spec_bytes() + utf8_or(op@, "??".spec_bytes()) + suffix.spec_bytes(),
{
    let mut m = message(prefix);
    if utf8_valid(op) {
        append(&mut m, op);
    } else {
        append(&mut m, "??".as_bytes());
    }
    append(&mut m, suffix.as_bytes());
    m
}

/// The edits `e1` where `c1` holds and `e2` where `c2` holds.
pub(crate) fn two_edits(c1: bool, e1: Correction, c2: bool, e2: Correction) -> (r: Vec<Correction>)
    ensures
        edits_of(r@) == opt_edit(c1, edit_of(e1)) + opt_edit(c2, edit_of(e2)),
{
    let ghost a = edit_of(e1);
    let ghost b = edit_of(e2);
    let mut v: Vec<Correction> = Vec::new();
    if c1 {
        v.push(e1);
    }
    if c2 {
        v.push(e2);
    }
    assert(edits_of(v@) =~= opt_edit(c1, a) + opt_edit(c2, b));
    v
}

/// A report's message and edits matches the model's report at `at`.
pub open spec fn matches_report(r: Option<(Vec<u8>, Vec<Correction>)>, at: int, m: Option<Report>) -> bool {
    match m {
        Some(x) => r matches Some(p) && x == report(at, p.0@, edits_of(p.1@)),
        None => r is None,
    }
}

fn extra_space_exec(
    source: &[u8],
    cm: &CodeMap,
    spans: &Vec<(usize, usize)>,
    start: usize,
    end: usize,
    allow: bool,
) -> (r: Option<(Vec<u8>, Vec<Correction>)>)
    requires
        spans_fit(source@, spans@),
        start <= end <= source@.len(),
    ensures
        matches_report(r, start as int, extra_space_report(source@, *cm, spans@, start as int, end as int, allow)),
{
    let mb = start >= 2 && source[start - 1] == SPACE && source[start - 2] == SPACE;
    let ma = end + 1 < source.len() && source[end] == SPACE && source[end + 1] == SPACE;
    if !mb && !ma {
        return None;
    }
    let ls = line_start_of(source, start);
    if mb && skip_blanks(&source[ls..start], 0) == start - ls {
        return None;
    }
    if allow && is_aligned(source, cm, spans, start, &source[start..end]) {
        return None;
    }
    let p = spaces_fwd_exec(source, end);
    if ma && p < source.len() && source[p] == HASH {
        return None;
    }
    let m = op_message("Operator `", &source[start..end], "` should be surrounded by a single space.");
    let ws = if mb { spaces_back_exec(source, start) } else { start };
    let edits = two_edits(mb, correction(ws, start, " "), ma, correction(end, p, " "));
    Some((m, edits))
}

fn missing_exec(source: &[u8], start: usize, end: usize) -> (r: (Vec<u8>, Vec<Correction>))
    requires
        start <= end <= source@.len(),
    ensures
        missing_report(source@, start as int, end as int) == report(start as int, r.0@, edits_of(r.1@)),
{
    let sb = start > 0 && is_blank(source[start - 1]);
    let sa = end < source.len() && is_blank(source[end]);
    let nl = end >= source.len() || source[end] == NEWLINE || source[end] == CARRIAGE_RETURN;
    let m = op_message("Surrounding space missing for operator `", &source[start..end], "`.");
    let edits = two_edits(!sb, correction(start, start, " "), !sa && !nl, correction(end, end, " "));
    (m, edits)
}

fn spacing_exec(
    source: &[u8],
    cm: &CodeMap,
    spans: &Vec<(usize, usize)>,
    start: usize,
    end: usize,
    allow: bool,
) -> (r: Option<(Vec<u8>, Vec<Correction>)>)
    requires
        spans_fit(source@, spans@),
        start <= end <= source@.len(),
    ensures
        matches_report(r, start as int, spacing_report(source@, *cm, spans@, start as int, end as int, allow)),
{
    let sb = start > 0 && is_blank(source[start - 1]);
    let sa = end < source.len() && is_blank(source[end]);
    let nl = end >= source.len() || source[end] == NEWLINE || source[end] == CARRIAGE_RETURN;
    if sb && (sa || nl) {
        extra_space_exec(source, cm, spans, start, end, allow)
    } else {
        Some(missing_exec(source, start, end))
    }
}

fn no_space_exec(source: &[u8], start: usize, end: usize) -> (r: Option<(Vec<u8>, Vec<Correction>)>)
    requires
        start <= end <= source@.len(),
    ensures
        matches_report(r, start as int, no_space_report(source@, start as int, end as int)),
{
    let sb = start > 0 && source[start - 1] == SPACE;
    let sa = end < source.len() && source[end] == SPACE;
    if !sb && !sa {
        return None;
    }
    let m = op_message("Space around operator `", &source[start..end], "` detected.");
    let ws = if sb { spaces_back_exec(source, start) } else { start };
    let we = spaces_fwd_exec(source, end);
    let edits = two_edits(sb, correction(ws, start, ""), sa, correction(end, we, ""));
    proof {
        reveal_strlit("");
        assert("".spec_bytes() =~= Seq::<u8>::empty());
    }
    Some((m, edits))
}

/// An operator that the parse tree shows, spanning `[start, end)`. `call`
/// marks the operator of a binary operator call; the others are `&&`,
/// `||`, assignment operators, `<` of a class, `<<` of a singleton class,
/// `=>` of a rescue or a pattern, and `|` of a pattern.
#[derive(Clone, Copy)]
pub struct OperatorSite {
    pub start: usize,
    pub end: usize,
    pub call: bool,
}

/// The configuration: `AllowForAlignment`, and whether the styles for the
/// exponent operator and for rational literals are `no_space`.
#[derive(Clone, Copy)]
pub struct OperatorSettings {
    pub allow_for_alignment: bool,
    pub exponent_no_space: bool,
    pub rational_no_space: bool,
}

pub open spec fn sites_in(len: int, sites: Seq<OperatorSite>) -> bool {
    forall|k: int| 0 <= k < sites.len() ==> #[trigger] sites[k].start <= sites[k].end <= len
}

/// The operator wants no space around it: `**` in the `no_space` exponent
/// style, or `/` before a rational literal in the `no_space` rational style.
pub open spec fn wants_no_space(s: Seq<u8>, start: int, end: int, st: OperatorSettings) -> bool {
    let op = s.subrange(start, end);
    (op == "**".spec_bytes() && st.exponent_no_space) || (op == "/".spec_bytes() && st.rational_no_space && rational_after(
        s,
        end,
    ))
}

/// The report for one operator of the parse tree, if any.
pub open spec fn site_report(s: Seq<u8>, cm: CodeMap, spans: Seq<(usize, usize)>, site: OperatorSite, st: OperatorSettings) -> Option<Report> {
    if wants_no_space(s, site.start as int, site.end as int, st) {
        if site.call {
            no_space_report(s, site.start as int, site.end as int)
        } else {
            None
        }
    } else {
        spacing_report(s, cm, spans, site.start as int, site.end as int, st.allow_for_alignment)
    }
}

pub open spec fn opt_report(r: Option<Report>) -> Seq<Report> {
    match r {
        Some(x) => seq![x],
        None => seq![],
    }
}

/// The reports for the first `n` operators of the parse tree.
pub open spec fn site_reports(s: Seq<u8>, cm: CodeMap, spans: Seq<(usize, usize)>, sites: Seq<OperatorSite>, st: OperatorSettings, n: int) -> Seq<Report>
    decreases n,
{
    if n <= 0 {
        seq![]
    } else {
        site_reports(s, cm, spans, sites, st, n - 1) + opt_report(site_report(s, cm, spans, sites[n - 1], st))
    }
}

/// Where the first `n` operators of the parse tree were reported.
pub open spec fn site_marks(s: Seq<u8>, cm: CodeMap, spans: Seq<(usize, usize)>, sites: Seq<OperatorSite>, st: OperatorSettings, n: int) -> Seq<usize>
    decreases n,
{
    if n <= 0 {
        seq![]
    } else {
        site_marks(s, cm, spans, sites, st, n - 1) + if site_report(s, cm, spans, sites[n - 1], st) is Some {
            seq![sites[n - 1].start]
        } else {
            seq![]
        }
    }
}

pub open spec fn in_ranges(ranges: Seq<(usize, usize)>, i: int) -> bool {
    exists|k: int| #![trigger ranges[k]] 0 <= k < ranges.len() && ranges[k].0 <= i < ranges[k].1
}

/// A byte that makes a following `=` part of another operator.
pub open spec fn is_assign_prefix(b: u8) -> bool {
    b == BANG || b == LT || b == GT || b == EQUALS || b == TILDE || is_compound_prefix(b)
}

/// `==`, `!=` or `=>` starts at `i`, its second byte in code.
pub open spec fn pair_at(s: Seq<u8>, cm: CodeMap, i: int) -> bool {
    i + 1 < s.len() && cm.spec_is_code(i + 1) && ((s[i] == EQUALS && s[i + 1] == EQUALS) || (s[i] == BANG && s[i + 1]
        == EQUALS) || (s[i] == EQUALS && s[i + 1] == GT))
}

/// The report of the source scan for an operator at `[start, end)`.
pub open spec fn scanner_report(s: Seq<u8>, cm: CodeMap, spans: Seq<(usize, usize)>, start: int, end: int, allow: bool) -> Option<Report> {
    if spaced(s, start, end) {
        if allow {
            extra_space_report(s, cm, spans, start, end, true)
        } else {
            None
        }
    } else {
        Some(missing_report(s, start, end))
    }
}

/// Where the source scan goes on after offset `i`.
pub open spec fn scan_next(s: Seq<u8>, cm: CodeMap, marks: Seq<usize>, i: int) -> int {
    if !cm.spec_is_code(i) {
        i + 1
    } else if pair_at(s, cm, i) {
        if marks.contains(i as usize) {
            i + 2
        } else if s[i] == EQUALS && s[i + 1] == EQUALS && i + 2 < s.len() && s[i + 2] == EQUALS {
            i + 3
        } else {
            i + 2
        }
    } else if s[i] == EQUALS {
        if marks.contains(i as usize) {
            i + 1
        } else if i + 1 < s.len() && (s[i + 1] == TILDE || s[i + 1] == GT || s[i + 1] == EQUALS) {
            i + 2
        } else {
            i + 1
        }
    } else {
        i + 1
    }
}

/// What the source scan reports at offset `i`: `==`, `!=` and `=>` in
/// code, and a lone `=` in code, unless the parse tree reported it, it is
/// part of `===` or `<=>`, of a method name, of a call through `.`, or of a
/// parameter default.
pub open spec fn scan_report(
    s: Seq<u8>,
    cm: CodeMap,
    spans: Seq<(usize, usize)>,
    marks: Seq<usize>,
    defaults: Seq<usize>,
    ranges: Seq<(usize, usize)>,
    allow: bool,
    i: int,
) -> Option<Report> {
    if !cm.spec_is_code(i) {
        None
    } else if pair_at(s, cm, i) {
        if marks.contains(i as usize) || (s[i] == EQUALS && s[i + 1] == EQUALS && i + 2 < s.len() && s[i + 2] == EQUALS)
            || (s[i] == EQUALS && s[i + 1] == GT && i > 0 && s[i - 1] == LT) || in_ranges(ranges, i) || (i > 0 && s[i
            - 1] == DOT) {
            None
        } else {
            scanner_report(s, cm, spans, i, i + 2, allow)
        }
    } else if s[i] == EQUALS {
        if marks.contains(i as usize) || (i + 1 < s.len() && (s[i + 1] == TILDE || s[i + 1] == GT || s[i + 1] == EQUALS))
            || (i > 0 && is_assign_prefix(s[i - 1])) || defaults.contains(i as usize) || in_ranges(ranges, i) {
            None
        } else {
            scanner_report(s, cm, spans, i, i + 1, allow)
        }
    } else {
        None
    }
}

/// The reports of the source scan from offset `i` on.
pub open spec fn scan(
    s: Seq<u8>,
    cm: CodeMap,
    spans: Seq<(usize, usize)>,
    marks: Seq<usize>,
    defaults: Seq<usize>,
    ranges: Seq<(usize, usize)>,
    allow: bool,
    i: int,
) -> Seq<Report>
    decreases s.len() - i,
{
    if i < 0 || i >= s.len() {
        seq![]
    } else {
        opt_report(scan_report(s, cm, spans, marks, defaults, ranges, allow, i)) + scan(
            s,
            cm,
            spans,
            marks,
            defaults,
            ranges,
            allow,
            scan_next(s, cm, marks, i),
        )
    }
}

/// Everything the cop reports: the operators of the parse tree in order,
/// then what the source scan finds.
pub open spec fn operator_reports(
    s: Seq<u8>,
    cm: CodeMap,
    spans: Seq<(usize, usize)>,
    sites: Seq<OperatorSite>,
    defaults: Seq<usize>,
    ranges: Seq<(usize, usize)>,
    st: OperatorSettings,
) -> Seq<Report> {
    site_reports(s, cm, spans, sites, st, sites.len() as int) + scan(
        s,
        cm,
        spans,
        site_marks(s, cm, spans, sites, st, sites.len() as int),
        defaults,
        ranges,
        st.allow_for_alignment,
        0,
    )
}

fn contains_offset(v: &Vec<usize>, x: usize) -> (r: bool)
    ensures
        r == v@.contains(x),
{
    let mut k: usize = 0;
    while k < v.len()
        invariant
            k <= v@.len(),
            forall|j: int| 0 <= j < k ==> v@[j] != x,
        decreases v@.len() - k,
    {
        if v[k] == x {
            assert(v@[k as int] == x);
            return true;
        }
        k = k + 1;
    }
    false
}

fn in_ranges_exec(ranges: &Vec<(usize, usize)>, i: usize) -> (r: bool)
    ensures
        r == in_ranges(ranges@, i as int),
{
    let mut k: usize = 0;
    while k < ranges.len()
        invariant
            k <= ranges@.len(),
            forall|j: int| 0 <= j < k ==> !(#[trigger] ranges@[j].0 <= i < ranges@[j].1),
        decreases ranges@.len() - k,
    {
        let (a, b) = ranges[k];
        if a <= i && i < b {
            assert(ranges@[k as int].0 <= i < ranges@[k as int].1);
            return true;
        }
        k = k + 1;
    }
    false
}

fn site_exec(
    source: &[u8],
    cm: &CodeMap,
    spans: &Vec<(usize, usize)>,
    site: OperatorSite,
    st: OperatorSettings,
) -> (r: Option<(Vec<u8>, Vec<Correction>)>)
    requires
        spans_fit(source@, spans@),
        site.start <= site.end <= source@.len(),
    ensures
        matches_report(r, site.start as int, site_report(source@, *cm, spans@, site, st)),
{
    let op = &source[site.start..site.end];
    proof {
        reveal_strlit("**");
        reveal_strlit("/");
    }
    let no_space = (crate::text::bytes_eq(op, "**".as_bytes()) && st.exponent_no_space) || (crate::text::bytes_eq(
        op,
        "/".as_bytes(),
    ) && st.rational_no_space && rational_after_exec(source, site.end));
    if no_space {
        if site.call {
            no_space_exec(source, site.start, site.end)
        } else {
            None
        }
    } else {
        spacing_exec(source, cm, spans, site.start, site.end, st.allow_for_alignment)
    }
}

fn scanner_exec(
    source: &[u8],
    cm: &CodeMap,
    spans: &Vec<(usize, usize)>,
    start: usize,
    end: usize,
    allow: bool,
) -> (r: Option<(Vec<u8>, Vec<Correction>)>)
    requires
        spans_fit(source@, spans@),
        start <= end <= source@.len(),
    ensures
        matches_report(r, start as int, scanner_report(source@, *cm, spans@, start as int, end as int, allow)),
{
    let sb = start > 0 && is_blank(source[start - 1]);
    let sa = end < source.len() && is_blank(source[end]);
    let nl = end >= source.len() || source[end] == NEWLINE || source[end] == CARRIAGE_RETURN;
    if sb && (sa || nl) {
        if allow {
            extra_space_exec(source, cm, spans, start, end, true)
        } else {
            None
        }
    } else {
        Some(missing_exec(source, start, end))
    }
}

fn is_assign_prefix_exec(b: u8) -> (r: bool)
    ensures
        r == is_assign_prefix(b),
{
    b == BANG || b == LT || b == GT || b == EQUALS || b == TILDE || b == PLUS || b == MINUS || b == STAR || b == SLASH
        || b == PERCENT || b == CARET || b == PIPE || b == AMP
}

fn scan_step_exec(
    source: &[u8],
    cm: &CodeMap,
    spans: &Vec<(usize, usize)>,
    marks: &Vec<usize>,
    defaults: &Vec<usize>,
    ranges: &Vec<(usize, usize)>,
    allow: bool,
    i: usize,
) -> (r: (Option<(Vec<u8>, Vec<Correction>)>, usize))
    requires
        spans_fit(source@, spans@),
        i < source@.len(),
    ensures
        matches_report(r.0, i as int, scan_report(source@, *cm, spans@, marks@, defaults@, ranges@, allow, i as int)),
        r.1 == scan_next(source@, *cm, marks@, i as int),
        i < r.1 <= source@.len(),
{
    let len = source.len();
    if !cm.is_code(i) {
        return (None, i + 1);
    }
    if i + 1 < len && cm.is_code(i + 1) && ((source[i] == EQUALS && source[i + 1] == EQUALS) || (source[i] == BANG
        && source[i + 1] == EQUALS) || (source[i] == EQUALS && source[i + 1] == GT)) {
        if contains_offset(marks, i) {
            return (None, i + 2);
        }
        if source[i] == EQUALS && source[i + 1] == EQUALS && i + 2 < len && source[i + 2] == EQUALS {
            return (None, i + 3);
        }
        if source[i] == EQUALS && source[i + 1] == GT && i > 0 && source[i - 1] == LT {
            return (None, i + 2);
        }
        if in_ranges_exec(ranges, i) || (i > 0 && source[i - 1] == DOT) {
            return (None, i + 2);
        }
        return (scanner_exec(source, cm, spans, i, i + 2, allow), i + 2);
    }
    if source[i] == EQUALS {
        if contains_offset(marks, i) {
            return (None, i + 1);
        }
        if i + 1 < len && (source[i + 1] == TILDE || source[i + 1] == GT || source[i + 1] == EQUALS) {
            return (None, i + 2);
        }
        if i > 0 && is_assign_prefix_exec(source[i - 1]) {
            return (None, i + 1);
        }
        if contains_offset(defaults, i) || in_ranges_exec(ranges, i) {
            return (None, i + 1);
        }
        return (scanner_exec(source, cm, spans, i, i + 1, allow), i + 1);
    }
    (None, i + 1)
}

pub open spec fn operator_settings(allow: bool, exponent_style: Seq<u8>, rational_style: Seq<u8>) -> OperatorSettings {
    OperatorSettings {
        allow_for_alignment: allow,
        exponent_no_space: exponent_style == "no_space".spec_bytes(),
        rational_no_space: rational_style == "no_space".spec_bytes(),
    }
}

impl SpaceAroundOperators {
    pub fn name(&self) -> (r: &'static str)
        ensures
            r@ == "Layout/SpaceAroundOperators"@,
    {
        "Layout/SpaceAroundOperators"
    }

    pub fn supports_autocorrect(&self) -> (r: bool)
        ensures
            r,
    {
        true
    }

    /// Checks the operators of a source. `sites` are the operators that the
    /// parse tree shows, in the order of a walk of the tree;
    /// `default_param_offsets` are the `=` of parameter defaults and
    /// `def_name_ranges` the names of methods defined with operator
    /// characters. `exponent_style` and `rational_style` are the configured
    /// `EnforcedStyleForExponentOperator` and
    /// `EnforcedStyleForRationalLiterals`.
    pub fn check_source(
        &self,
        source: &[u8],
        code_map: &CodeMap,
        sites: &Vec<OperatorSite>,
        default_param_offsets: &Vec<usize>,
        def_name_ranges: &Vec<(usize, usize)>,
        allow_for_alignment: bool,
        exponent_style: &[u8],
        rational_style: &[u8],
        autocorrect: bool,
    ) -> (r: (Vec<Diagnostic>, Vec<Correction>))
        requires
            source@.len() + 8 <= usize::MAX,
            sites_in(source@.len() as int, sites@),
        ensures
            forall|spans: Seq<(usize, usize)>|
                is_line_split(source@, spans) ==> reports_all(
                    source@,
                    operator_reports(
                        source@,
                        *code_map,
                        spans,
                        sites@,
                        default_param_offsets@,
                        def_name_ranges@,
                        operator_settings(allow_for_alignment, exponent_style@, rational_style@),
                    ),
                    autocorrect,
                    r.0@,
                    r.1@,
                ),
    {
        let spans = line_spans(source);
        proof {
            assert forall|sp: Seq<(usize, usize)>| is_line_split(source@, sp) implies sp == spans@ by {
                crate::text::lemma_line_split_unique(source@, sp, spans@);
            }
            reveal_strlit("no_space");
        }
        let st = OperatorSettings {
            allow_for_alignment,
            exponent_no_space: crate::text::bytes_eq(exponent_style, "no_space".as_bytes()),
            rational_no_space: crate::text::bytes_eq(rational_style, "no_space".as_bytes()),
        };
        let ghost s = source@;
        let ghost cm = *code_map;
        let mut diags: Vec<Diagnostic> = Vec::new();
        let mut corrections: Vec<Correction> = Vec::new();
        let mut marks: Vec<usize> = Vec::new();
        proof {
            lemma_reports_none(s, autocorrect);
        }
        let mut k: usize = 0;
        while k < sites.len()
            invariant
                k <= sites@.len(),
                s == source@,
                cm == *code_map,
                spans_fit(s, spans@),
                sites_in(s.len() as int, sites@),
                reports_all(s, site_reports(s, cm, spans@, sites@, st, k as int), autocorrect, diags@, corrections@),
                marks@ == site_marks(s, cm, spans@, sites@, st, k as int),
            decreases sites@.len() - k,
        {
            let site = sites[k];
            assert(site.start <= site.end <= s.len()) by {
                assert(sites@[k as int] == site);
            }
            let ghost prev = site_reports(s, cm, spans@, sites@, st, k as int);
            match site_exec(source, code_map, &spans, site, st) {
                Some((m, es)) => {
                    let ghost x = report(site.start as int, m@, edits_of(es@));
                    push_report(source, &mut diags, &mut corrections, autocorrect, site.start, m, es, Ghost(prev));
                    marks.push(site.start);
                    assert(prev.push(x) =~= prev + seq![x]);
                },
                None => {
                    assert(prev + seq![] =~= prev);
                },
            }
            k = k + 1;
        }
        let ghost base = site_reports(s, cm, spans@, sites@, st, sites@.len() as int);
        let ghost whole = scan(s, cm, spans@, marks@, default_param_offsets@, def_name_ranges@, allow_for_alignment, 0);
        let ghost mut acc: Seq<Report> = seq![];
        assert(base + acc =~= base);
        let mut i: usize = 0;
        while i < source.len()
            invariant
                i <= s.len(),
                s == source@,
                cm == *code_map,
                spans_fit(s, spans@),
                st.allow_for_alignment == allow_for_alignment,
                reports_all(s, base + acc, autocorrect, diags@, corrections@),
                acc + scan(s, cm, spans@, marks@, default_param_offsets@, def_name_ranges@, allow_for_alignment, i as int)
                    == whole,
            decreases s.len() - i,
        {
            let ghost rest = scan(s, cm, spans@, marks@, default_param_offsets@, def_name_ranges@, allow_for_alignment, i as int);
            let (rep, next) = scan_step_exec(
                source,
                code_map,
                &spans,
                &marks,
                default_param_offsets,
                def_name_ranges,
                allow_for_alignment,
                i,
            );
            let ghost one = opt_report(scan_report(s, cm, spans@, marks@, default_param_offsets@, def_name_ranges@, allow_for_alignment, i as int));
            let ghost after = scan(s, cm, spans@, marks@, default_param_offsets@, def_name_ranges@, allow_for_alignment, next as int);
            assert(rest == one + after);
            match rep {
                Some((m, es)) => {
                    push_report(source, &mut diags, &mut corrections, autocorrect, i, m, es, Ghost(base + acc));
                    proof {
                        assert((base + acc).push(one[0]) =~= base + (acc + one));
                        assert((acc + one) + after =~= acc + rest);
                        acc = acc + one;
                    }
                },
                None => {
                    proof {
                        assert(one =~= seq![]);
                        assert((acc + one) + after =~= acc + rest);
                        assert(acc + one =~= acc);
                        acc = acc + one;
                    }
                },
            }
            i = next;
        }
        proof {
            assert(acc + seq![] =~= acc);
        }
        (diags, corrections)
    }
}


/// The operators of calls written infix: `+ - * / % ** & | ^ << >> < > <=
/// >= <=>`.
pub open spec fn is_binary_operator_name(name: Seq<u8>) -> bool {
    name == "+".spec_bytes() || name == "-".spec_bytes() || name == "*".spec_bytes() || name == "/".spec_bytes()
        || name == "%".spec_bytes() || name == "**".spec_bytes() || name == "&".spec_bytes() || name == "|".spec_bytes()
        || name == "^".spec_bytes() || name == "<<".spec_bytes() || name == ">>".spec_bytes() || name == "<".spec_bytes()
        || name == ">".spec_bytes() || name == "<=".spec_bytes() || name == ">=".spec_bytes() || name == "<=>".spec_bytes()
}

/// The match operators `=~`, `!~` and `===`.
pub open spec fn is_match_operator_name(name: Seq<u8>) -> bool {
    name == "=~".spec_bytes() || name == "!~".spec_bytes() || name == "===".spec_bytes()
}

/// A call is an operator site when it is written infix: it has a
/// receiver and no `.` or `&.`, its name is a binary or match operator,
/// and it has an argument unless it is a match operator.
pub open spec fn spec_is_operator_site(name: Seq<u8>, has_receiver: bool, has_call_operator: bool, has_arguments: bool) -> bool {
    &&& has_receiver
    &&& !has_call_operator
    &&& (is_binary_operator_name(name) || is_match_operator_name(name))
    &&& (has_arguments || is_match_operator_name(name))
}

/// Whether a method call is an operator that the cop checks.
pub fn is_operator_site(name: &[u8], has_receiver: bool, has_call_operator: bool, has_arguments: bool) -> (r: bool)
    ensures
        r == spec_is_operator_site(name@, has_receiver, has_call_operator, has_arguments),
{
    let binary = bytes_eq(name, "+".as_bytes()) || bytes_eq(name, "-".as_bytes()) || bytes_eq(name, "*".as_bytes())
        || bytes_eq(name, "/".as_bytes()) || bytes_eq(name, "%".as_bytes()) || bytes_eq(name, "**".as_bytes())
        || bytes_eq(name, "&".as_bytes()) || bytes_eq(name, "|".as_bytes()) || bytes_eq(name, "^".as_bytes())
        || bytes_eq(name, "<<".as_bytes()) || bytes_eq(name, ">>".as_bytes()) || bytes_eq(name, "<".as_bytes())
        || bytes_eq(name, ">".as_bytes()) || bytes_eq(name, "<=".as_bytes()) || bytes_eq(name, ">=".as_bytes())
        || bytes_eq(name, "<=>".as_bytes());
    let matching = bytes_eq(name, "=~".as_bytes()) || bytes_eq(name, "!~".as_bytes()) || bytes_eq(name, "===".as_bytes());
    has_receiver && !has_call_operator && (binary || matching) && (has_arguments || matching)
}

/// A byte that makes a method name an operator-like name.
pub open spec fn is_operator_character(b: u8) -> bool {
    b == EQUALS || b == BANG || b == GT || b == LT || b == PLUS || b == MINUS || b == STAR || b == SLASH || b == PERCENT
        || b == AMP || b == PIPE || b == CARET || b == TILDE
}

/// Whether a method name holds an operator character, such as `==` or
/// `name=`: the name of such a definition is no operator to check.
pub fn has_operator_character(name: &[u8]) -> (r: bool)
    ensures
        r == exists|i: int| 0 <= i < name@.len() && is_operator_character(#[trigger] name@[i]),
{
    let mut i: usize = 0;
    while i < name.len()
        invariant
            i <= name@.len(),
            forall|j: int| 0 <= j < i ==> !is_operator_character(#[trigger] name@[j]),
        decreases name@.len() - i,
    {
        let b = name[i];
        if b == EQUALS || b == BANG || b == GT || b == LT || b == PLUS || b == MINUS || b == STAR || b == SLASH
            || b == PERCENT || b == AMP || b == PIPE || b == CARET || b == TILDE {
            return true;
        }
        i = i + 1;
    }
    false
}


/// A method call is an operator site exactly when it is written infix
/// (a receiver, no `.` or `&.`) and either it is one of the binary
/// operators `+ - * / % ** & | ^ << >> < > <= >= <=>` with an argument, or
/// it is one of the match operators `=~ !~ ===`.
pub proof fn law_operator_sites(name: Seq<u8>, has_receiver: bool, has_call_operator: bool, has_arguments: bool)
    ensures
        spec_is_operator_site(name, has_receiver, has_call_operator, has_arguments) == (has_receiver
            && !has_call_operator && ((has_arguments && (name == "+".spec_bytes() || name == "-".spec_bytes() || name == "*".spec_bytes() || name == "/".spec_bytes() || name == "%".spec_bytes() || name == "**".spec_bytes() || name == "&".spec_bytes() || name == "|".spec_bytes() || name == "^".spec_bytes() || name == "<<".spec_bytes() || name == ">>".spec_bytes() || name == "<".spec_bytes() || name == ">".spec_bytes() || name == "<=".spec_bytes() || name == ">=".spec_bytes() || name == "<=>".spec_bytes())) || (name == "=~".spec_bytes() || name == "!~".spec_bytes() || name == "===".spec_bytes()))),
{
}


/// A method name is operator-like exactly when it holds one of the bytes
/// `= ! > < + - * / % & | ^ ~`.
pub proof fn law_operator_characters(b: u8)
    ensures
        is_operator_character(b) <==> (b == 0x3du8 || b == 0x21u8 || b == 0x3eu8 || b == 0x3cu8 || b == 0x2bu8 || b == 0x2du8 || b == 0x2au8 || b == 0x2fu8 || b == 0x25u8 || b == 0x26u8 || b == 0x7cu8 || b == 0x5eu8 || b == 0x7eu8),
{
}

} // verus!
