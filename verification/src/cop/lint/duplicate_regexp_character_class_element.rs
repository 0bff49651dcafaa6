//! Lint/DuplicateRegexpCharacterClassElement: an element that occurs
//! twice in one character class of a regexp, as `x` in `/[xyx]/`.
use vstd::prelude::*;
use vstd::string::StringSliceAdditionalSpecFns;
use crate::diagnostic::{message, reports_at, Diagnostic, Location};
use crate::text::{offset_to_line_col, spec_line_col};

verus! {

pub struct DuplicateRegexpCharacterClassElement;

pub open spec fn is_hex_char(c: char) -> bool {
    ('0' <= c && c <= '9') || ('a' <= c && c <= 'f') || ('A' <= c && c <= 'F')
}

pub open spec fn is_octal_char(c: char) -> bool {
    '0' <= c && c <= '7'
}

/// The hex digits that start at `i`, at most `max` of them.
pub open spec fn hex_run(c: Seq<char>, i: int, max: int) -> nat
    decreases (if max > 0 { max } else { 0 }),
{
    if max <= 0 || i < 0 || i >= c.len() || !is_hex_char(c[i]) {
        0
    } else {
        1 + hex_run(c, i + 1, max - 1)
    }
}

/// The octal digits that start at `i`, at most `max` of them.
pub open spec fn octal_run(c: Seq<char>, i: int, max: int) -> nat
    decreases (if max > 0 { max } else { 0 }),
{
    if max <= 0 || i < 0 || i >= c.len() || !is_octal_char(c[i]) {
        0
    } else {
        1 + octal_run(c, i + 1, max - 1)
    }
}

/// How far from `p` the first `}` at or after `p` is, or the end.
pub open spec fn brace_distance(c: Seq<char>, p: int) -> nat
    decreases (if p < c.len() { c.len() - p } else { 0 }),
{
    if p < 0 || p >= c.len() || c[p] == '}' {
        0
    } else {
        1 + brace_distance(c, p + 1)
    }
}

/// The length of `\{...}` that starts at `start`: up to and with the
/// first `}`, or to the end.
pub open spec fn braced_len(c: Seq<char>, start: int) -> int {
    let p = start + 3 + brace_distance(c, start + 3);
    if p < c.len() {
        p + 1 - start
    } else {
        p - start
    }
}

/// The length of the escape sequence that starts with the backslash at
/// `start`: `\xHH`, `\uHHHH`, `\u{...}`, `\p{...}`, `\cX`, `\C-X` and
/// `\M-X` (4 characters), `\M-\C-X` (6 characters), an octal escape, or a
/// two-character escape. A sequence cut short by the end of the text ends
/// there.
pub open spec fn esc_len(c: Seq<char>, start: int) -> int {
    if start + 1 >= c.len() {
        1
    } else {
        let next = c[start + 1];
        if next == 'x' {
            2 + hex_run(c, start + 2, 2) as int
        } else if next == 'u' {
            if start + 2 < c.len() && c[start + 2] == '{' {
                braced_len(c, start)
            } else {
                2 + hex_run(c, start + 2, 4) as int
            }
        } else if next == 'p' || next == 'P' {
            if start + 2 < c.len() && c[start + 2] == '{' {
                braced_len(c, start)
            } else {
                2
            }
        } else if next == 'c' {
            if start + 2 < c.len() {
                3
            } else {
                2
            }
        } else if (next == 'C' || next == 'M') && start + 2 < c.len() && c[start + 2] == '-' {
            let full = if next == 'M' && start + 5 < c.len() && c[start + 3] == '\\' && c[start + 4] == 'C' && c[start
                + 5] == '-' {
                6
            } else {
                4
            };
            if start + full <= c.len() {
                full
            } else {
                c.len() - start
            }
        } else if is_octal_char(next) {
            2 + octal_run(c, start + 2, 2) as int
        } else {
            2
        }
    }
}

/// How far from `p` the end of a POSIX class `[:name:]` is: just past the
/// first `:]` at or after `p`, or the last character.
pub open spec fn posix_distance(c: Seq<char>, p: int) -> nat
    decreases (if p < c.len() { c.len() - p } else { 0 }),
{
    if p < 0 || p + 1 >= c.len() {
        0
    } else if c[p] == ':' && c[p + 1] == ']' {
        2
    } else {
        1 + posix_distance(c, p + 1)
    }
}

pub open spec fn posix_end(c: Seq<char>, p: int) -> int {
    p + posix_distance(c, p)
}

/// The closing `]` of the character class whose `[` is at `open`, if any:
/// a `]` right after `[` or `[^` belongs to the class, escapes are
/// skipped, and nested classes and POSIX classes are passed over.
pub open spec fn class_end(c: Seq<char>, open: int) -> Option<int>
    decreases (if open < c.len() { c.len() - open } else { 0 }), 0int,
{
    if open < 0 || open >= c.len() {
        None
    } else {
        let j0 = open + 1;
        let j1 = if j0 < c.len() && c[j0] == '^' { j0 + 1 } else { j0 };
        let j2 = if j1 < c.len() && c[j1] == ']' { j1 + 1 } else { j1 };
        class_scan(c, j2)
    }
}

/// Scanning a class body from `j` for its closing `]`.
pub open spec fn class_scan(c: Seq<char>, j: int) -> Option<int>
    decreases (if j < c.len() { c.len() - j } else { 0 }), 1int,
{
    if j < 0 || j >= c.len() {
        None
    } else if c[j] == '\\' && j + 1 < c.len() {
        let step = esc_len(c, j);
        class_scan(c, if step >= 1 { j + step } else { j + 1 })
    } else if c[j] == '[' {
        if j + 1 < c.len() && c[j + 1] == ':' {
            let p = posix_end(c, j + 2);
            class_scan(c, if p > j { p } else { j + 1 })
        } else {
            match class_end(c, j) {
                Some(e) => class_scan(c, if e > j { e + 1 } else { j + 1 }),
                None => class_scan(c, j + 1),
            }
        }
    } else if c[j] == ']' {
        Some(j)
    } else {
        class_scan(c, j + 1)
    }
}

fn is_hex_exec(c: char) -> (r: bool)
    ensures
        r == is_hex_char(c),
{
    ('0' <= c && c <= '9') || ('a' <= c && c <= 'f') || ('A' <= c && c <= 'F')
}

fn is_octal_exec(c: char) -> (r: bool)
    ensures
        r == is_octal_char(c),
{
    '0' <= c && c <= '7'
}

fn digit_ok(c: char, octal: bool) -> (r: bool)
    ensures
        r == (if octal { is_octal_char(c) } else { is_hex_char(c) }),
{
    if octal {
        is_octal_exec(c)
    } else {
        is_hex_exec(c)
    }
}

fn braced_len_exec(chars: &[char], start: usize) -> (r: usize)
    requires
        start + 3 <= chars@.len(),
    ensures
        r == braced_len(chars@, start as int),
        3 <= r <= chars@.len() - start,
{
    let n = chars.len();
    let mut p = start + 3;
    while p < n && chars[p] != '}'
        invariant
            start + 3 <= p <= chars@.len(),
            n == chars@.len(),
            p + brace_distance(chars@, p as int) == start + 3 + brace_distance(chars@, start + 3),
        decreases chars@.len() - p,
    {
        p = p + 1;
    }
    if p < chars.len() {
        p + 1 - start
    } else {
        p - start
    }
}

/// The length of the escape sequence that starts at `start`.
pub fn escape_sequence_len(chars: &[char], start: usize) -> (r: usize)
    requires
        start < chars@.len(),
    ensures
        r == esc_len(chars@, start as int),
        1 <= r <= chars@.len() - start,
        start + 1 < chars@.len() ==> r >= 2,
{
    let len = chars.len();
    if start + 1 >= len {
        return 1;
    }
    let next = chars[start + 1];
    if next == 'x' || (next == 'u' && !(start + 2 < len && chars[start + 2] == '{')) || is_octal_exec(next) {
        let max: usize = if next == 'x' || is_octal_exec(next) { 2 } else { 4 };
        let octal = next != 'x' && next != 'u';
        let mut count: usize = 0;
        let mut i = start + 2;
        while i < len && count < max && digit_ok(chars[i], octal)
            invariant
                start + 2 <= i <= len == chars@.len(),
                i == start + 2 + count,
                count <= max,
                octal ==> count + octal_run(chars@, i as int, max - count) == octal_run(chars@, start + 2, max as int),
                !octal ==> count + hex_run(chars@, i as int, max - count) == hex_run(chars@, start + 2, max as int),
            decreases max - count,
        {
            count = count + 1;
            i = i + 1;
        }
        return 2 + count;
    }
    if next == 'u' || next == 'p' || next == 'P' {
        if start + 2 < len && chars[start + 2] == '{' {
            return braced_len_exec(chars, start);
        }
        return 2;
    }
    if next == 'c' {
        return if start + 2 < len { 3 } else { 2 };
    }
    if (next == 'C' || next == 'M') && start + 2 < len && chars[start + 2] == '-' {
        let full: usize = if next == 'M' && len - start > 5 && chars[start + 3] == '\\' && chars[start + 4] == 'C'
            && chars[start + 5] == '-' {
            6
        } else {
            4
        };
        return if len - start >= full { full } else { len - start };
    }
    2
}

fn posix_end_exec(chars: &[char], p: usize) -> (r: usize)
    requires
        p <= chars@.len(),
    ensures
        r == posix_end(chars@, p as int),
        p <= r <= chars@.len(),
{
    let mut q = p;
    while q < chars.len() && q + 1 < chars.len()
        invariant
            p <= q <= chars@.len(),
            q + posix_distance(chars@, q as int) == p + posix_distance(chars@, p as int),
        decreases chars@.len() - q,
    {
        if chars[q] == ':' && chars[q + 1] == ']' {
            return q + 2;
        }
        q = q + 1;
    }
    q
}

/// The closing `]` of the character class that opens at `open`.
pub fn find_char_class_end(chars: &[char], open: usize) -> (r: Option<usize>)
    requires
        open < chars@.len(),
    ensures
        match r {
            Some(e) => class_end(chars@, open as int) == Some(e as int) && open < e < chars@.len(),
            None => class_end(chars@, open as int) is None,
        },
    decreases chars@.len() - open, 0int,
{
    let len = chars.len();
    let mut j = open + 1;
    if j < len && chars[j] == '^' {
        j = j + 1;
    }
    if j < len && chars[j] == ']' {
        j = j + 1;
    }
    while j < len
        invariant
            open < j <= len == chars@.len(),
            class_scan(chars@, j as int) == class_end(chars@, open as int),
        decreases len - j,
    {
        if chars[j] == '\\' && j + 1 < len {
            j = j + escape_sequence_len(chars, j);
        } else if chars[j] == '[' {
            if j + 1 < len && chars[j + 1] == ':' {
                j = posix_end_exec(chars, j + 2);
            } else {
                match find_char_class_end(chars, j) {
                    Some(e) => {
                        j = e + 1;
                    },
                    None => {
                        j = j + 1;
                    },
                }
            }
        } else if chars[j] == ']' {
            return Some(j);
        } else {
            j = j + 1;
        }
    }
    None
}

/// The byte offset of element `k`, if it has one (an interpolation has
/// none).
pub open spec fn emit_at(o: Seq<Option<usize>>, k: int) -> Seq<int> {
    if 0 <= k < o.len() {
        match o[k] {
            Some(p) => seq![p as int],
            None => seq![],
        }
    } else {
        seq![]
    }
}

pub open spec fn emit_if(c: bool, o: Seq<Option<usize>>, k: int) -> Seq<int> {
    if c {
        emit_at(o, k)
    } else {
        seq![]
    }
}

/// The length of the end of a range that starts at `rs`: an escape
/// sequence or one character.
pub open spec fn range_end_len(c: Seq<char>, rs: int) -> int {
    if c[rs] == '\\' && rs + 1 < c.len() {
        esc_len(c, rs)
    } else {
        1
    }
}

/// The reports for the class body `c` (with the byte offsets `o` of its
/// characters) from element `k` on, `seen` holding the elements before:
/// each element (a character, an escape, a range `a-z`, a POSIX class
/// `[:alpha:]` or a nested class) that repeats an earlier one, the end of
/// a range whose ends are equal, and the reports inside nested classes.
pub open spec fn class_dups(c: Seq<char>, o: Seq<Option<usize>>, k: int, seen: Seq<Seq<char>>) -> Seq<int>
    decreases c.len(), (if k < c.len() { c.len() - k } else { 0 }),
{
    if k < 0 || k >= c.len() {
        seq![]
    } else if c[k] == '\0' {
        class_dups(c, o, k + 1, seen)
    } else if c[k] == '[' {
        if k + 1 < c.len() && c[k + 1] == ':' {
            let p = posix_end(c, k + 2);
            let e = c.subrange(k, p);
            emit_if(seen.contains(e), o, k) + class_dups(c, o, if p > k { p } else { k + 1 }, seen.push(e))
        } else {
            match class_end(c, k) {
                Some(ne) => if k < ne < c.len() {
                    let e = c.subrange(k, ne + 1);
                    emit_if(seen.contains(e), o, k) + (if ne > k + 1 {
                        class_dups(c.subrange(k + 1, ne), o.subrange(k + 1, ne), 0, seq![])
                    } else {
                        seq![]
                    }) + class_dups(c, o, ne + 1, seen.push(e))
                } else {
                    seq![]
                },
                None => {
                    let e = seq![c[k]];
                    emit_if(seen.contains(e), o, k) + class_dups(c, o, k + 1, seen.push(e))
                },
            }
        }
    } else if c[k] == '\\' && k + 1 < c.len() {
        let el = if esc_len(c, k) >= 1 { esc_len(c, k) } else { 1 };
        let entity = c.subrange(k, k + el);
        let after = k + el;
        if after + 1 < c.len() && c[after] == '-' && c[after + 1] != ']' {
            let rs = after + 1;
            let rl = if range_end_len(c, rs) >= 1 { range_end_len(c, rs) } else { 1 };
            if entity == c.subrange(rs, rs + rl) {
                emit_at(o, rs) + class_dups(c, o, rs + rl, seen.push(entity))
            } else {
                let r = c.subrange(k, rs + rl);
                emit_if(seen.contains(r), o, k) + class_dups(c, o, rs + rl, seen.push(r))
            }
        } else {
            emit_if(seen.contains(entity), o, k) + class_dups(c, o, k + el, seen.push(entity))
        }
    } else if k + 2 < c.len() && c[k + 1] == '-' && c[k + 2] != ']' {
        let rs = k + 2;
        let rl = if range_end_len(c, rs) >= 1 { range_end_len(c, rs) } else { 1 };
        let st = seq![c[k]];
        if st == c.subrange(rs, rs + rl) {
            emit_at(o, rs) + class_dups(c, o, rs + rl, seen.push(st))
        } else {
            let r = c.subrange(k, rs + rl);
            emit_if(seen.contains(r), o, k) + class_dups(c, o, rs + rl, seen.push(r))
        }
    } else {
        let e = seq![c[k]];
        emit_if(seen.contains(e), o, k) + class_dups(c, o, k + 1, seen.push(e))
    }
}

pub open spec fn char_views(v: Seq<Vec<char>>) -> Seq<Seq<char>> {
    v.map_values(|x: Vec<char>| x@)
}

pub open spec fn ints(v: Seq<usize>) -> Seq<int> {
    v.map_values(|x: usize| x as int)
}

fn chars_eq(a: &[char], b: &[char]) -> (r: bool)
    ensures
        r == (a@ == b@),
{
    if a.len() != b.len() {
        return false;
    }
    let mut i: usize = 0;
    while i < a.len()
        invariant
            i <= a@.len() == b@.len(),
            forall|j: int| 0 <= j < i ==> a@[j] == b@[j],
        decreases a@.len() - i,
    {
        if a[i] != b[i] {
            return false;
        }
        i = i + 1;
    }
    assert(a@ =~= b@);
    true
}

fn seen_contains(seen: &Vec<Vec<char>>, e: &[char]) -> (r: bool)
    ensures
        r == char_views(seen@).contains(e@),
{
    let mut i: usize = 0;
    while i < seen.len()
        invariant
            i <= seen@.len(),
            forall|j: int| 0 <= j < i ==> seen@[j]@ != e@,
        decreases seen@.len() - i,
    {
        if chars_eq(seen[i].as_slice(), e) {
            assert(char_views(seen@)[i as int] == e@);
            return true;
        }
        i = i + 1;
    }
    assert forall|j: int| 0 <= j < char_views(seen@).len() implies char_views(seen@)[j] != e@ by {
        assert(char_views(seen@)[j] == seen@[j]@);
    }
    false
}

/// Adds `e` to `seen`, and reports `k` when `c` holds.
fn note_element(seen: &mut Vec<Vec<char>>, e: &[char], report: bool, o: &[Option<usize>], k: usize, out: &mut Vec<usize>)
    ensures
        char_views(final(seen)@) == char_views(old(seen)@).push(e@),
        ints(final(out)@) == ints(old(out)@) + emit_if(report, o@, k as int),
{
    let ghost s0 = seen@;
    seen.push(vstd::slice::slice_to_vec(e));
    assert(char_views(seen@) =~= char_views(s0).push(e@));
    if report {
        emit_exec(o, k, out);
    } else {
        assert(ints(out@) =~= ints(out@) + Seq::<int>::empty());
    }
}

fn emit_exec(o: &[Option<usize>], k: usize, out: &mut Vec<usize>)
    ensures
        ints(final(out)@) == ints(old(out)@) + emit_at(o@, k as int),
{
    let ghost o0 = out@;
    if k < o.len() {
        match o[k] {
            Some(p) => {
                out.push(p);
                assert(ints(out@) =~= ints(o0) + seq![p as int]);
            },
            None => {
                assert(ints(out@) =~= ints(o0) + Seq::<int>::empty());
            },
        }
    } else {
        assert(ints(out@) =~= ints(o0) + Seq::<int>::empty());
    }
}

fn range_end_len_exec(c: &[char], rs: usize) -> (r: usize)
    requires
        rs < c@.len(),
    ensures
        r == range_end_len(c@, rs as int),
        1 <= r <= c@.len() - rs,
{
    if c[rs] == '\\' && rs + 1 < c.len() {
        escape_sequence_len(c, rs)
    } else {
        1
    }
}

pub open spec fn step_ok(
    c: Seq<char>,
    o: Seq<Option<usize>>,
    k: int,
    next: int,
    seen0: Seq<Vec<char>>,
    seen1: Seq<Vec<char>>,
    out0: Seq<usize>,
    out1: Seq<usize>,
) -> bool {
    &&& k < next <= c.len()
    &&& ints(out1) + class_dups(c, o, next, char_views(seen1)) == ints(out0) + class_dups(c, o, k, char_views(seen0))
}

/// One element that starts with `[`: a POSIX class, a nested class, or a
/// lone `[`.
#[verifier::rlimit(40)]
fn step_bracket(c: &[char], o: &[Option<usize>], k: usize, seen: &mut Vec<Vec<char>>, out: &mut Vec<usize>) -> (next: usize)
    requires
        k < c@.len() == o@.len(),
        c@[k as int] == '[',
    ensures
        step_ok(c@, o@, k as int, next as int, old(seen)@, final(seen)@, old(out)@, final(out)@),
    decreases c@.len(), 0int,
{
    let len = c.len();
    let ghost sv = char_views(seen@);
    let ghost whole = class_dups(c@, o@, k as int, sv);
    let ghost o1 = ints(out@);
    if k + 1 < len && c[k + 1] == ':' {
        let p = posix_end_exec(c, k + 2);
        let e = &c[k..p];
        let dup = seen_contains(seen, e);
        note_element(seen, e, dup, o, k, out);
        assert(whole == emit_if(dup, o@, k as int) + class_dups(c@, o@, p as int, sv.push(e@)));
        assert(ints(out@) + class_dups(c@, o@, p as int, char_views(seen@)) =~= o1 + whole);
        p
    } else {
        match find_char_class_end(c, k) {
            Some(ne) => {
                let e = &c[k..ne + 1];
                let dup = seen_contains(seen, e);
                note_element(seen, e, dup, o, k, out);
                let ghost o2 = ints(out@);
                if ne > k + 1 {
                    check_class_for_duplicates(&c[k + 1..ne], &o[k + 1..ne], out);
                }
                let ghost inner = if ne > k + 1 {
                    class_dups(c@.subrange(k + 1, ne as int), o@.subrange(k + 1, ne as int), 0, seq![])
                } else {
                    seq![]
                };
                assert(ints(out@) =~= o2 + inner);
                assert(whole == emit_if(dup, o@, k as int) + inner + class_dups(c@, o@, ne + 1, sv.push(e@)));
                assert(ints(out@) + class_dups(c@, o@, ne + 1, char_views(seen@)) =~= o1 + whole);
                ne + 1
            },
            None => {
                let e = &c[k..k + 1];
                assert(e@ =~= seq![c@[k as int]]);
                let dup = seen_contains(seen, e);
                note_element(seen, e, dup, o, k, out);
                assert(ints(out@) + class_dups(c@, o@, k + 1, char_views(seen@)) =~= o1 + whole);
                k + 1
            },
        }
    }
}

/// A range whose start spans `[k, rs - 1)` and whose end starts at `rs`.
fn step_range(
    c: &[char],
    o: &[Option<usize>],
    k: usize,
    start_len: usize,
    seen: &mut Vec<Vec<char>>,
    out: &mut Vec<usize>,
) -> (next: usize)
    requires
        k + start_len + 1 < c@.len() == o@.len(),
        1 <= start_len,
    ensures
        ({
            let rs = k + start_len + 1;
            let rl = if range_end_len(c@, rs) >= 1 { range_end_len(c@, rs) } else { 1 };
            let st = c@.subrange(k as int, k + start_len);
            &&& next == rs + rl
            &&& k < next <= c@.len()
            &&& char_views(final(seen)@) == char_views(old(seen)@).push(
                if st == c@.subrange(rs, rs + rl) { st } else { c@.subrange(k as int, rs + rl) },
            )
            &&& ints(final(out)@) == ints(old(out)@) + if st == c@.subrange(rs, rs + rl) {
                emit_at(o@, rs)
            } else {
                emit_if(char_views(old(seen)@).contains(c@.subrange(k as int, rs + rl)), o@, k as int)
            }
        }),
{
    let len = c.len();
    assert(len == c@.len());
    let rs = k + start_len + 1;
    let rl = range_end_len_exec(c, rs);
    let st = &c[k..k + start_len];
    if chars_eq(st, &c[rs..rs + rl]) {
        let ghost s0 = seen@;
        seen.push(vstd::slice::slice_to_vec(st));
        assert(char_views(seen@) =~= char_views(s0).push(st@));
        emit_exec(o, rs, out);
    } else {
        let r = &c[k..rs + rl];
        let dup = seen_contains(seen, r);
        note_element(seen, r, dup, o, k, out);
    }
    rs + rl
}

#[verifier::rlimit(40)]
fn step_escape(c: &[char], o: &[Option<usize>], k: usize, seen: &mut Vec<Vec<char>>, out: &mut Vec<usize>) -> (next: usize)
    requires
        k + 1 < c@.len() == o@.len(),
        c@[k as int] == '\\',
    ensures
        step_ok(c@, o@, k as int, next as int, old(seen)@, final(seen)@, old(out)@, final(out)@),
{
    let len = c.len();
    let ghost sv = char_views(seen@);
    let ghost whole = class_dups(c@, o@, k as int, sv);
    let ghost o1 = ints(out@);
    let el = escape_sequence_len(c, k);
    let entity = &c[k..k + el];
    let after = k + el;
    if after < len && after + 1 < len && c[after] == '-' && c[after + 1] != ']' {
        let next = step_range(c, o, k, el, seen, out);
        assert(ints(out@) + class_dups(c@, o@, next as int, char_views(seen@)) =~= o1 + whole);
        next
    } else {
        let dup = seen_contains(seen, entity);
        note_element(seen, entity, dup, o, k, out);
        assert(ints(out@) + class_dups(c@, o@, k + el, char_views(seen@)) =~= o1 + whole);
        k + el
    }
}

#[verifier::rlimit(40)]
fn step_other(c: &[char], o: &[Option<usize>], k: usize, seen: &mut Vec<Vec<char>>, out: &mut Vec<usize>) -> (next: usize)
    requires
        k < c@.len() == o@.len(),
        c@[k as int] != '[',
        c@[k as int] != '\\' || k + 1 >= c@.len(),
        c@[k as int] != '\0',
    ensures
        step_ok(c@, o@, k as int, next as int, old(seen)@, final(seen)@, old(out)@, final(out)@),
{
    let len = c.len();
    let ghost sv = char_views(seen@);
    let ghost whole = class_dups(c@, o@, k as int, sv);
    let ghost o1 = ints(out@);
    if k + 1 < len && k + 2 < len && c[k + 1] == '-' && c[k + 2] != ']' {
        let next = step_range(c, o, k, 1, seen, out);
        assert(c@.subrange(k as int, k + 1) =~= seq![c@[k as int]]);
        assert(ints(out@) + class_dups(c@, o@, next as int, char_views(seen@)) =~= o1 + whole);
        next
    } else {
        let e = &c[k..k + 1];
        assert(e@ =~= seq![c@[k as int]]);
        let dup = seen_contains(seen, e);
        note_element(seen, e, dup, o, k, out);
        assert(ints(out@) + class_dups(c@, o@, k + 1, char_views(seen@)) =~= o1 + whole);
        k + 1
    }
}

/// Appends the byte offsets of the duplicate elements of the class body
/// `c`, whose characters start at the offsets `o`.
pub fn check_class_for_duplicates(c: &[char], o: &[Option<usize>], out: &mut Vec<usize>)
    requires
        c@.len() == o@.len(),
    ensures
        ints(final(out)@) == ints(old(out)@) + class_dups(c@, o@, 0, seq![]),
    decreases c@.len(), 1int,
{
    let ghost out0 = ints(out@);
    let len = c.len();
    let mut seen: Vec<Vec<char>> = Vec::new();
    let mut k: usize = 0;
    assert(char_views(seen@) =~= Seq::<Seq<char>>::empty());
    while k < len
        invariant
            k <= len == c@.len() == o@.len(),
            ints(out@) + class_dups(c@, o@, k as int, char_views(seen@)) == out0 + class_dups(c@, o@, 0, seq![]),
        decreases len - k,
    {
        if c[k] == '\0' {
            k = k + 1;
        } else if c[k] == '[' {
            k = step_bracket(c, o, k, &mut seen, out);
        } else if c[k] == '\\' && k + 1 < len {
            k = step_escape(c, o, k, &mut seen, out);
        } else {
            k = step_other(c, o, k, &mut seen, out);
        }
    }
}

/// The backslashes right before `p`.
pub open spec fn backslashes_before(c: Seq<char>, p: int) -> nat
    decreases (if p > 0 { p } else { 0 }),
{
    if p > 0 && p <= c.len() && c[p - 1] == '\\' {
        1 + backslashes_before(c, p - 1)
    } else {
        0
    }
}

/// A `[` that an even number of backslashes precedes.
pub open spec fn unescaped_open(c: Seq<char>, i: int) -> bool {
    c[i] == '[' && backslashes_before(c, i) % 2 == 0
}

/// The first line feed at or after `i`, or the end.
pub open spec fn line_end_from(c: Seq<char>, i: int) -> int
    decreases (if i < c.len() { c.len() - i } else { 0 }),
{
    if i < 0 || i >= c.len() || c[i] == '\n' {
        i
    } else {
        line_end_from(c, i + 1)
    }
}

/// The class uses `&&` (an intersection).
pub open spec fn has_intersection(c: Seq<char>) -> bool {
    exists|k: int| 0 <= k && k + 1 < c.len() && #[trigger] c[k] == '&' && c[k + 1] == '&'
}

/// The reports for the regexp content `c` (with byte offsets `o`) from
/// `i` on: each character class found outside escapes (and, in extended
/// mode, outside comments) and without an intersection is checked.
pub open spec fn regexp_dups(c: Seq<char>, o: Seq<Option<usize>>, extended: bool, i: int) -> Seq<int>
    decreases (if i < c.len() { c.len() - i } else { 0 }),
{
    if i < 0 || i >= c.len() {
        seq![]
    } else if c[i] == '\0' {
        regexp_dups(c, o, extended, i + 1)
    } else if extended && c[i] == '#' {
        let e = line_end_from(c, i);
        regexp_dups(c, o, extended, if e > i { e } else { i + 1 })
    } else if unescaped_open(c, i) {
        match class_end(c, i) {
            Some(j) => if i < j < c.len() {
                (if !has_intersection(c.subrange(i + 1, j)) {
                    class_dups(c.subrange(i + 1, j), o.subrange(i + 1, j), 0, seq![])
                } else {
                    seq![]
                }) + regexp_dups(c, o, extended, j + 1)
            } else {
                seq![]
            },
            None => regexp_dups(c, o, extended, i + 1),
        }
    } else if c[i] == '\\' && i + 1 < c.len() {
        let el = esc_len(c, i);
        regexp_dups(c, o, extended, if el >= 1 { i + el } else { i + 1 })
    } else {
        regexp_dups(c, o, extended, i + 1)
    }
}

fn unescaped_open_exec(c: &[char], i: usize) -> (r: bool)
    requires
        i < c@.len(),
    ensures
        r == unescaped_open(c@, i as int),
{
    if c[i] != '[' {
        return false;
    }
    let mut count: usize = 0;
    let mut p = i;
    while p > 0 && c[p - 1] == '\\'
        invariant
            p <= i < c@.len(),
            count + backslashes_before(c@, p as int) == backslashes_before(c@, i as int),
            count <= i - p,
        decreases p,
    {
        p = p - 1;
        count = count + 1;
    }
    count % 2 == 0
}

fn has_intersection_exec(c: &[char]) -> (r: bool)
    ensures
        r == has_intersection(c@),
{
    let len = c.len();
    let mut k: usize = 0;
    while k < len && k + 1 < len
        invariant
            len == c@.len(),
            forall|j: int| 0 <= j < k && j + 1 < len ==> !(#[trigger] c@[j] == '&' && c@[j + 1] == '&'),
        decreases len - k,
    {
        if c[k] == '&' && c[k + 1] == '&' {
            assert(c@[k as int] == '&' && c@[k + 1] == '&');
            return true;
        }
        k = k + 1;
    }
    false
}

/// Appends the byte offsets of the duplicate class elements of the
/// regexp content `c`, whose characters start at the offsets `o`.
pub fn check_regexp_content(c: &[char], o: &[Option<usize>], extended: bool, out: &mut Vec<usize>)
    requires
        c@.len() == o@.len(),
    ensures
        ints(final(out)@) == ints(old(out)@) + regexp_dups(c@, o@, extended, 0),
{
    let ghost out0 = ints(out@);
    let len = c.len();
    let mut i: usize = 0;
    while i < len
        invariant
            i <= len == c@.len() == o@.len(),
            ints(out@) + regexp_dups(c@, o@, extended, i as int) == out0 + regexp_dups(c@, o@, extended, 0),
        decreases len - i,
    {
        let ghost o1 = ints(out@);
        let ghost whole = regexp_dups(c@, o@, extended, i as int);
        if c[i] == '\0' {
            i = i + 1;
        } else if extended && c[i] == '#' {
            let mut e = i;
            while e < len && c[e] != '\n'
                invariant
                    i <= e <= len == c@.len(),
                    line_end_from(c@, e as int) == line_end_from(c@, i as int),
                    c@[i as int] == '#',
                    e > i || c@[e as int] == '#',
                decreases len - e,
            {
                e = e + 1;
            }
            i = e;
        } else if unescaped_open_exec(c, i) {
            match find_char_class_end(c, i) {
                Some(j) => {
                    if !has_intersection_exec(&c[i + 1..j]) {
                        check_class_for_duplicates(&c[i + 1..j], &o[i + 1..j], out);
                    }
                    assert(ints(out@) + regexp_dups(c@, o@, extended, j + 1) =~= o1 + whole);
                    i = j + 1;
                },
                None => {
                    i = i + 1;
                },
            }
        } else if c[i] == '\\' && i + 1 < len {
            i = i + escape_sequence_len(c, i);
        } else {
            i = i + 1;
        }
    }
}

pub const DUPLICATE_ELEMENT_MESSAGE: &'static str = "Duplicate element inside regexp character class";

/// The UTF-8 length of a character.
pub open spec fn char_utf8_len(ch: char) -> int {
    if (ch as u32) < 0x80 {
        1
    } else if (ch as u32) < 0x800 {
        2
    } else if (ch as u32) < 0x10000 {
        3
    } else {
        4
    }
}

/// The UTF-8 length of the first `n` characters.
pub open spec fn text_len(chars: Seq<char>, n: int) -> int
    decreases n,
{
    if n <= 0 {
        0
    } else {
        text_len(chars, n - 1) + char_utf8_len(chars[n - 1])
    }
}

/// The byte offsets of the characters of a text that starts at `start`.
pub open spec fn char_offsets_spec(chars: Seq<char>, start: int) -> Seq<Option<usize>> {
    Seq::new(chars.len(), |k: int| Some((start + text_len(chars, k)) as usize))
}

/// A part of a regexp: literal text whose first character starts at
/// `start`, or an interpolation.
pub enum RegexpPart {
    Text { chars: Vec<char>, start: usize },
    Interpolation,
}

/// The characters of the first `n` parts: an interpolation reads as one
/// `\0`.
pub open spec fn content_chars(parts: Seq<RegexpPart>, n: int) -> Seq<char>
    decreases n,
{
    if n <= 0 {
        seq![]
    } else {
        content_chars(parts, n - 1) + match parts[n - 1] {
            RegexpPart::Text { chars, .. } => chars@,
            RegexpPart::Interpolation => seq!['\0'],
        }
    }
}

/// The byte offsets of the characters of the first `n` parts: none for an
/// interpolation.
pub open spec fn content_offsets(parts: Seq<RegexpPart>, n: int) -> Seq<Option<usize>>
    decreases n,
{
    if n <= 0 {
        seq![]
    } else {
        content_offsets(parts, n - 1) + match parts[n - 1] {
            RegexpPart::Text { chars, start } => char_offsets_spec(chars@, start as int),
            RegexpPart::Interpolation => seq![None],
        }
    }
}

/// Each text part ends within `usize`.
pub open spec fn parts_fit(parts: Seq<RegexpPart>) -> bool {
    forall|k: int| 0 <= k < parts.len() ==> (#[trigger] parts[k] matches RegexpPart::Text { chars, start } ==> start + text_len(
        chars@,
        chars@.len() as int,
    ) <= usize::MAX)
}

fn char_len_exec(ch: char) -> (r: usize)
    ensures
        r == char_utf8_len(ch),
{
    let v = ch as u32;
    if v < 0x80 {
        1
    } else if v < 0x800 {
        2
    } else if v < 0x10000 {
        3
    } else {
        4
    }
}

proof fn lemma_text_len_monotone(chars: Seq<char>, a: int, b: int)
    requires
        0 <= a <= b <= chars.len(),
    ensures
        text_len(chars, a) <= text_len(chars, b),
    decreases b - a,
{
    if a < b {
        lemma_text_len_monotone(chars, a, b - 1);
    }
}

/// The characters and their byte offsets of a regexp made of `parts`.
pub fn regexp_content(parts: &Vec<RegexpPart>) -> (r: (Vec<char>, Vec<Option<usize>>))
    requires
        parts_fit(parts@),
    ensures
        r.0@ == content_chars(parts@, parts@.len() as int),
        r.1@ == content_offsets(parts@, parts@.len() as int),
{
    let mut chars: Vec<char> = Vec::new();
    let mut offsets: Vec<Option<usize>> = Vec::new();
    let mut k: usize = 0;
    while k < parts.len()
        invariant
            k <= parts@.len(),
            parts_fit(parts@),
            chars@ == content_chars(parts@, k as int),
            offsets@ == content_offsets(parts@, k as int),
        decreases parts@.len() - k,
    {
        match &parts[k] {
            RegexpPart::Text { chars: text, start } => {
                assert(parts_fit(parts@));
                assert(parts@[k as int] matches RegexpPart::Text { chars, start } ==> start + text_len(chars@, chars@.len() as int) <= usize::MAX);
                let ghost c0 = chars@;
                let ghost o0 = offsets@;
                let mut off = *start;
                let mut i: usize = 0;
                while i < text.len()
                    invariant
                        i <= text@.len(),
                        *start + text_len(text@, text@.len() as int) <= usize::MAX,
                        off == *start + text_len(text@, i as int),
                        chars@ == c0 + text@.subrange(0, i as int),
                        offsets@ == o0 + char_offsets_spec(text@, *start as int).subrange(0, i as int),
                    decreases text@.len() - i,
                {
                    proof {
                        lemma_text_len_monotone(text@, i + 1, text@.len() as int);
                    }
                    chars.push(text[i]);
                    offsets.push(Some(off));
                    off = off + char_len_exec(text[i]);
                    i = i + 1;
                    assert(chars@ =~= c0 + text@.subrange(0, i as int));
                    assert(offsets@ =~= o0 + char_offsets_spec(text@, *start as int).subrange(0, i as int));
                }
                assert(text@.subrange(0, text@.len() as int) =~= text@);
                assert(char_offsets_spec(text@, *start as int).subrange(0, text@.len() as int) =~= char_offsets_spec(text@, *start as int));
            },
            RegexpPart::Interpolation => {
                chars.push('\0');
                offsets.push(None);
            },
        }
        k = k + 1;
    }
    (chars, offsets)
}

/// Whether the closing delimiter with its flags turns on extended mode.
pub fn is_extended_regex(closing: &[u8]) -> (r: bool)
    ensures
        r == closing@.contains(0x78u8),
{
    let mut i: usize = 0;
    while i < closing.len()
        invariant
            i <= closing@.len(),
            forall|j: int| 0 <= j < i ==> closing@[j] != 0x78u8,
        decreases closing@.len() - i,
    {
        if closing[i] == 0x78u8 {
            assert(closing@[i as int] == 0x78u8);
            return true;
        }
        i = i + 1;
    }
    false
}

pub open spec fn offsets_within(o: Seq<Option<usize>>, len: int) -> bool {
    forall|k: int| 0 <= k < o.len() ==> (#[trigger] o[k] matches Some(p) ==> p <= len)
}

pub open spec fn all_within(s: Seq<int>, len: int) -> bool {
    forall|j: int| 0 <= j < s.len() ==> 0 <= #[trigger] s[j] <= len
}

proof fn lemma_emit_within(o: Seq<Option<usize>>, k: int, len: int)
    requires
        offsets_within(o, len),
    ensures
        all_within(emit_at(o, k), len),
{
    if 0 <= k < o.len() {
        assert(o[k] matches Some(p) ==> p <= len);
    }
}

proof fn lemma_concat_within(a: Seq<int>, b: Seq<int>, len: int)
    requires
        all_within(a, len),
        all_within(b, len),
    ensures
        all_within(a + b, len),
{
    assert forall|j: int| 0 <= j < (a + b).len() implies 0 <= #[trigger] (a + b)[j] <= len by {
        if j < a.len() {
            assert((a + b)[j] == a[j]);
        } else {
            assert((a + b)[j] == b[j - a.len()]);
        }
    }
}

/// Every offset the class scan reports is one of the given offsets.
proof fn lemma_class_dups_within(c: Seq<char>, o: Seq<Option<usize>>, k: int, seen: Seq<Seq<char>>, len: int)
    requires
        c.len() == o.len(),
        offsets_within(o, len),
    ensures
        all_within(class_dups(c, o, k, seen), len),
    decreases c.len(), (if k < c.len() { c.len() - k } else { 0 }),
{
    if k < 0 || k >= c.len() {
    } else if c[k] == '\0' {
        lemma_class_dups_within(c, o, k + 1, seen, len);
    } else if c[k] == '[' {
        lemma_emit_within(o, k, len);
        if k + 1 < c.len() && c[k + 1] == ':' {
            let p = posix_end(c, k + 2);
            let e = c.subrange(k, p);
            lemma_class_dups_within(c, o, if p > k { p } else { k + 1 }, seen.push(e), len);
            lemma_concat_within(emit_if(seen.contains(e), o, k), class_dups(c, o, if p > k { p } else { k + 1 }, seen.push(e)), len);
        } else {
            match class_end(c, k) {
                Some(ne) => if k < ne < c.len() {
                    let e = c.subrange(k, ne + 1);
                    let inner = if ne > k + 1 {
                        class_dups(c.subrange(k + 1, ne), o.subrange(k + 1, ne), 0, seq![])
                    } else {
                        seq![]
                    };
                    if ne > k + 1 {
                        assert(offsets_within(o.subrange(k + 1, ne), len)) by {
                            assert forall|j: int| 0 <= j < o.subrange(k + 1, ne).len() implies (#[trigger] o.subrange(k + 1, ne)[j] matches Some(p)
                                ==> p <= len) by {
                                assert(o.subrange(k + 1, ne)[j] == o[k + 1 + j]);
                            }
                        }
                        lemma_class_dups_within(c.subrange(k + 1, ne), o.subrange(k + 1, ne), 0, seq![], len);
                    }
                    lemma_class_dups_within(c, o, ne + 1, seen.push(e), len);
                    lemma_concat_within(emit_if(seen.contains(e), o, k), inner, len);
                    lemma_concat_within(emit_if(seen.contains(e), o, k) + inner, class_dups(c, o, ne + 1, seen.push(e)), len);
                },
                None => {
                    let e = seq![c[k]];
                    lemma_class_dups_within(c, o, k + 1, seen.push(e), len);
                    lemma_concat_within(emit_if(seen.contains(e), o, k), class_dups(c, o, k + 1, seen.push(e)), len);
                },
            }
        }
    } else if c[k] == '\\' && k + 1 < c.len() {
        let el = if esc_len(c, k) >= 1 { esc_len(c, k) } else { 1 };
        let entity = c.subrange(k, k + el);
        let after = k + el;
        lemma_emit_within(o, k, len);
        if after + 1 < c.len() && c[after] == '-' && c[after + 1] != ']' {
            let rs = after + 1;
            let rl = if range_end_len(c, rs) >= 1 { range_end_len(c, rs) } else { 1 };
            lemma_emit_within(o, rs, len);
            if entity == c.subrange(rs, rs + rl) {
                lemma_class_dups_within(c, o, rs + rl, seen.push(entity), len);
                lemma_concat_within(emit_at(o, rs), class_dups(c, o, rs + rl, seen.push(entity)), len);
            } else {
                let r = c.subrange(k, rs + rl);
                lemma_class_dups_within(c, o, rs + rl, seen.push(r), len);
                lemma_concat_within(emit_if(seen.contains(r), o, k), class_dups(c, o, rs + rl, seen.push(r)), len);
            }
        } else {
            lemma_class_dups_within(c, o, k + el, seen.push(entity), len);
            lemma_concat_within(emit_if(seen.contains(entity), o, k), class_dups(c, o, k + el, seen.push(entity)), len);
        }
    } else if k + 2 < c.len() && c[k + 1] == '-' && c[k + 2] != ']' {
        let rs = k + 2;
        let rl = if range_end_len(c, rs) >= 1 { range_end_len(c, rs) } else { 1 };
        let st = seq![c[k]];
        lemma_emit_within(o, k, len);
        lemma_emit_within(o, rs, len);
        if st == c.subrange(rs, rs + rl) {
            lemma_class_dups_within(c, o, rs + rl, seen.push(st), len);
            lemma_concat_within(emit_at(o, rs), class_dups(c, o, rs + rl, seen.push(st)), len);
        } else {
            let r = c.subrange(k, rs + rl);
            lemma_class_dups_within(c, o, rs + rl, seen.push(r), len);
            lemma_concat_within(emit_if(seen.contains(r), o, k), class_dups(c, o, rs + rl, seen.push(r)), len);
        }
    } else {
        let e = seq![c[k]];
        lemma_emit_within(o, k, len);
        lemma_class_dups_within(c, o, k + 1, seen.push(e), len);
        lemma_concat_within(emit_if(seen.contains(e), o, k), class_dups(c, o, k + 1, seen.push(e)), len);
    }
}

proof fn lemma_dups_in_source(c: Seq<char>, o: Seq<Option<usize>>, extended: bool, i: int, len: int)
    requires
        c.len() == o.len(),
        offsets_within(o, len),
    ensures
        all_within(regexp_dups(c, o, extended, i), len),
    decreases (if i < c.len() { c.len() - i } else { 0 }),
{
    if i < 0 || i >= c.len() {
    } else if c[i] == '\0' {
        lemma_dups_in_source(c, o, extended, i + 1, len);
    } else if extended && c[i] == '#' {
        let e = line_end_from(c, i);
        lemma_dups_in_source(c, o, extended, if e > i { e } else { i + 1 }, len);
    } else if unescaped_open(c, i) {
        match class_end(c, i) {
            Some(j) => if i < j < c.len() {
                let inner = if !has_intersection(c.subrange(i + 1, j)) {
                    class_dups(c.subrange(i + 1, j), o.subrange(i + 1, j), 0, seq![])
                } else {
                    seq![]
                };
                if !has_intersection(c.subrange(i + 1, j)) {
                    assert(offsets_within(o.subrange(i + 1, j), len)) by {
                        assert forall|m: int| 0 <= m < o.subrange(i + 1, j).len() implies (#[trigger] o.subrange(i + 1, j)[m] matches Some(p)
                            ==> p <= len) by {
                            assert(o.subrange(i + 1, j)[m] == o[i + 1 + m]);
                        }
                    }
                    lemma_class_dups_within(c.subrange(i + 1, j), o.subrange(i + 1, j), 0, seq![], len);
                }
                lemma_dups_in_source(c, o, extended, j + 1, len);
                lemma_concat_within(inner, regexp_dups(c, o, extended, j + 1), len);
            },
            None => {
                lemma_dups_in_source(c, o, extended, i + 1, len);
            },
        }
    } else if c[i] == '\\' && i + 1 < c.len() {
        let el = esc_len(c, i);
        lemma_dups_in_source(c, o, extended, if el >= 1 { i + el } else { i + 1 }, len);
    } else {
        lemma_dups_in_source(c, o, extended, i + 1, len);
    }
}

impl DuplicateRegexpCharacterClassElement {
    pub fn name(&self) -> (r: &'static str)
        ensures
            r@ == "Lint/DuplicateRegexpCharacterClassElement"@,
    {
        "Lint/DuplicateRegexpCharacterClassElement"
    }

    /// Checks the content of one regexp: its characters, the byte offset of
    /// each (`None` for the placeholder `\0` of an interpolation), and
    /// whether the regexp is in extended mode.
    pub fn check_node(&self, source: &[u8], chars: &Vec<char>, offsets: &Vec<Option<usize>>, extended: bool) -> (r: Vec<Diagnostic>)
        requires
            source@.len() < usize::MAX,
            chars@.len() == offsets@.len(),
            offsets_within(offsets@, source@.len() as int),
        ensures
            reports_at(source@, regexp_dups(chars@, offsets@, extended, 0), DUPLICATE_ELEMENT_MESSAGE.spec_bytes(), r@),
    {
        let mut positions: Vec<usize> = Vec::new();
        check_regexp_content(chars.as_slice(), offsets.as_slice(), extended, &mut positions);
        assert(ints(positions@) =~= regexp_dups(chars@, offsets@, extended, 0));
        proof {
            lemma_dups_in_source(chars@, offsets@, extended, 0, source@.len() as int);
        }
        let ghost want = regexp_dups(chars@, offsets@, extended, 0);
        let mut diags: Vec<Diagnostic> = Vec::new();
        let mut k: usize = 0;
        while k < positions.len()
            invariant
                k <= positions@.len(),
                source@.len() < usize::MAX,
                ints(positions@) == want,
                all_within(want, source@.len() as int),
                reports_at(source@, want.subrange(0, k as int), DUPLICATE_ELEMENT_MESSAGE.spec_bytes(), diags@),
            decreases positions@.len() - k,
        {
            assert(want[k as int] == positions@[k as int] as int);
            let (line, column) = offset_to_line_col(source, positions[k]);
            diags.push(Diagnostic { location: Location { line, column }, message: message(DUPLICATE_ELEMENT_MESSAGE), corrected: false });
            k = k + 1;
            assert forall|j: int| 0 <= j < k implies want.subrange(0, k as int)[j] == want[j] by {}
        }
        assert(want.subrange(0, positions@.len() as int) =~= want);
        diags
    }
}

} // verus!
