//! Lint/CopDirectiveSyntax: a `# rubocop:` directive comment that is not
//! well formed: no mode, an unknown mode, no cop name, or cop names not
//! separated by commas.
use vstd::prelude::*;
use vstd::string::StringSliceAdditionalSpecFns;
use crate::ascii::{COLON, COMMA, DQUOTE, MINUS, QUOTE};
use crate::bytes::{bytes_eq_range, find_from, find_from_exec, lemma_find_from, occurs_at, occurs_at_exec, split_on, starts_with};
use crate::diagnostic::{message, Diagnostic, Location};
use crate::text::is_ascii_whitespace;
use crate::code_map::CodeMap;
use crate::text::{bytes_eq, is_line_split, lemma_line_split_unique, line_spans, spec_is_ascii_whitespace, utf8_valid, is_utf8, HASH};

verus! {

pub struct CopDirectiveSyntax;

/// The length of the Unicode white-space character that starts at `i`, or
/// 0: tab to carriage return, space, U+0085, U+00A0, U+1680, U+2000 to
/// U+200A, U+2028, U+2029, U+202F, U+205F and U+3000, in UTF-8.
pub open spec fn ws_at(s: Seq<u8>, i: int) -> int {
    if i < 0 || i >= s.len() {
        0
    } else if (0x09 <= s[i] && s[i] <= 0x0d) || s[i] == 0x20 {
        1
    } else if i + 1 < s.len() && s[i] == 0xc2 && (s[i + 1] == 0x85 || s[i + 1] == 0xa0) {
        2
    } else if i + 2 < s.len() && ((s[i] == 0xe1 && s[i + 1] == 0x9a && s[i + 2] == 0x80) || (s[i] == 0xe2 && s[i + 1]
        == 0x80 && ((0x80 <= s[i + 2] && s[i + 2] <= 0x8a) || s[i + 2] == 0xa8 || s[i + 2] == 0xa9 || s[i + 2] == 0xaf))
        || (s[i] == 0xe2 && s[i + 1] == 0x81 && s[i + 2] == 0x9f) || (s[i] == 0xe3 && s[i + 1] == 0x80 && s[i + 2]
        == 0x80)) {
        3
    } else {
        0
    }
}

/// Skipping white space forward from `i`.
pub open spec fn ws_skip(s: Seq<u8>, i: int) -> int
    decreases (if i < s.len() { s.len() - i } else { 0 }),
{
    if i >= 0 && ws_at(s, i) > 0 {
        ws_skip(s, i + ws_at(s, i))
    } else {
        i
    }
}

/// The length of the white-space character that ends at `j`, not before
/// `lo`, or 0.
pub open spec fn ws_before(s: Seq<u8>, lo: int, j: int) -> int {
    if j - 1 >= lo && ws_at(s, j - 1) == 1 {
        1
    } else if j - 2 >= lo && ws_at(s, j - 2) == 2 {
        2
    } else if j - 3 >= lo && ws_at(s, j - 3) == 3 {
        3
    } else {
        0
    }
}

/// Skipping white space backward from `j`, not before `lo`.
pub open spec fn ws_skip_back(s: Seq<u8>, lo: int, j: int) -> int
    decreases (if j > lo { j - lo } else { 0 }),
{
    if ws_before(s, lo, j) > 0 {
        ws_skip_back(s, lo, j - ws_before(s, lo, j))
    } else {
        j
    }
}

/// The bytes of `rubocop`.
pub open spec fn rubocop_word() -> Seq<u8> {
    seq![0x72u8, 0x75u8, 0x62u8, 0x6fu8, 0x63u8, 0x6fu8, 0x70u8]
}

/// After `rubocop`, white space and `:` at `i`: where what follows the
/// colon starts.
pub open spec fn rubocop_prefix(s: Seq<u8>, i: int) -> Option<int> {
    if occurs_at(s, rubocop_word(), i) {
        let p = ws_skip(s, i + 7);
        if 0 <= p < s.len() && s[p] == COLON {
            Some(p + 1)
        } else {
            None
        }
    } else {
        None
    }
}

/// The first `#` at or after `i`.
pub open spec fn next_hash(s: Seq<u8>, i: int) -> Option<int>
    decreases (if i < s.len() { s.len() - i } else { 0 }),
{
    if i < 0 || i >= s.len() {
        None
    } else if s[i] == HASH {
        Some(i)
    } else {
        next_hash(s, i + 1)
    }
}

pub proof fn lemma_next_hash(s: Seq<u8>, i: int)
    ensures
        next_hash(s, i) matches Some(h) ==> i <= h < s.len() && s[h] == HASH,
    decreases (if i < s.len() { s.len() - i } else { 0 }),
{
    if 0 <= i < s.len() && s[i] != HASH {
        lemma_next_hash(s, i + 1);
    }
}

/// The `#` that starts the directive of line `s`, searching from `from`;
/// `seen` tells that a `#` before started a comment that is no directive.
/// A `# rubocop:` after another `#` or a quote is not one, and one inside
/// the text of an earlier comment is not either.
pub open spec fn directive_from(s: Seq<u8>, from: int, seen: bool) -> Option<int>
    decreases (if from <= s.len() { s.len() + 1 - from } else { 0 }),
{
    if from < 0 || from > s.len() {
        None
    } else {
        proof {
            lemma_next_hash(s, from);
        }
        match next_hash(s, from) {
            Some(h) => if rubocop_prefix(s, ws_skip(s, h + 1)) is Some {
                let e = ws_skip_back(s, 0, h);
                if e > 0 && (s[e - 1] == HASH || s[e - 1] == DQUOTE || s[e - 1] == QUOTE) {
                    directive_from(s, h + 1, seen)
                } else if seen {
                    None
                } else {
                    Some(h)
                }
            } else {
                directive_from(s, h + 1, true)
            },
            None => None,
        }
    }
}

fn ws_at_exec(s: &[u8], i: usize) -> (r: usize)
    ensures
        r == ws_at(s@, i as int),
        r <= 3,
        r == 0 || i + r <= s@.len(),
{
    let n = s.len();
    if i >= n {
        return 0;
    }
    let b = s[i];
    if (0x09 <= b && b <= 0x0d) || b == 0x20 {
        1
    } else if i + 1 < n && b == 0xc2 && (s[i + 1] == 0x85 || s[i + 1] == 0xa0) {
        2
    } else if i + 1 < n && i + 2 < n && ((b == 0xe1 && s[i + 1] == 0x9a && s[i + 2] == 0x80) || (b == 0xe2 && s[i + 1] == 0x80
        && ((0x80 <= s[i + 2] && s[i + 2] <= 0x8a) || s[i + 2] == 0xa8 || s[i + 2] == 0xa9 || s[i + 2] == 0xaf)) || (b
        == 0xe2 && s[i + 1] == 0x81 && s[i + 2] == 0x9f) || (b == 0xe3 && s[i + 1] == 0x80 && s[i + 2] == 0x80)) {
        3
    } else {
        0
    }
}

fn ws_skip_exec(s: &[u8], i: usize) -> (r: usize)
    requires
        i <= s@.len(),
    ensures
        r == ws_skip(s@, i as int),
        i <= r <= s@.len(),
{
    let n = s.len();
    let mut p = i;
    loop
        invariant
            n == s@.len(),
            i <= p <= s@.len(),
            ws_skip(s@, p as int) == ws_skip(s@, i as int),
        decreases s@.len() - p,
    {
        let w = ws_at_exec(s, p);
        if w == 0 {
            return p;
        }
        p = p + w;
    }
}

fn ws_before_exec(s: &[u8], lo: usize, j: usize) -> (r: usize)
    requires
        lo <= j <= s@.len(),
    ensures
        r == ws_before(s@, lo as int, j as int),
        r <= j - lo,
{
    if j >= 1 && j - 1 >= lo && ws_at_exec(s, j - 1) == 1 {
        1
    } else if j >= 2 && j - 2 >= lo && ws_at_exec(s, j - 2) == 2 {
        2
    } else if j >= 3 && j - 3 >= lo && ws_at_exec(s, j - 3) == 3 {
        3
    } else {
        0
    }
}

fn ws_skip_back_exec(s: &[u8], lo: usize, j: usize) -> (r: usize)
    requires
        lo <= j <= s@.len(),
    ensures
        r == ws_skip_back(s@, lo as int, j as int),
        lo <= r <= j,
{
    let mut q = j;
    loop
        invariant
            lo <= q <= j <= s@.len(),
            ws_skip_back(s@, lo as int, q as int) == ws_skip_back(s@, lo as int, j as int),
        decreases q - lo,
    {
        let w = ws_before_exec(s, lo, q);
        if w == 0 {
            return q;
        }
        q = q - w;
    }
}

fn rubocop_prefix_exec(s: &[u8], i: usize) -> (r: Option<usize>)
    requires
        i <= s@.len(),
    ensures
        match r {
            Some(p) => rubocop_prefix(s@, i as int) == Some(p as int) && p <= s@.len(),
            None => rubocop_prefix(s@, i as int) is None,
        },
{
    let n = s.len();
    let pat: Vec<u8> = vec![0x72, 0x75, 0x62, 0x6f, 0x63, 0x6f, 0x70];
    assert(pat@ =~= rubocop_word());
    if occurs_at_exec(s, pat.as_slice(), i) {
        let p = ws_skip_exec(s, i + 7);
        if p < n && s[p] == COLON {
            Some(p + 1)
        } else {
            None
        }
    } else {
        None
    }
}

/// Where the directive of a line starts, if it has one.
pub fn find_directive_start(line: &[u8]) -> (r: Option<usize>)
    ensures
        match r {
            Some(h) => directive_from(line@, 0, false) == Some(h as int) && h < line@.len(),
            None => directive_from(line@, 0, false) is None,
        },
{
    let n = line.len();
    let mut from: usize = 0;
    let mut seen = false;
    loop
        invariant
            from <= n == line@.len(),
            directive_from(line@, from as int, seen) == directive_from(line@, 0, false),
        decreases n - from,
    {
        let mut h = from;
        while h < n && line[h] != HASH
            invariant
                from <= h <= n == line@.len(),
                next_hash(line@, h as int) == next_hash(line@, from as int),
            decreases n - h,
        {
            h = h + 1;
        }
        if h >= n {
            return None;
        }
        let after = ws_skip_exec(line, h + 1);
        if rubocop_prefix_exec(line, after).is_some() {
            let e = ws_skip_back_exec(line, 0, h);
            if e > 0 && (line[e - 1] == HASH || line[e - 1] == DQUOTE || line[e - 1] == QUOTE) {
                from = h + 1;
            } else if seen {
                return None;
            } else {
                return Some(h);
            }
        } else {
            seen = true;
            from = h + 1;
        }
    }
}


/// A comma-separated part of a cop list holds white space between two
/// words once trimmed.
pub open spec fn segment_has_gap(t: Seq<u8>) -> bool {
    let lo = ws_skip(t, 0);
    let hi = ws_skip_back(t, lo, t.len() as int);
    exists|k: int| lo <= k < hi && #[trigger] ws_at(t, k) > 0
}

/// Some comma-separated part of `c` has a gap.
pub open spec fn some_segment_has_gap(c: Seq<u8>) -> bool {
    let parts = split_on(c, seq![COMMA]);
    exists|j: int| 0 <= j < parts.len() && segment_has_gap(#[trigger] parts[j])
}

/// Whether the cop list `c` (what follows the mode) is malformed: before
/// a ` -- ` comment, a comma-separated part holds more than one word, or
/// a second `# rubocop:` directive appears. A list that starts with `--`
/// is a bare comment.
pub open spec fn cop_list_malformed(c: Seq<u8>) -> bool {
    let part = match find_from(c, " -- ".spec_bytes(), 0) {
        Some(k) => Some(c.subrange(0, k)),
        None => if starts_with(c, "--".spec_bytes()) {
            None
        } else {
            Some(c)
        },
    };
    match part {
        Some(p) => some_segment_has_gap(p) || find_from(p, "# rubocop:".spec_bytes(), 0) is Some
            || find_from(p, "#rubocop:".spec_bytes(), 0) is Some,
        None => false,
    }
}

proof fn lemma_ws_skip_bounds(s: Seq<u8>, i: int)
    requires
        0 <= i,
    ensures
        i <= ws_skip(s, i),
        i <= s.len() ==> ws_skip(s, i) <= s.len(),
    decreases (if i < s.len() { s.len() - i } else { 0 }),
{
    if ws_at(s, i) > 0 {
        lemma_ws_skip_bounds(s, i + ws_at(s, i));
    }
}

proof fn lemma_ws_skip_back_bounds(s: Seq<u8>, lo: int, j: int)
    requires
        lo <= j,
    ensures
        lo <= ws_skip_back(s, lo, j) <= j,
    decreases (if j > lo { j - lo } else { 0 }),
{
    if ws_before(s, lo, j) > 0 {
        lemma_ws_skip_back_bounds(s, lo, j - ws_before(s, lo, j));
    }
}

fn segment_has_gap_exec(t: &[u8]) -> (r: bool)
    ensures
        r == segment_has_gap(t@),
{
    let n = t.len();
    proof {
        lemma_ws_skip_bounds(t@, 0);
    }
    let lo = ws_skip_exec(t, 0);
    let hi = ws_skip_back_exec(t, lo, n);
    let mut k = lo;
    while k < hi
        invariant
            n == t@.len(),
            lo == ws_skip(t@, 0),
            hi == ws_skip_back(t@, lo as int, n as int),
            lo <= k <= hi <= n,
            forall|j: int| lo <= j < k ==> #[trigger] ws_at(t@, j) == 0,
        decreases hi - k,
    {
        if ws_at_exec(t, k) > 0 {
            return true;
        }
        k = k + 1;
    }
    false
}

fn some_segment_has_gap_exec(c: &[u8]) -> (r: bool)
    ensures
        r == some_segment_has_gap(c@),
    decreases c@.len(),
{
    let comma: Vec<u8> = vec![COMMA];
    assert(comma@ =~= seq![COMMA]);
    let n = c.len();
    match find_from_exec(c, comma.as_slice(), 0) {
        Some(i) => {
            proof {
                lemma_find_from(c@, seq![COMMA], 0);
            }
            let head = &c[0..i];
            let rest = &c[i + 1..n];
            assert(head@ =~= c@.subrange(0, i as int));
            assert(rest@ =~= c@.subrange(i + 1, n as int));
            let g = segment_has_gap_exec(head);
            let r = some_segment_has_gap_exec(rest);
            let ghost parts = split_on(c@, seq![COMMA]);
            let ghost tail = split_on(rest@, seq![COMMA]);
            assert(parts =~= seq![head@] + tail);
            if g {
                assert(segment_has_gap(parts[0]));
            } else if r {
                let ghost j = choose|j: int| 0 <= j < tail.len() && segment_has_gap(#[trigger] tail[j]);
                assert(parts[j + 1] == tail[j]);
            } else {
                assert forall|j: int| 0 <= j < parts.len() implies !segment_has_gap(#[trigger] parts[j]) by {
                    if j > 0 {
                        assert(parts[j] == tail[j - 1]);
                    }
                }
            }
            g || r
        },
        None => {
            let ghost parts = split_on(c@, seq![COMMA]);
            assert(parts =~= seq![c@]);
            let g = segment_has_gap_exec(c);
            if g {
                assert(segment_has_gap(parts[0]));
            }
            g
        },
    }
}

/// Whether the cop list that follows a directive's mode is malformed.
pub fn is_malformed_cop_list(cops: &[u8]) -> (r: bool)
    ensures
        r == cop_list_malformed(cops@),
{
    let n = cops.len();
    let part: &[u8] = match find_from_exec(cops, " -- ".as_bytes(), 0) {
        Some(k) => {
            proof {
                lemma_find_from(cops@, " -- ".spec_bytes(), 0);
            }
            let p = &cops[0..k];
            assert(p@ =~= cops@.subrange(0, k as int));
            p
        },
        None => {
            let dd = "--".as_bytes();
            if dd.len() <= n && bytes_eq_range(cops, 0, dd.len(), dd) {
                return false;
            }
            assert(cops@ =~= cops@.subrange(0, n as int));
            cops
        },
    };
    some_segment_has_gap_exec(part) || find_from_exec(part, "# rubocop:".as_bytes(), 0).is_some()
        || find_from_exec(part, "#rubocop:".as_bytes(), 0).is_some()
}


pub const MISSING_MODE_MESSAGE: &'static str = "Malformed directive comment detected. The mode name is missing.";

pub const UNKNOWN_MODE_MESSAGE: &'static str =
    "Malformed directive comment detected. The mode name must be one of `enable`, `disable`, `todo`, `push`, or `pop`.";

pub const MISSING_COP_NAME_MESSAGE: &'static str = "Malformed directive comment detected. The cop name is missing.";

pub const MALFORMED_COP_LIST_MESSAGE: &'static str =
    "Malformed directive comment detected. Cop names must be separated by commas. Comment in the directive must start with `--`.";

/// What is wrong with a directive comment.
#[derive(Clone, Copy, Debug, PartialEq, Eq, Structural)]
pub enum DirectiveProblem {
    MissingMode,
    UnknownMode,
    MissingCopName,
    MalformedCopList,
}

pub open spec fn problem_message(p: DirectiveProblem) -> Seq<u8> {
    match p {
        DirectiveProblem::MissingMode => MISSING_MODE_MESSAGE.spec_bytes(),
        DirectiveProblem::UnknownMode => UNKNOWN_MODE_MESSAGE.spec_bytes(),
        DirectiveProblem::MissingCopName => MISSING_COP_NAME_MESSAGE.spec_bytes(),
        DirectiveProblem::MalformedCopList => MALFORMED_COP_LIST_MESSAGE.spec_bytes(),
    }
}

/// The message of a problem.
pub fn problem_text(p: DirectiveProblem) -> (r: Vec<u8>)
    ensures
        r@ == problem_message(p),
{
    match p {
        DirectiveProblem::MissingMode => message(MISSING_MODE_MESSAGE),
        DirectiveProblem::UnknownMode => message(UNKNOWN_MODE_MESSAGE),
        DirectiveProblem::MissingCopName => message(MISSING_COP_NAME_MESSAGE),
        DirectiveProblem::MalformedCopList => message(MALFORMED_COP_LIST_MESSAGE),
    }
}

/// The first ASCII white space at or after `i`, or the end.
pub open spec fn word_end(s: Seq<u8>, i: int) -> int
    decreases (if i < s.len() { s.len() - i } else { 0 }),
{
    if i < 0 || i >= s.len() || spec_is_ascii_whitespace(s[i]) {
        i
    } else {
        word_end(s, i + 1)
    }
}

/// One of the modes a directive can have.
pub open spec fn is_directive_mode(m: Seq<u8>) -> bool {
    m == "enable".spec_bytes() || m == "disable".spec_bytes() || m == "todo".spec_bytes() || m == "push".spec_bytes()
        || m == "pop".spec_bytes()
}

/// `push` and `pop` need no cop names.
pub open spec fn is_stack_mode(m: Seq<u8>) -> bool {
    m == "push".spec_bytes() || m == "pop".spec_bytes()
}

/// What is wrong with the directive whose `#` is at `h` of `line`, if it is
/// a directive: after `rubocop:` comes a mode, then (but for `push` and
/// `pop`) a cop list.
pub open spec fn directive_problem(line: Seq<u8>, h: int) -> Option<DirectiveProblem> {
    match rubocop_prefix(line, ws_skip(line, h + 1)) {
        None => None,
        Some(c) => {
            let a = ws_skip(line, c);
            if a >= line.len() {
                Some(DirectiveProblem::MissingMode)
            } else {
                let m = word_end(line, a);
                let mode = line.subrange(a, m);
                let rest = line.subrange(ws_skip(line, m), line.len() as int);
                if !is_directive_mode(mode) {
                    Some(DirectiveProblem::UnknownMode)
                } else if rest.len() == 0 && !is_stack_mode(mode) {
                    Some(DirectiveProblem::MissingCopName)
                } else if rest.len() > 0 && cop_list_malformed(rest) {
                    Some(DirectiveProblem::MalformedCopList)
                } else {
                    None
                }
            }
        }
    }
}

proof fn lemma_word_end_bounds(s: Seq<u8>, i: int)
    requires
        0 <= i <= s.len(),
    ensures
        i <= word_end(s, i) <= s.len(),
    decreases s.len() - i,
{
    if i < s.len() && !spec_is_ascii_whitespace(s[i]) {
        lemma_word_end_bounds(s, i + 1);
    }
}

fn word_end_exec(s: &[u8], i: usize) -> (r: usize)
    requires
        i <= s@.len(),
    ensures
        r == word_end(s@, i as int),
        i <= r <= s@.len(),
{
    let n = s.len();
    let mut k = i;
    while k < n && !is_ascii_whitespace(s[k])
        invariant
            n == s@.len(),
            i <= k <= n,
            word_end(s@, k as int) == word_end(s@, i as int),
        decreases n - k,
    {
        k = k + 1;
    }
    k
}

/// What is wrong with the directive whose `#` is at `h` of `line`.
pub fn directive_problem_at(line: &[u8], h: usize) -> (r: Option<DirectiveProblem>)
    requires
        h < line@.len(),
    ensures
        r == directive_problem(line@, h as int),
{
    let n = line.len();
    let after = ws_skip_exec(line, h + 1);
    match rubocop_prefix_exec(line, after) {
        None => None,
        Some(c) => {
            let a = ws_skip_exec(line, c);
            if a >= n {
                return Some(DirectiveProblem::MissingMode);
            }
            let m = word_end_exec(line, a);
            let mode = &line[a..m];
            assert(mode@ =~= line@.subrange(a as int, m as int));
            let b = ws_skip_exec(line, m);
            let rest = &line[b..n];
            assert(rest@ =~= line@.subrange(b as int, n as int));
            let is_push_pop = bytes_eq(mode, "push".as_bytes()) || bytes_eq(mode, "pop".as_bytes());
            let known = is_push_pop || bytes_eq(mode, "enable".as_bytes()) || bytes_eq(mode, "disable".as_bytes())
                || bytes_eq(mode, "todo".as_bytes());
            if !known {
                Some(DirectiveProblem::UnknownMode)
            } else if rest.len() == 0 && !is_push_pop {
                Some(DirectiveProblem::MissingCopName)
            } else if rest.len() > 0 && is_malformed_cop_list(rest) {
                Some(DirectiveProblem::MalformedCopList)
            } else {
                None
            }
        },
    }
}


/// The offense of line `k` of `s`, split as `spans`: the column of its
/// directive's `#` and what is wrong. Lines that are not UTF-8 and
/// directives inside strings are passed over.
pub open spec fn line_offense(s: Seq<u8>, spans: Seq<(usize, usize)>, map: CodeMap, k: int) -> Option<(int, DirectiveProblem)> {
    let line = s.subrange(spans[k].0 as int, spans[k].1 as int);
    if !is_utf8(line) {
        None
    } else {
        match directive_from(line, 0, false) {
            None => None,
            Some(h) => if !map.spec_is_not_string(spans[k].0 + h) {
                None
            } else {
                match directive_problem(line, h) {
                    Some(p) => Some((h, p)),
                    None => None,
                }
            },
        }
    }
}

/// The offenses of the first `n` lines: line index, column and problem,
/// in order.
pub open spec fn directive_offenses(s: Seq<u8>, spans: Seq<(usize, usize)>, map: CodeMap, n: int) -> Seq<(int, int, DirectiveProblem)>
    decreases n,
{
    if n <= 0 {
        seq![]
    } else {
        let prev = directive_offenses(s, spans, map, n - 1);
        match line_offense(s, spans, map, n - 1) {
            Some((h, p)) => prev.push((n - 1, h, p)),
            None => prev,
        }
    }
}

/// `diags` reports `offs` in order, on lines counted from 1.
pub open spec fn reports_offenses(offs: Seq<(int, int, DirectiveProblem)>, diags: Seq<Diagnostic>) -> bool {
    &&& diags.len() == offs.len()
    &&& forall|k: int|
        0 <= k < offs.len() ==> {
            &&& (#[trigger] diags[k]).location.line == offs[k].0 + 1
            &&& diags[k].location.column == offs[k].1
            &&& diags[k].message@ == problem_message(offs[k].2)
            &&& !diags[k].corrected
        }
}

impl CopDirectiveSyntax {
    pub fn name(&self) -> (r: &'static str)
        ensures
            r@ == "Lint/CopDirectiveSyntax"@,
    {
        "Lint/CopDirectiveSyntax"
    }

    /// The cop is off unless a configuration enables it.
    pub fn default_enabled(&self) -> (r: bool)
        ensures
            !r,
    {
        false
    }

    /// Reports each malformed `# rubocop:` directive, one per line at most,
    /// at its `#`.
    pub fn check_source(&self, source: &[u8], code_map: &CodeMap) -> (r: Vec<Diagnostic>)
        ensures
            forall|spans: Seq<(usize, usize)>|
                is_line_split(source@, spans) ==> reports_offenses(
                    directive_offenses(source@, spans, *code_map, spans.len() as int),
                    r@,
                ),
    {
        let spans = line_spans(source);
        let mut diags: Vec<Diagnostic> = Vec::new();
        let mut i: usize = 0;
        while i < spans.len()
            invariant
                is_line_split(source@, spans@),
                i <= spans@.len(),
                reports_offenses(directive_offenses(source@, spans@, *code_map, i as int), diags@),
            decreases spans@.len() - i,
        {
            let ghost prev = directive_offenses(source@, spans@, *code_map, i as int);
            let ghost d0 = diags@;
            let (ls, le) = spans[i];
            assert(spans@[i as int].0 <= spans@[i as int].1 <= source@.len());
            let line = &source[ls..le];
            assert(line@ =~= source@.subrange(ls as int, le as int));
            if utf8_valid(line) {
                match find_directive_start(line) {
                    Some(h) => {
                        if code_map.is_not_string(ls + h) {
                            match directive_problem_at(line, h) {
                                Some(p) => {
                                    diags.push(
                                        Diagnostic {
                                            location: Location { line: i + 1, column: h },
                                            message: problem_text(p),
                                            corrected: false,
                                        },
                                    );
                                    assert(forall|k: int| 0 <= k < d0.len() ==> diags@[k] == d0[k]);
                                },
                                None => {},
                            }
                        }
                    },
                    None => {},
                }
            }
            i = i + 1;
        }
        proof {
            assert forall|spans2: Seq<(usize, usize)>| is_line_split(source@, spans2) implies reports_offenses(
                directive_offenses(source@, spans2, *code_map, spans2.len() as int),
                diags@,
            ) by {
                lemma_line_split_unique(source@, spans@, spans2);
            }
        }
        diags
    }
}


/// The modes a directive may name: `enable`, `disable`, `todo`, `push`
/// and `pop`, and no other.
pub proof fn law_directive_modes_listed(m: Seq<u8>)
    ensures
        is_directive_mode(m) <==> (m == "enable".spec_bytes() || m == "disable".spec_bytes() || m == "todo".spec_bytes() || m == "push".spec_bytes() || m == "pop".spec_bytes()),
{
}

} // verus!
