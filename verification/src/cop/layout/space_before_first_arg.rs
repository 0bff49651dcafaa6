//! Layout/SpaceBeforeFirstArg: exactly one space between a method name and
//! its first argument in a call without parentheses.
use vstd::prelude::*;
use vstd::string::StringSliceAdditionalSpecFns;
use crate::ascii::EQUALS;
use crate::diagnostic::{message, Diagnostic, Location};
use crate::text::{
    blank_run_end, bytes_eq, is_blank, is_line_split, line_spans, line_start, line_start_of,
    offset_to_line_col, skip_blanks, spec_is_blank, spec_line_col, HASH,
};

verus! {

pub struct SpaceBeforeFirstArg;

pub const SPACE_BEFORE_FIRST_ARG_MESSAGE: &'static str = "Put one space between the method name and the first argument.";

/// A call as the cop reads it.
pub struct FirstArgCall {
    pub name: Vec<u8>,
    /// The call has an opening parenthesis.
    pub has_opening: bool,
    /// The span of the first argument, or of a block-pass argument `&blk`.
    pub first_argument: Option<(usize, usize)>,
    /// Where the method name ends, if the call has one.
    pub message_end: Option<usize>,
}

pub open spec fn operator_methods() -> Seq<Seq<u8>> {
    seq![
        "+".spec_bytes(), "-".spec_bytes(), "*".spec_bytes(), "/".spec_bytes(), "**".spec_bytes(),
        "%".spec_bytes(), "==".spec_bytes(), "!=".spec_bytes(), "<".spec_bytes(), ">".spec_bytes(),
        "<=".spec_bytes(), ">=".spec_bytes(), "<=>".spec_bytes(), "===".spec_bytes(), "=~".spec_bytes(),
        "!~".spec_bytes(), "&".spec_bytes(), "|".spec_bytes(), "^".spec_bytes(), "~".spec_bytes(),
        "<<".spec_bytes(), ">>".spec_bytes(), "[]".spec_bytes(), "[]=".spec_bytes(), "+@".spec_bytes(),
        "-@".spec_bytes()
    ]
}

pub open spec fn spec_is_operator_method(name: Seq<u8>) -> bool {
    operator_methods().contains(name)
}

pub open spec fn spec_is_setter_method(name: Seq<u8>) -> bool {
    name.len() >= 2 && name.last() == EQUALS && !spec_is_operator_method(name)
}

pub open spec fn spec_line_indentation(line: Seq<u8>) -> int {
    blank_run_end(line, 0)
}

pub open spec fn spec_is_blank_or_comment(line: Seq<u8>) -> bool {
    let t = blank_run_end(line, 0);
    t >= line.len() || line[t] == HASH
}

/// Whether an argument at column `col` lines up with `adj`: a token starts
/// there after a blank, or the same argument text stands there.
pub open spec fn spec_check_alignment_at(adj: Seq<u8>, col: int, arg: Seq<u8>) -> bool {
    col < adj.len() && ((!spec_is_blank(adj[col]) && col > 0 && spec_is_blank(adj[col - 1])) || (arg.len() > 0
        && col + arg.len() <= adj.len() && adj.subrange(col, col + arg.len()) == arg))
}

pub open spec fn line_of(s: Seq<u8>, spans: Seq<(usize, usize)>, k: int) -> Seq<u8> {
    s.subrange(spans[k].0 as int, spans[k].1 as int)
}

/// A line that a neighbour search stops at: not blank, not a comment, and
/// with the required indentation if one is given.
pub open spec fn qualifies(s: Seq<u8>, spans: Seq<(usize, usize)>, k: int, indent: Option<int>) -> bool {
    !spec_is_blank_or_comment(line_of(s, spans, k)) && match indent {
        Some(i) => spec_line_indentation(line_of(s, spans, k)) == i,
        None => true,
    }
}

pub open spec fn nearest_up(s: Seq<u8>, spans: Seq<(usize, usize)>, idx: int, indent: Option<int>) -> Option<int>
    decreases idx,
{
    if idx <= 0 {
        None
    } else if qualifies(s, spans, idx - 1, indent) {
        Some(idx - 1)
    } else {
        nearest_up(s, spans, idx - 1, indent)
    }
}

pub open spec fn nearest_down(s: Seq<u8>, spans: Seq<(usize, usize)>, idx: int, indent: Option<int>) -> Option<int>
    decreases spans.len() - idx,
{
    if idx + 1 >= spans.len() || idx < -1 {
        None
    } else if qualifies(s, spans, idx + 1, indent) {
        Some(idx + 1)
    } else {
        nearest_down(s, spans, idx + 1, indent)
    }
}

pub open spec fn aligned_at(s: Seq<u8>, spans: Seq<(usize, usize)>, k: Option<int>, col: int, arg: Seq<u8>) -> bool {
    k matches Some(j) && spec_check_alignment_at(line_of(s, spans, j), col, arg)
}

/// Whether the argument at column `col` of line `line` (1-based) lines
/// up with the nearest code line above or below, or else with the
/// nearest one above or below that has the same indentation.
pub open spec fn spec_is_aligned_with_adjacent(s: Seq<u8>, spans: Seq<(usize, usize)>, line: int, col: int, arg: Seq<u8>) -> bool {
    let cur = line - 1;
    let current = if 0 <= cur < spans.len() { line_of(s, spans, cur) } else { seq![] };
    let base = spec_line_indentation(current);
    aligned_at(s, spans, nearest_up(s, spans, cur, None), col, arg) || aligned_at(s, spans, nearest_down(s, spans, cur, None), col, arg)
        || aligned_at(s, spans, nearest_up(s, spans, cur, Some(base)), col, arg) || aligned_at(s, spans, nearest_down(s, spans, cur, Some(base)), col, arg)
}

/// Where the cop reports a call, if it does.
pub open spec fn first_arg_offense(s: Seq<u8>, spans: Seq<(usize, usize)>, call: FirstArgCall, allow_for_alignment: bool) -> Option<int> {
    if call.has_opening {
        None
    } else {
        match (call.first_argument, call.message_end) {
            (Some((a0, a1)), Some(me)) => {
                let arg_start = a0 as int;
                let method_end = me as int;
                if spec_is_operator_method(call.name@) || spec_is_setter_method(call.name@) {
                    None
                } else if spec_line_col(s, method_end).0 != spec_line_col(s, arg_start).0 {
                    None
                } else {
                    let gap = if arg_start > method_end { arg_start - method_end } else { 0 };
                    if gap == 0 {
                        Some(method_end)
                    } else if gap > 1 && blank_run_end(s.subrange(method_end, arg_start), 0) == gap {
                        if allow_for_alignment && spec_is_aligned_with_adjacent(
                            s,
                            spans,
                            spec_line_col(s, method_end).0,
                            arg_start - line_start(s, arg_start),
                            s.subrange(arg_start, a1 as int),
                        ) {
                            None
                        } else {
                            Some(method_end)
                        }
                    } else {
                        None
                    }
                }
            },
            _ => None,
        }
    }
}

pub fn is_operator_method(name: &[u8]) -> (r: bool)
    ensures
        r == spec_is_operator_method(name@),
{
    let ops: Vec<&'static str> = vec![
        "+", "-", "*", "/", "**", "%", "==", "!=", "<", ">", "<=", ">=", "<=>", "===", "=~", "!~", "&", "|", "^", "~", "<<", ">>", "[]", "[]=", "+@", "-@",
    ];
    let ghost all = operator_methods();
    assert(ops@.len() == all.len());
    assert(forall|k: int| 0 <= k < ops@.len() ==> (#[trigger] ops@[k]).spec_bytes() == all[k]);
    let mut i: usize = 0;
    while i < ops.len()
        invariant
            i <= ops@.len(),
            all == operator_methods(),
            ops@.len() == all.len(),
            forall|k: int| 0 <= k < ops@.len() ==> (#[trigger] ops@[k]).spec_bytes() == all[k],
            forall|k: int| 0 <= k < i ==> all[k] != name@,
        decreases ops@.len() - i,
    {
        if bytes_eq(name, ops[i].as_bytes()) {
            assert(all[i as int] == name@);
            return true;
        }
        i = i + 1;
    }
    proof {
        if all.contains(name@) {
            let k = choose|k: int| 0 <= k < all.len() && all[k] == name@;
            assert(all[k] != name@);
        }
    }
    false
}

pub fn is_setter_method(name: &[u8]) -> (r: bool)
    ensures
        r == spec_is_setter_method(name@),
{
    name.len() >= 2 && name[name.len() - 1] == EQUALS && !is_operator_method(name)
}

pub fn line_indentation(line: &[u8]) -> (r: usize)
    ensures
        r == spec_line_indentation(line@),
{
    skip_blanks(line, 0)
}

pub fn is_blank_or_comment(line: &[u8]) -> (r: bool)
    ensures
        r == spec_is_blank_or_comment(line@),
{
    let t = skip_blanks(line, 0);
    t >= line.len() || line[t] == HASH
}

pub fn check_alignment_at(adj_line: &[u8], col: usize, current_arg: &[u8]) -> (r: bool)
    ensures
        r == spec_check_alignment_at(adj_line@, col as int, current_arg@),
{
    if col >= adj_line.len() {
        return false;
    }
    if !is_blank(adj_line[col]) && col > 0 && is_blank(adj_line[col - 1]) {
        return true;
    }
    if current_arg.len() > 0 && current_arg.len() <= adj_line.len() - col {
        return crate::bytes::bytes_eq_range(adj_line, col, col + current_arg.len(), current_arg);
    }
    false
}

/// The nearest line above (`up`) or below line `current_idx` that is not
/// blank or a comment and, if `required_indent` is given, has that
/// indentation.
pub fn find_nearest_nonblank(source: &[u8], spans: &Vec<(usize, usize)>, current_idx: usize, up: bool, required_indent: Option<usize>) -> (r: Option<usize>)
    requires
        is_line_split(source@, spans@),
        current_idx < spans@.len(),
    ensures
        match r {
            Some(k) => k < spans@.len() && (if up {
                nearest_up(source@, spans@, current_idx as int, match required_indent { Some(i) => Some(i as int), None => None })
            } else {
                nearest_down(source@, spans@, current_idx as int, match required_indent { Some(i) => Some(i as int), None => None })
            }) == Some(k as int),
            None => (if up {
                nearest_up(source@, spans@, current_idx as int, match required_indent { Some(i) => Some(i as int), None => None })
            } else {
                nearest_down(source@, spans@, current_idx as int, match required_indent { Some(i) => Some(i as int), None => None })
            }) is None,
        },
{
    let ghost ind = match required_indent { Some(i) => Some(i as int), None => None };
    let mut idx = current_idx;
    loop
        invariant
            forall|k: int| 0 <= k < spans@.len() ==> #[trigger] spans@[k].0 <= spans@[k].1 <= source@.len(),
            idx < spans@.len(),
            ind == match required_indent { Some(i) => Some(i as int), None => None },
            (if up { nearest_up(source@, spans@, idx as int, ind) } else { nearest_down(source@, spans@, idx as int, ind) })
                == (if up { nearest_up(source@, spans@, current_idx as int, ind) } else { nearest_down(source@, spans@, current_idx as int, ind) }),
        decreases (if up { idx as int } else { spans@.len() - idx }),
    {
        if up {
            if idx == 0 {
                return None;
            }
            idx = idx - 1;
        } else {
            if idx >= spans.len() - 1 {
                return None;
            }
            idx = idx + 1;
        }
        let (a, b) = spans[idx];
        assert(spans@[idx as int].0 <= spans@[idx as int].1 <= source@.len());
        let line = &source[a..b];
        let skip = is_blank_or_comment(line) || match required_indent {
            Some(i) => line_indentation(line) != i,
            None => false,
        };
        if !skip {
            return Some(idx);
        }
    }
}

fn aligned_exec(source: &[u8], spans: &Vec<(usize, usize)>, k: Option<usize>, col: usize, arg: &[u8]) -> (r: bool)
    requires
        is_line_split(source@, spans@),
        k matches Some(j) ==> j < spans@.len(),
    ensures
        r == aligned_at(source@, spans@, match k { Some(j) => Some(j as int), None => None }, col as int, arg@),
{
    match k {
        Some(j) => {
            let (a, b) = spans[j];
            assert(spans@[j as int].0 <= spans@[j as int].1 <= source@.len());
            check_alignment_at(&source[a..b], col, arg)
        },
        None => false,
    }
}

/// Whether the argument at column `arg_col` of line `line` (1-based)
/// lines up with a neighbouring line.
pub fn is_aligned_with_adjacent(source: &[u8], spans: &Vec<(usize, usize)>, line: usize, arg_col: usize, current_arg: &[u8]) -> (r: bool)
    requires
        is_line_split(source@, spans@),
        1 <= line <= spans@.len(),
    ensures
        r == spec_is_aligned_with_adjacent(source@, spans@, line as int, arg_col as int, current_arg@),
{
    let cur = line - 1;
    let (a, b) = spans[cur];
    assert(spans@[cur as int].0 <= spans@[cur as int].1 <= source@.len());
    let current = &source[a..b];
    let base = line_indentation(current);
    let ups = find_nearest_nonblank(source, spans, cur, true, None);
    if aligned_exec(source, spans, ups, arg_col, current_arg) {
        return true;
    }
    let downs = find_nearest_nonblank(source, spans, cur, false, None);
    if aligned_exec(source, spans, downs, arg_col, current_arg) {
        return true;
    }
    let upb = find_nearest_nonblank(source, spans, cur, true, Some(base));
    if aligned_exec(source, spans, upb, arg_col, current_arg) {
        return true;
    }
    let downb = find_nearest_nonblank(source, spans, cur, false, Some(base));
    aligned_exec(source, spans, downb, arg_col, current_arg)
}

pub open spec fn first_arg_call_in_bounds(len: int, call: FirstArgCall) -> bool {
    &&& call.first_argument matches Some(a) ==> a.0 <= a.1 <= len
    &&& call.message_end matches Some(m) ==> m <= len
}

impl SpaceBeforeFirstArg {
    pub fn name(&self) -> (r: &'static str)
        ensures
            r@ == "Layout/SpaceBeforeFirstArg"@,
    {
        "Layout/SpaceBeforeFirstArg"
    }

    /// The offense for a call, if any. `allow_for_alignment` is the
    /// configured `AllowForAlignment`.
    pub fn check_node(&self, source: &[u8], call: &FirstArgCall, allow_for_alignment: bool) -> (r: Option<Diagnostic>)
        requires
            source@.len() < usize::MAX,
            first_arg_call_in_bounds(source@.len() as int, *call),
        ensures
            forall|spans: Seq<(usize, usize)>| is_line_split(source@, spans) ==> match first_arg_offense(source@, spans, *call, allow_for_alignment) {
                Some(at) => r matches Some(d) && d.location.line == spec_line_col(source@, at).0
                    && d.location.column == spec_line_col(source@, at).1
                    && d.message@ == SPACE_BEFORE_FIRST_ARG_MESSAGE.spec_bytes() && !d.corrected,
                None => r is None,
            },
    {
        let spans = line_spans(source);
        proof {
            assert forall|sp: Seq<(usize, usize)>| is_line_split(source@, sp) implies sp == spans@ by {
                crate::text::lemma_line_split_unique(source@, sp, spans@);
            }
        }
        if call.has_opening {
            return None;
        }
        let (arg_start, arg_end) = match call.first_argument {
            Some(a) => a,
            None => {
                return None;
            },
        };
        let method_end = match call.message_end {
            Some(m) => m,
            None => {
                return None;
            },
        };
        if is_operator_method(call.name.as_slice()) || is_setter_method(call.name.as_slice()) {
            return None;
        }
        let (method_line, _) = offset_to_line_col(source, method_end);
        let (arg_line, _) = offset_to_line_col(source, arg_start);
        if method_line != arg_line {
            return None;
        }
        let gap = if arg_start > method_end { arg_start - method_end } else { 0 };
        let report = if gap == 0 {
            true
        } else if gap > 1 && skip_blanks(&source[method_end..arg_start], 0) == gap {
            if allow_for_alignment {
                let ls = line_start_of(source, arg_start);
                proof {
                    crate::text::lemma_line_in_split(source@, spans@, method_end as int);
                }
                !is_aligned_with_adjacent(source, &spans, method_line, arg_start - ls, &source[arg_start..arg_end])
            } else {
                true
            }
        } else {
            false
        };
        if report {
            let (line, column) = offset_to_line_col(source, method_end);
            Some(Diagnostic { location: Location { line, column }, message: message(SPACE_BEFORE_FIRST_ARG_MESSAGE), corrected: false })
        } else {
            None
        }
    }
}


/// The operator methods, whose calls the cop leaves alone: `+ - * / ** %
/// == != < > <= >= <=> === =~ !~ & | ^ ~ << >> [] []= +@ -@`, and no
/// other name.
pub proof fn law_operator_methods_listed(name: Seq<u8>)
    ensures
        operator_methods().contains(name) <==> (name == "+".spec_bytes() || name == "-".spec_bytes() || name == "*".spec_bytes() || name == "/".spec_bytes() || name == "**".spec_bytes() || name == "%".spec_bytes() || name == "==".spec_bytes() || name == "!=".spec_bytes() || name == "<".spec_bytes() || name == ">".spec_bytes() || name == "<=".spec_bytes() || name == ">=".spec_bytes() || name == "<=>".spec_bytes() || name == "===".spec_bytes() || name == "=~".spec_bytes() || name == "!~".spec_bytes() || name == "&".spec_bytes() || name == "|".spec_bytes() || name == "^".spec_bytes() || name == "~".spec_bytes() || name == "<<".spec_bytes() || name == ">>".spec_bytes() || name == "[]".spec_bytes() || name == "[]=".spec_bytes() || name == "+@".spec_bytes() || name == "-@".spec_bytes()),
{
    let t = operator_methods();
    if name == "+".spec_bytes() || name == "-".spec_bytes() || name == "*".spec_bytes() || name == "/".spec_bytes() || name == "**".spec_bytes() || name == "%".spec_bytes() || name == "==".spec_bytes() || name == "!=".spec_bytes() || name == "<".spec_bytes() || name == ">".spec_bytes() || name == "<=".spec_bytes() || name == ">=".spec_bytes() || name == "<=>".spec_bytes() || name == "===".spec_bytes() || name == "=~".spec_bytes() || name == "!~".spec_bytes() || name == "&".spec_bytes() || name == "|".spec_bytes() || name == "^".spec_bytes() || name == "~".spec_bytes() || name == "<<".spec_bytes() || name == ">>".spec_bytes() || name == "[]".spec_bytes() || name == "[]=".spec_bytes() || name == "+@".spec_bytes() || name == "-@".spec_bytes() {
        if name == "+".spec_bytes() { assert(t[0] == name); }
        if name == "-".spec_bytes() { assert(t[1] == name); }
        if name == "*".spec_bytes() { assert(t[2] == name); }
        if name == "/".spec_bytes() { assert(t[3] == name); }
        if name == "**".spec_bytes() { assert(t[4] == name); }
        if name == "%".spec_bytes() { assert(t[5] == name); }
        if name == "==".spec_bytes() { assert(t[6] == name); }
        if name == "!=".spec_bytes() { assert(t[7] == name); }
        if name == "<".spec_bytes() { assert(t[8] == name); }
        if name == ">".spec_bytes() { assert(t[9] == name); }
        if name == "<=".spec_bytes() { assert(t[10] == name); }
        if name == ">=".spec_bytes() { assert(t[11] == name); }
        if name == "<=>".spec_bytes() { assert(t[12] == name); }
        if name == "===".spec_bytes() { assert(t[13] == name); }
        if name == "=~".spec_bytes() { assert(t[14] == name); }
        if name == "!~".spec_bytes() { assert(t[15] == name); }
        if name == "&".spec_bytes() { assert(t[16] == name); }
        if name == "|".spec_bytes() { assert(t[17] == name); }
        if name == "^".spec_bytes() { assert(t[18] == name); }
        if name == "~".spec_bytes() { assert(t[19] == name); }
        if name == "<<".spec_bytes() { assert(t[20] == name); }
        if name == ">>".spec_bytes() { assert(t[21] == name); }
        if name == "[]".spec_bytes() { assert(t[22] == name); }
        if name == "[]=".spec_bytes() { assert(t[23] == name); }
        if name == "+@".spec_bytes() { assert(t[24] == name); }
        if name == "-@".spec_bytes() { assert(t[25] == name); }
    } else if t.contains(name) {
        let k = choose|k: int| 0 <= k < t.len() && t[k] == name;
        assert(t[k] == name);
    }
}

} // verus!
