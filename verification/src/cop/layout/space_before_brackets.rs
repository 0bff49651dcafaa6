//! Layout/SpaceBeforeBrackets: no space between a receiver and the `[` of
//! an element reference.
use vstd::prelude::*;
use vstd::string::StringSliceAdditionalSpecFns;
use crate::ascii::{BACKSLASH, LBRACKET};
use crate::diagnostic::{message, Diagnostic, Location};
use crate::text::{
    blank_run_end, bytes_eq, lemma_blank_run_end_bounds, offset_to_line_col, skip_blanks,
    spec_is_blank, spec_line_col, CARRIAGE_RETURN, NEWLINE,
};

verus! {

pub struct SpaceBeforeBrackets;

pub const SPACE_BEFORE_BRACKETS_MESSAGE: &'static str = "Remove the space before the opening brackets.";

/// What the cop reads of a node: an element reference or an element
/// assignment, with the offsets of its parts.
pub enum BracketNode {
    /// A method call: its name, whether it is written with `.` or `&.`,
    /// where its receiver ends and where its opening bracket starts.
    Call {
        name: Vec<u8>,
        has_call_operator: bool,
        receiver_end: Option<usize>,
        opening_start: Option<usize>,
    },
    /// `recv[i] op= v`, `recv[i] &&= v` or `recv[i] ||= v`.
    IndexWrite { receiver_end: Option<usize>, opening_start: usize },
    /// `recv[i] op= v` and the like as a call write: the name of the read
    /// method, whether it is written with a call operator, where its
    /// receiver ends and where the whole node ends.
    CallWrite {
        read_name: Vec<u8>,
        has_call_operator: bool,
        receiver_end: Option<usize>,
        node_end: usize,
    },
    /// Any other node.
    Other,
}

pub open spec fn spec_is_horizontal_space(b: u8) -> bool {
    spec_is_blank(b)
}

/// A gap of spaces and tabs, possibly continued onto the next line by a
/// backslash and a line break.
pub open spec fn spec_is_bracket_gap(g: Seq<u8>) -> bool {
    let p = blank_run_end(g, 0);
    g.len() > 0 && (p == g.len() || (g[p] == BACKSLASH && {
        let a = g.subrange(p + 1, g.len() as int);
        (a.len() >= 2 && a[0] == CARRIAGE_RETURN && a[1] == NEWLINE && blank_run_end(a, 2)
            == a.len()) || (a.len() >= 1 && a[0] == NEWLINE && blank_run_end(a, 1) == a.len())
    }))
}

/// The first `[` in `s[from..to)`.
pub open spec fn first_bracket(s: Seq<u8>, from: int, to: int) -> Option<int>
    decreases to - from,
{
    if from >= to {
        None
    } else if s[from] == LBRACKET {
        Some(from)
    } else {
        first_bracket(s, from + 1, to)
    }
}

/// The offense, if any, for a receiver that ends at `receiver_end` and a
/// bracket that opens at `selector_start`: where it is reported.
pub open spec fn bracket_gap_offense(s: Seq<u8>, receiver_end: int, selector_start: Option<int>) -> Option<int> {
    match selector_start {
        Some(sel) => if receiver_end < sel && spec_is_bracket_gap(s.subrange(receiver_end, sel)) {
            Some(receiver_end)
        } else {
            None
        },
        None => None,
    }
}

pub open spec fn opt_int(o: Option<usize>) -> Option<int> {
    match o {
        Some(v) => Some(v as int),
        None => None,
    }
}

pub open spec fn is_index_name(name: Seq<u8>) -> bool {
    name == "[]".spec_bytes() || name == "[]=".spec_bytes()
}

/// Where the cop reports an offense for `node`, if it does.
pub open spec fn bracket_node_offense(s: Seq<u8>, node: BracketNode) -> Option<int> {
    match node {
        BracketNode::Call { name, has_call_operator, receiver_end, opening_start } => {
            if !is_index_name(name@) || has_call_operator {
                None
            } else {
                match receiver_end {
                    Some(re) => bracket_gap_offense(s, re as int, opt_int(opening_start)),
                    None => None,
                }
            }
        },
        BracketNode::IndexWrite { receiver_end, opening_start } => match receiver_end {
            Some(re) => bracket_gap_offense(s, re as int, Some(opening_start as int)),
            None => None,
        },
        BracketNode::CallWrite { read_name, has_call_operator, receiver_end, node_end } => {
            if read_name@ != "[]".spec_bytes() || has_call_operator {
                None
            } else {
                match receiver_end {
                    Some(re) => bracket_gap_offense(
                        s,
                        re as int,
                        first_bracket(s, re as int, node_end as int),
                    ),
                    None => None,
                }
            }
        },
        BracketNode::Other => None,
    }
}

/// The offsets a node mentions lie in the source.
pub open spec fn bracket_node_in_bounds(len: int, node: BracketNode) -> bool {
    match node {
        BracketNode::Call { receiver_end, opening_start, .. } => (match receiver_end {
            Some(v) => v <= len,
            None => true,
        }) && (match opening_start {
            Some(v) => v <= len,
            None => true,
        }),
        BracketNode::IndexWrite { receiver_end, opening_start } => opening_start <= len && (
        match receiver_end {
            Some(v) => v <= len,
            None => true,
        }),
        BracketNode::CallWrite { receiver_end, node_end, .. } => node_end <= len && (
        match receiver_end {
            Some(v) => v <= node_end,
            None => true,
        }),
        BracketNode::Other => true,
    }
}

/// One diagnostic at `off` with `msg`, or none.
pub open spec fn pushed_at(s: Seq<u8>, old: Seq<Diagnostic>, new: Seq<Diagnostic>, off: Option<int>, msg: Seq<u8>) -> bool {
    match off {
        Some(o) => {
            &&& new.len() == old.len() + 1
            &&& new.subrange(0, old.len() as int) == old
            &&& new.last().location.line == spec_line_col(s, o).0
            &&& new.last().location.column == spec_line_col(s, o).1
            &&& new.last().message@ == msg
            &&& !new.last().corrected
        },
        None => new == old,
    }
}

pub fn is_horizontal_space(byte: u8) -> (r: bool)
    ensures
        r == spec_is_horizontal_space(byte),
{
    crate::text::is_blank(byte)
}

/// Whether the bytes between a receiver and `[` are a gap to report.
pub fn is_bracket_gap(gap: &[u8]) -> (r: bool)
    ensures
        r == spec_is_bracket_gap(gap@),
{
    if gap.len() == 0 {
        return false;
    }
    let p = skip_blanks(gap, 0);
    if p == gap.len() {
        return true;
    }
    if gap[p] != BACKSLASH {
        return false;
    }
    let a = &gap[p + 1..gap.len()];
    assert(a@ == gap@.subrange(p + 1, gap@.len() as int));
    if a.len() >= 2 && a[0] == CARRIAGE_RETURN && a[1] == NEWLINE {
        return skip_blanks(a, 2) == a.len();
    }
    if a.len() >= 1 && a[0] == NEWLINE {
        return skip_blanks(a, 1) == a.len();
    }
    false
}

/// Reports the gap between a receiver ending at `receiver_end` and the
/// bracket opening at `selector_start`, if it is one.
pub fn check_receiver_gap_before_brackets(
    source: &[u8],
    receiver_end: usize,
    selector_start: Option<usize>,
    diagnostics: &mut Vec<Diagnostic>,
)
    requires
        source@.len() < usize::MAX,
        receiver_end <= source@.len(),
        selector_start matches Some(v) ==> v <= source@.len(),
    ensures
        pushed_at(
            source@,
            old(diagnostics)@,
            final(diagnostics)@,
            bracket_gap_offense(source@, receiver_end as int, opt_int(selector_start)),
            SPACE_BEFORE_BRACKETS_MESSAGE.spec_bytes(),
        ),
{
    let selector_start = match selector_start {
        Some(v) => v,
        None => {
            return ;
        },
    };
    if receiver_end >= selector_start {
        return ;
    }
    let gap = &source[receiver_end..selector_start];
    if !is_bracket_gap(gap) {
        return ;
    }
    let (line, column) = offset_to_line_col(source, receiver_end);
    let ghost before = diagnostics@;
    diagnostics.push(
        Diagnostic {
            location: Location { line, column },
            message: message(SPACE_BEFORE_BRACKETS_MESSAGE),
            corrected: false,
        },
    );
    assert(diagnostics@.subrange(0, before.len() as int) =~= before);
}

/// Reports the gap before the first `[` between `receiver_end` and
/// `node_end`, if it is one.
pub fn check_receiver_gap_before_scanned_brackets(
    source: &[u8],
    receiver_end: usize,
    node_end: usize,
    diagnostics: &mut Vec<Diagnostic>,
)
    requires
        source@.len() < usize::MAX,
        receiver_end <= node_end <= source@.len(),
    ensures
        pushed_at(
            source@,
            old(diagnostics)@,
            final(diagnostics)@,
            bracket_gap_offense(
                source@,
                receiver_end as int,
                first_bracket(source@, receiver_end as int, node_end as int),
            ),
            SPACE_BEFORE_BRACKETS_MESSAGE.spec_bytes(),
        ),
{
    let mut k = receiver_end;
    while k < node_end && source[k] != LBRACKET
        invariant
            receiver_end <= k <= node_end <= source@.len(),
            first_bracket(source@, k as int, node_end as int) == first_bracket(
                source@,
                receiver_end as int,
                node_end as int,
            ),
        decreases node_end - k,
    {
        k = k + 1;
    }
    let selector = if k < node_end {
        Some(k)
    } else {
        None
    };
    check_receiver_gap_before_brackets(source, receiver_end, selector, diagnostics);
}

impl SpaceBeforeBrackets {
    pub fn name(&self) -> (r: &'static str)
        ensures
            r@ == "Layout/SpaceBeforeBrackets"@,
    {
        "Layout/SpaceBeforeBrackets"
    }

    /// Checks one node and appends its offense, if any, to `diagnostics`.
    pub fn check_node(&self, source: &[u8], node: &BracketNode, diagnostics: &mut Vec<Diagnostic>)
        requires
            source@.len() < usize::MAX,
            bracket_node_in_bounds(source@.len() as int, *node),
        ensures
            pushed_at(
                source@,
                old(diagnostics)@,
                final(diagnostics)@,
                bracket_node_offense(source@, *node),
                SPACE_BEFORE_BRACKETS_MESSAGE.spec_bytes(),
            ),
    {
        match node {
            BracketNode::Call { name, has_call_operator, receiver_end, opening_start } => {
                let n = name.as_slice();
                if !bytes_eq(n, "[]".as_bytes()) && !bytes_eq(n, "[]=".as_bytes()) {
                    return ;
                }
                if *has_call_operator {
                    return ;
                }
                match receiver_end {
                    Some(re) => {
                        check_receiver_gap_before_brackets(source, *re, *opening_start, diagnostics);
                    },
                    None => {},
                }
            },
            BracketNode::IndexWrite { receiver_end, opening_start } => {
                match receiver_end {
                    Some(re) => {
                        check_receiver_gap_before_brackets(
                            source,
                            *re,
                            Some(*opening_start),
                            diagnostics,
                        );
                    },
                    None => {},
                }
            },
            BracketNode::CallWrite { read_name, has_call_operator, receiver_end, node_end } => {
                if !bytes_eq(read_name.as_slice(), "[]".as_bytes()) || *has_call_operator {
                    return ;
                }
                match receiver_end {
                    Some(re) => {
                        check_receiver_gap_before_scanned_brackets(
                            source,
                            *re,
                            *node_end,
                            diagnostics,
                        );
                    },
                    None => {},
                }
            },
            BracketNode::Other => {},
        }
    }
}

} // verus!
