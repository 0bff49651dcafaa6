//! Layout/SpaceAroundMethodCallOperator: no space around `.`, `&.` and
//! `::` in a method call or constant path.
use vstd::prelude::*;
use vstd::string::StringSliceAdditionalSpecFns;
use crate::ascii::{AMP, DOT};
use crate::cop::layout::space_before_brackets::pushed_at;
use crate::diagnostic::{appended_at, lemma_appended_at_concat, message, Diagnostic, Location};
use crate::text::{blank_run_end, offset_to_line_col, skip_blanks, spec_line_col};

verus! {

pub struct SpaceAroundMethodCallOperator;

pub const METHOD_CALL_OPERATOR_MESSAGE: &'static str = "Avoid using spaces around a method call operator.";

/// What the cop reads of a node, as source offsets.
pub enum CallOperatorNode {
    /// A method call: where its receiver ends, the span of its call
    /// operator, and where its selector (or else its opening parenthesis)
    /// starts.
    Call {
        receiver_end: Option<usize>,
        call_operator: Option<(usize, usize)>,
        selector_start: Option<usize>,
    },
    /// `recv.attr op= value`: the same offsets, with the message start as
    /// the selector.
    CallOperatorWrite {
        receiver_end: Option<usize>,
        call_operator: Option<(usize, usize)>,
        message_start: Option<usize>,
    },
    /// `Foo::Bar`: whether it names a constant, where the `::` ends and
    /// where the name starts.
    ConstantPath { has_name: bool, delimiter_end: usize, name_start: usize },
    Other,
}

/// A gap to report: nonempty, only spaces and tabs, on one line.
pub open spec fn spacing_offense(s: Seq<u8>, gap_start: int, gap_end: int) -> bool {
    gap_end > gap_start && blank_run_end(s.subrange(gap_start, gap_end), 0) == gap_end - gap_start
        && spec_line_col(s, gap_start).0 == spec_line_col(s, gap_end).0
}

/// The diagnostics that `push_spacing_offense` appends.
pub open spec fn spacing_pushed(s: Seq<u8>, gap_start: int, gap_end: int) -> Seq<int> {
    if spacing_offense(s, gap_start, gap_end) {
        seq![gap_start]
    } else {
        seq![]
    }
}

/// Whether the operator `s[a..b)` is `.` or `&.`.
pub open spec fn is_dot_operator(s: Seq<u8>, a: int, b: int) -> bool {
    (b == a + 1 && s[a] == DOT) || (b == a + 2 && s[a] == AMP && s[a + 1] == DOT)
}

/// The offsets reported for a call with these parts, in order.
pub open spec fn call_operator_offenses(
    s: Seq<u8>,
    receiver_end: Option<usize>,
    call_operator: Option<(usize, usize)>,
    selector_start: Option<usize>,
) -> Seq<int> {
    match call_operator {
        Some(op) => if is_dot_operator(s, op.0 as int, op.1 as int) {
            (match receiver_end {
                Some(re) => spacing_pushed(s, re as int, op.0 as int),
                None => seq![],
            }) + (match selector_start {
                Some(ss) => spacing_pushed(s, op.1 as int, ss as int),
                None => seq![],
            })
        } else {
            seq![]
        },
        None => seq![],
    }
}

/// The offsets reported for a node, in order.
pub open spec fn method_call_operator_offenses(s: Seq<u8>, node: CallOperatorNode) -> Seq<int> {
    match node {
        CallOperatorNode::Call { receiver_end, call_operator, selector_start } =>
            call_operator_offenses(s, receiver_end, call_operator, selector_start),
        CallOperatorNode::CallOperatorWrite { receiver_end, call_operator, message_start } =>
            call_operator_offenses(s, receiver_end, call_operator, message_start),
        CallOperatorNode::ConstantPath { has_name, delimiter_end, name_start } => if has_name {
            spacing_pushed(s, delimiter_end as int, name_start as int)
        } else {
            seq![]
        },
        CallOperatorNode::Other => seq![],
    }
}

pub open spec fn opt_le(o: Option<usize>, len: int) -> bool {
    match o {
        Some(v) => v <= len,
        None => true,
    }
}

pub open spec fn call_operator_in_bounds(len: int, op: Option<(usize, usize)>) -> bool {
    match op {
        Some(p) => p.0 <= p.1 <= len,
        None => true,
    }
}

pub open spec fn call_operator_node_in_bounds(len: int, node: CallOperatorNode) -> bool {
    match node {
        CallOperatorNode::Call { receiver_end, call_operator, selector_start } => opt_le(
            receiver_end,
            len,
        ) && call_operator_in_bounds(len, call_operator) && opt_le(selector_start, len),
        CallOperatorNode::CallOperatorWrite { receiver_end, call_operator, message_start } =>
            opt_le(receiver_end, len) && call_operator_in_bounds(len, call_operator) && opt_le(
            message_start,
            len,
        ),
        CallOperatorNode::ConstantPath { delimiter_end, name_start, .. } => delimiter_end <= len
            && name_start <= len,
        CallOperatorNode::Other => true,
    }
}

/// Reports the gap `[gap_start, gap_end)` if it is nonempty, only spaces
/// and tabs, and on one line.
pub fn push_spacing_offense(source: &[u8], gap_start: usize, gap_end: usize, diagnostics: &mut Vec<Diagnostic>)
    requires
        source@.len() < usize::MAX,
        gap_end <= source@.len(),
    ensures
        appended_at(
            source@,
            old(diagnostics)@,
            final(diagnostics)@,
            spacing_pushed(source@, gap_start as int, gap_end as int),
            METHOD_CALL_OPERATOR_MESSAGE.spec_bytes(),
        ),
{
    proof {
        assert(diagnostics@.subrange(0, diagnostics@.len() as int) =~= diagnostics@);
    }
    if gap_end <= gap_start {
        return ;
    }
    let gap = &source[gap_start..gap_end];
    if skip_blanks(gap, 0) != gap.len() {
        return ;
    }
    let (start_line, start_col) = offset_to_line_col(source, gap_start);
    let (end_line, _) = offset_to_line_col(source, gap_end);
    if start_line != end_line {
        return ;
    }
    let ghost before = diagnostics@;
    diagnostics.push(
        Diagnostic {
            location: Location { line: start_line, column: start_col },
            message: message(METHOD_CALL_OPERATOR_MESSAGE),
            corrected: false,
        },
    );
    assert(diagnostics@.subrange(0, before.len() as int) =~= before);
}

/// Reports the spaces before and after a `.` or `&.` call operator.
pub fn check_call_operator_spacing(
    source: &[u8],
    receiver_end: Option<usize>,
    call_operator: Option<(usize, usize)>,
    selector_start: Option<usize>,
    diagnostics: &mut Vec<Diagnostic>,
)
    requires
        source@.len() < usize::MAX,
        opt_le(receiver_end, source@.len() as int),
        call_operator_in_bounds(source@.len() as int, call_operator),
        opt_le(selector_start, source@.len() as int),
    ensures
        appended_at(
            source@,
            old(diagnostics)@,
            final(diagnostics)@,
            call_operator_offenses(source@, receiver_end, call_operator, selector_start),
            METHOD_CALL_OPERATOR_MESSAGE.spec_bytes(),
        ),
{
    proof {
        assert(diagnostics@.subrange(0, diagnostics@.len() as int) =~= diagnostics@);
    }
    let (a, b) = match call_operator {
        Some(op) => op,
        None => {
            return ;
        },
    };
    let is_dot = (b - a == 1 && source[a] == DOT) || (b - a == 2 && source[a] == AMP && source[a
        + 1] == DOT);
    if !is_dot {
        return ;
    }
    let ghost d0 = diagnostics@;
    let ghost first = match receiver_end {
        Some(re) => spacing_pushed(source@, re as int, a as int),
        None => seq![],
    };
    let ghost second = match selector_start {
        Some(ss) => spacing_pushed(source@, b as int, ss as int),
        None => seq![],
    };
    match receiver_end {
        Some(re) => {
            push_spacing_offense(source, re, a, diagnostics);
        },
        None => {},
    }
    let ghost d1 = diagnostics@;
    assert(d1.subrange(0, d1.len() as int) =~= d1);
    assert(appended_at(source@, d0, d1, first, METHOD_CALL_OPERATOR_MESSAGE.spec_bytes()));
    match selector_start {
        Some(ss) => {
            push_spacing_offense(source, b, ss, diagnostics);
        },
        None => {},
    }
    let ghost d2 = diagnostics@;
    assert(appended_at(source@, d1, d2, second, METHOD_CALL_OPERATOR_MESSAGE.spec_bytes()));
    proof {
        lemma_appended_at_concat(source@, d0, d1, d2, first, second, METHOD_CALL_OPERATOR_MESSAGE.spec_bytes());
    }
}

impl SpaceAroundMethodCallOperator {
    pub fn name(&self) -> (r: &'static str)
        ensures
            r@ == "Layout/SpaceAroundMethodCallOperator"@,
    {
        "Layout/SpaceAroundMethodCallOperator"
    }

    /// Checks one node and appends its offenses to `diagnostics`.
    pub fn check_node(&self, source: &[u8], node: &CallOperatorNode, diagnostics: &mut Vec<Diagnostic>)
        requires
            source@.len() < usize::MAX,
            call_operator_node_in_bounds(source@.len() as int, *node),
        ensures
            appended_at(
                source@,
                old(diagnostics)@,
                final(diagnostics)@,
                method_call_operator_offenses(source@, *node),
                METHOD_CALL_OPERATOR_MESSAGE.spec_bytes(),
            ),
    {
        proof {
            assert(diagnostics@.subrange(0, diagnostics@.len() as int) =~= diagnostics@);
        }
        match node {
            CallOperatorNode::Call { receiver_end, call_operator, selector_start } => {
                check_call_operator_spacing(
                    source,
                    *receiver_end,
                    *call_operator,
                    *selector_start,
                    diagnostics,
                );
            },
            CallOperatorNode::CallOperatorWrite { receiver_end, call_operator, message_start } => {
                check_call_operator_spacing(
                    source,
                    *receiver_end,
                    *call_operator,
                    *message_start,
                    diagnostics,
                );
            },
            CallOperatorNode::ConstantPath { has_name, delimiter_end, name_start } => {
                if *has_name {
                    push_spacing_offense(source, *delimiter_end, *name_start, diagnostics);
                }
            },
            CallOperatorNode::Other => {},
        }
    }
}

} // verus!
