//! Lint/AmbiguousOperatorPrecedence: parenthesize an operator expression
//! that is an operand of an operator of lower precedence.
use vstd::prelude::*;
use vstd::string::StringSliceAdditionalSpecFns;
use crate::diagnostic::{appended_at, message, Diagnostic, Location};
use crate::text::{bytes_eq, offset_to_line_col, spec_line_col};

verus! {

pub struct AmbiguousOperatorPrecedence;

pub const AMBIGUOUS_PRECEDENCE_MESSAGE: &'static str = "Wrap expressions with varying precedence with parentheses to avoid ambiguity.";

/// The precedence of `&&`; `||` is one lower.
pub const AND_PREC: usize = 6;
pub const OR_PREC: usize = 7;

/// An operand, as the cop sees it.
pub enum PrecedenceChild {
    /// `a && b` or `a and b`, starting at the offset.
    And { start: usize },
    /// `a || b` or `a or b`.
    Or { start: usize },
    /// A method call: its name, whether it has a `.` or `&.`, its start.
    Call { name: Vec<u8>, has_call_operator: bool, start: usize },
    Other,
}

/// A node the cop checks.
pub enum PrecedenceNode {
    /// `||` (symbolic) or `or`.
    Or { symbolic: bool, left: PrecedenceChild, right: PrecedenceChild },
    /// `&&` (symbolic) or `and`.
    And { symbolic: bool, left: PrecedenceChild, right: PrecedenceChild },
    /// A method call with its arguments and receiver.
    Call { name: Vec<u8>, arguments: Vec<PrecedenceChild>, receiver: Option<PrecedenceChild> },
    Other,
}

/// The precedence group of a binary operator method, tightest first:
/// `**`; `* / %`; `+ -`; `<< >>`; `&`; `| ^`.
pub open spec fn spec_precedence_level(op: Seq<u8>) -> Option<int> {
    if op == "**".spec_bytes() {
        Some(0)
    } else if op == "*".spec_bytes() || op == "/".spec_bytes() || op == "%".spec_bytes() {
        Some(1)
    } else if op == "+".spec_bytes() || op == "-".spec_bytes() {
        Some(2)
    } else if op == "<<".spec_bytes() || op == ">>".spec_bytes() {
        Some(3)
    } else if op == "&".spec_bytes() {
        Some(4)
    } else if op == "|".spec_bytes() || op == "^".spec_bytes() {
        Some(5)
    } else {
        None
    }
}

/// The precedence of an operand that is an infix operator call.
pub open spec fn infix_precedence(c: PrecedenceChild) -> Option<int> {
    match c {
        PrecedenceChild::Call { name, has_call_operator, .. } => if has_call_operator {
            None
        } else {
            spec_precedence_level(name@)
        },
        _ => None,
    }
}

pub open spec fn child_start(c: PrecedenceChild) -> int {
    match c {
        PrecedenceChild::And { start } => start as int,
        PrecedenceChild::Or { start } => start as int,
        PrecedenceChild::Call { start, .. } => start as int,
        PrecedenceChild::Other => 0,
    }
}

/// The precedence of an operand of `&&`/`||`; operator calls count only
/// under the symbolic forms.
pub open spec fn logical_child_precedence(c: PrecedenceChild, check_arithmetic: bool) -> Option<int> {
    match c {
        PrecedenceChild::And { .. } => Some(AND_PREC as int),
        PrecedenceChild::Or { .. } => Some(OR_PREC as int),
        PrecedenceChild::Call { .. } => if check_arithmetic {
            infix_precedence(c)
        } else {
            None
        },
        PrecedenceChild::Other => None,
    }
}

/// The start of `c` if it binds tighter than `outer`.
pub open spec fn tighter_child(p: Option<int>, outer: int, c: PrecedenceChild) -> Seq<int> {
    match p {
        Some(cp) => if cp < outer {
            seq![child_start(c)]
        } else {
            seq![]
        },
        None => seq![],
    }
}

/// The reported operands among `args[..n]`.
pub open spec fn argument_offenses(args: Seq<PrecedenceChild>, outer: int, n: int) -> Seq<int>
    decreases n,
{
    if n <= 0 {
        seq![]
    } else {
        argument_offenses(args, outer, n - 1) + tighter_child(infix_precedence(args[n - 1]), outer, args[n - 1])
    }
}

/// The offsets the cop reports for `node`, in order.
pub open spec fn precedence_offenses(node: PrecedenceNode) -> Seq<int> {
    match node {
        PrecedenceNode::Or { symbolic, left, right } => tighter_child(
            logical_child_precedence(left, symbolic),
            OR_PREC as int,
            left,
        ) + tighter_child(logical_child_precedence(right, symbolic), OR_PREC as int, right),
        PrecedenceNode::And { symbolic, left, right } => tighter_child(
            logical_child_precedence(left, symbolic),
            AND_PREC as int,
            left,
        ) + tighter_child(logical_child_precedence(right, symbolic), AND_PREC as int, right),
        PrecedenceNode::Call { name, arguments, receiver } => match spec_precedence_level(name@) {
            Some(outer) => argument_offenses(arguments@, outer, arguments@.len() as int) + match receiver {
                Some(r) => tighter_child(infix_precedence(r), outer, r),
                None => seq![],
            },
            None => seq![],
        },
        PrecedenceNode::Other => seq![],
    }
}

pub open spec fn child_in_bounds(len: int, c: PrecedenceChild) -> bool {
    child_start(c) <= len
}

pub open spec fn precedence_node_in_bounds(len: int, node: PrecedenceNode) -> bool {
    match node {
        PrecedenceNode::Or { left, right, .. } => child_in_bounds(len, left) && child_in_bounds(len, right),
        PrecedenceNode::And { left, right, .. } => child_in_bounds(len, left) && child_in_bounds(len, right),
        PrecedenceNode::Call { arguments, receiver, .. } => (forall|k: int|
            0 <= k < arguments@.len() ==> child_in_bounds(len, #[trigger] arguments@[k])) && (
        match receiver {
            Some(r) => child_in_bounds(len, r),
            None => true,
        }),
        PrecedenceNode::Other => true,
    }
}

/// The precedence group of `op`, if it is a binary operator method.
pub fn precedence_level(op: &[u8]) -> (r: Option<usize>)
    ensures
        match r {
            Some(v) => spec_precedence_level(op@) == Some(v as int),
            None => spec_precedence_level(op@) is None,
        },
{
    if bytes_eq(op, "**".as_bytes()) {
        Some(0)
    } else if bytes_eq(op, "*".as_bytes()) || bytes_eq(op, "/".as_bytes()) || bytes_eq(
        op,
        "%".as_bytes(),
    ) {
        Some(1)
    } else if bytes_eq(op, "+".as_bytes()) || bytes_eq(op, "-".as_bytes()) {
        Some(2)
    } else if bytes_eq(op, "<<".as_bytes()) || bytes_eq(op, ">>".as_bytes()) {
        Some(3)
    } else if bytes_eq(op, "&".as_bytes()) {
        Some(4)
    } else if bytes_eq(op, "|".as_bytes()) || bytes_eq(op, "^".as_bytes()) {
        Some(5)
    } else {
        None
    }
}

fn infix_child_precedence(c: &PrecedenceChild) -> (r: Option<usize>)
    ensures
        match r {
            Some(v) => infix_precedence(*c) == Some(v as int),
            None => infix_precedence(*c) is None,
        },
{
    match c {
        PrecedenceChild::Call { name, has_call_operator, .. } => {
            if *has_call_operator {
                None
            } else {
                precedence_level(name.as_slice())
            }
        },
        _ => None,
    }
}

fn start_of(c: &PrecedenceChild) -> (r: usize)
    ensures
        r == child_start(*c),
{
    match c {
        PrecedenceChild::And { start } => *start,
        PrecedenceChild::Or { start } => *start,
        PrecedenceChild::Call { start, .. } => *start,
        PrecedenceChild::Other => 0,
    }
}

/// Appends a diagnostic at the start of `c` when `p` binds tighter than
/// `outer`.
fn push_if_tighter(source: &[u8], p: Option<usize>, outer: usize, c: &PrecedenceChild, diagnostics: &mut Vec<Diagnostic>)
    requires
        source@.len() < usize::MAX,
        child_in_bounds(source@.len() as int, *c),
    ensures
        appended_at(
            source@,
            old(diagnostics)@,
            final(diagnostics)@,
            tighter_child(
                match p {
                    Some(v) => Some(v as int),
                    None => None,
                },
                outer as int,
                *c,
            ),
            AMBIGUOUS_PRECEDENCE_MESSAGE.spec_bytes(),
        ),
{
    proof {
        assert(diagnostics@.subrange(0, diagnostics@.len() as int) =~= diagnostics@);
    }
    match p {
        Some(cp) => {
            if cp < outer {
                let start = start_of(c);
                let (line, column) = offset_to_line_col(source, start);
                let ghost before = diagnostics@;
                diagnostics.push(
                    Diagnostic {
                        location: Location { line, column },
                        message: message(AMBIGUOUS_PRECEDENCE_MESSAGE),
                        corrected: false,
                    },
                );
                assert(diagnostics@.subrange(0, before.len() as int) =~= before);
                assert(diagnostics@[before.len() as int] == diagnostics@.last());
            }
        },
        None => {},
    }
}

fn logical_precedence(c: &PrecedenceChild, check_arithmetic: bool) -> (r: Option<usize>)
    ensures
        match r {
            Some(v) => logical_child_precedence(*c, check_arithmetic) == Some(v as int),
            None => logical_child_precedence(*c, check_arithmetic) is None,
        },
{
    match c {
        PrecedenceChild::And { .. } => Some(AND_PREC),
        PrecedenceChild::Or { .. } => Some(OR_PREC),
        PrecedenceChild::Call { .. } => if check_arithmetic {
            infix_child_precedence(c)
        } else {
            None
        },
        PrecedenceChild::Other => None,
    }
}

impl AmbiguousOperatorPrecedence {
    pub fn name(&self) -> (r: &'static str)
        ensures
            r@ == "Lint/AmbiguousOperatorPrecedence"@,
    {
        "Lint/AmbiguousOperatorPrecedence"
    }

    /// Checks the two operands of `&&`/`||` (or `and`/`or`).
    fn check_logical_children(
        &self,
        source: &[u8],
        left: &PrecedenceChild,
        right: &PrecedenceChild,
        parent_prec: usize,
        check_arithmetic: bool,
        diagnostics: &mut Vec<Diagnostic>,
    )
        requires
            source@.len() < usize::MAX,
            child_in_bounds(source@.len() as int, *left),
            child_in_bounds(source@.len() as int, *right),
        ensures
            appended_at(
                source@,
                old(diagnostics)@,
                final(diagnostics)@,
                tighter_child(logical_child_precedence(*left, check_arithmetic), parent_prec as int, *left)
                    + tighter_child(logical_child_precedence(*right, check_arithmetic), parent_prec as int, *right),
                AMBIGUOUS_PRECEDENCE_MESSAGE.spec_bytes(),
            ),
    {
        let ghost d0 = diagnostics@;
        let pl = logical_precedence(left, check_arithmetic);
        push_if_tighter(source, pl, parent_prec, left, diagnostics);
        let ghost d1 = diagnostics@;
        let pr = logical_precedence(right, check_arithmetic);
        push_if_tighter(source, pr, parent_prec, right, diagnostics);
        proof {
            crate::diagnostic::lemma_appended_at_concat(
                source@,
                d0,
                d1,
                diagnostics@,
                tighter_child(logical_child_precedence(*left, check_arithmetic), parent_prec as int, *left),
                tighter_child(logical_child_precedence(*right, check_arithmetic), parent_prec as int, *right),
                AMBIGUOUS_PRECEDENCE_MESSAGE.spec_bytes(),
            );
        }
    }

    /// Checks one node and appends its offenses to `diagnostics`.
    pub fn check_node(&self, source: &[u8], node: &PrecedenceNode, diagnostics: &mut Vec<Diagnostic>)
        requires
            source@.len() < usize::MAX,
            precedence_node_in_bounds(source@.len() as int, *node),
        ensures
            appended_at(
                source@,
                old(diagnostics)@,
                final(diagnostics)@,
                precedence_offenses(*node),
                AMBIGUOUS_PRECEDENCE_MESSAGE.spec_bytes(),
            ),
    {
        proof {
            assert(diagnostics@.subrange(0, diagnostics@.len() as int) =~= diagnostics@);
        }
        match node {
            PrecedenceNode::Or { symbolic, left, right } => {
                self.check_logical_children(source, left, right, OR_PREC, *symbolic, diagnostics);
            },
            PrecedenceNode::And { symbolic, left, right } => {
                self.check_logical_children(source, left, right, AND_PREC, *symbolic, diagnostics);
            },
            PrecedenceNode::Call { name, arguments, receiver } => {
                let outer = match precedence_level(name.as_slice()) {
                    Some(p) => p,
                    None => {
                        return ;
                    },
                };
                let ghost d0 = diagnostics@;
                let mut k: usize = 0;
                while k < arguments.len()
                    invariant
                        k <= arguments@.len(),
                        source@.len() < usize::MAX,
                        forall|j: int| 0 <= j < arguments@.len() ==> child_in_bounds(source@.len() as int, #[trigger] arguments@[j]),
                        appended_at(
                            source@,
                            d0,
                            diagnostics@,
                            argument_offenses(arguments@, outer as int, k as int),
                            AMBIGUOUS_PRECEDENCE_MESSAGE.spec_bytes(),
                        ),
                    decreases arguments@.len() - k,
                {
                    let ghost dk = diagnostics@;
                    let arg = &arguments[k];
                    let p = infix_child_precedence(arg);
                    push_if_tighter(source, p, outer, arg, diagnostics);
                    proof {
                        crate::diagnostic::lemma_appended_at_concat(
                            source@,
                            d0,
                            dk,
                            diagnostics@,
                            argument_offenses(arguments@, outer as int, k as int),
                            tighter_child(infix_precedence(arguments@[k as int]), outer as int, arguments@[k as int]),
                            AMBIGUOUS_PRECEDENCE_MESSAGE.spec_bytes(),
                        );
                    }
                    k = k + 1;
                }
                let ghost d1 = diagnostics@;
                match receiver {
                    Some(r) => {
                        let p = infix_child_precedence(r);
                        push_if_tighter(source, p, outer, r, diagnostics);
                        proof {
                            crate::diagnostic::lemma_appended_at_concat(
                                source@,
                                d0,
                                d1,
                                diagnostics@,
                                argument_offenses(arguments@, outer as int, arguments@.len() as int),
                                tighter_child(infix_precedence(*r), outer as int, *r),
                                AMBIGUOUS_PRECEDENCE_MESSAGE.spec_bytes(),
                            );
                        }
                    },
                    None => {
                        assert(argument_offenses(arguments@, outer as int, arguments@.len() as int) + seq![] =~= argument_offenses(arguments@, outer as int, arguments@.len() as int));
                    },
                }
            },
            PrecedenceNode::Other => {},
        }
    }
}


/// The precedence levels of the operators the cop compares, tightest
/// first: `**`; `* / %`; `+ -`; `<< >>`; `&`; `| ^`. Any other name has
/// no level.
pub proof fn law_precedence_levels(op: Seq<u8>)
    ensures
        spec_precedence_level("**".spec_bytes()) == Some(0int),
        spec_precedence_level("*".spec_bytes()) == Some(1int),
        spec_precedence_level("/".spec_bytes()) == Some(1int),
        spec_precedence_level("%".spec_bytes()) == Some(1int),
        spec_precedence_level("+".spec_bytes()) == Some(2int),
        spec_precedence_level("-".spec_bytes()) == Some(2int),
        spec_precedence_level("<<".spec_bytes()) == Some(3int),
        spec_precedence_level(">>".spec_bytes()) == Some(3int),
        spec_precedence_level("&".spec_bytes()) == Some(4int),
        spec_precedence_level("|".spec_bytes()) == Some(5int),
        spec_precedence_level("^".spec_bytes()) == Some(5int),
        !(op == "**".spec_bytes() || op == "*".spec_bytes() || op == "/".spec_bytes() || op == "%".spec_bytes() || op == "+".spec_bytes() || op == "-".spec_bytes() || op == "<<".spec_bytes() || op == ">>".spec_bytes() || op == "&".spec_bytes() || op == "|".spec_bytes() || op == "^".spec_bytes()) ==> spec_precedence_level(op) is None,
{
    reveal_strlit("**");
    vstd::string::is_ascii_spec_bytes("**");
    reveal_strlit("*");
    vstd::string::is_ascii_spec_bytes("*");
    reveal_strlit("/");
    vstd::string::is_ascii_spec_bytes("/");
    reveal_strlit("%");
    vstd::string::is_ascii_spec_bytes("%");
    reveal_strlit("+");
    vstd::string::is_ascii_spec_bytes("+");
    reveal_strlit("-");
    vstd::string::is_ascii_spec_bytes("-");
    reveal_strlit("<<");
    vstd::string::is_ascii_spec_bytes("<<");
    reveal_strlit(">>");
    vstd::string::is_ascii_spec_bytes(">>");
    reveal_strlit("&");
    vstd::string::is_ascii_spec_bytes("&");
    reveal_strlit("|");
    vstd::string::is_ascii_spec_bytes("|");
    reveal_strlit("^");
    vstd::string::is_ascii_spec_bytes("^");
    assert("**".spec_bytes()[0] != "<<".spec_bytes()[0]);
    assert("**".spec_bytes()[0] != ">>".spec_bytes()[0]);
    assert("*".spec_bytes()[0] != "/".spec_bytes()[0]);
    assert("*".spec_bytes()[0] != "%".spec_bytes()[0]);
    assert("*".spec_bytes()[0] != "+".spec_bytes()[0]);
    assert("*".spec_bytes()[0] != "-".spec_bytes()[0]);
    assert("*".spec_bytes()[0] != "&".spec_bytes()[0]);
    assert("*".spec_bytes()[0] != "|".spec_bytes()[0]);
    assert("*".spec_bytes()[0] != "^".spec_bytes()[0]);
    assert("/".spec_bytes()[0] != "%".spec_bytes()[0]);
    assert("/".spec_bytes()[0] != "+".spec_bytes()[0]);
    assert("/".spec_bytes()[0] != "-".spec_bytes()[0]);
    assert("/".spec_bytes()[0] != "&".spec_bytes()[0]);
    assert("/".spec_bytes()[0] != "|".spec_bytes()[0]);
    assert("/".spec_bytes()[0] != "^".spec_bytes()[0]);
    assert("%".spec_bytes()[0] != "+".spec_bytes()[0]);
    assert("%".spec_bytes()[0] != "-".spec_bytes()[0]);
    assert("%".spec_bytes()[0] != "&".spec_bytes()[0]);
    assert("%".spec_bytes()[0] != "|".spec_bytes()[0]);
    assert("%".spec_bytes()[0] != "^".spec_bytes()[0]);
    assert("+".spec_bytes()[0] != "-".spec_bytes()[0]);
    assert("+".spec_bytes()[0] != "&".spec_bytes()[0]);
    assert("+".spec_bytes()[0] != "|".spec_bytes()[0]);
    assert("+".spec_bytes()[0] != "^".spec_bytes()[0]);
    assert("-".spec_bytes()[0] != "&".spec_bytes()[0]);
    assert("-".spec_bytes()[0] != "|".spec_bytes()[0]);
    assert("-".spec_bytes()[0] != "^".spec_bytes()[0]);
    assert("<<".spec_bytes()[0] != ">>".spec_bytes()[0]);
    assert("&".spec_bytes()[0] != "|".spec_bytes()[0]);
    assert("&".spec_bytes()[0] != "^".spec_bytes()[0]);
    assert("|".spec_bytes()[0] != "^".spec_bytes()[0]);
}

} // verus!
