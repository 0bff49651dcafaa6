//! Lint/AssignmentInCondition: `=` in the condition of `if`, `unless`,
//! `while` or `until`, unless wrapped in parentheses.
use vstd::prelude::*;
use vstd::string::StringSliceAdditionalSpecFns;
use crate::ascii::EQUALS;
use crate::diagnostic::{message, Diagnostic, Location};
use crate::text::{offset_to_line_col, spec_is_blank, spec_line_col, SPACE, TAB};

verus! {

pub struct AssignmentInCondition;

pub const MSG_WITH_SAFE_ASSIGNMENT: &'static str = "Use `==` if you meant to do a comparison or wrap the expression in parentheses to indicate you meant to assign in a condition.";

pub const MSG_WITHOUT_SAFE_ASSIGNMENT: &'static str = "Use `==` if you meant to do a comparison or move the assignment up out of the condition.";

/// The nodes of a condition, as far as the search for assignments reads
/// them.
pub enum AsgNode {
    /// A block or lambda: the search does not enter it.
    BlockOrLambda,
    /// `( ... )` with its body, if any.
    Parentheses { body: Option<Box<AsgNode>> },
    /// `x = v` for a local, instance, class or global variable, a constant,
    /// a constant path or a multiple target: where `=` starts, and `v`.
    Write { operator_start: usize, value: Box<AsgNode> },
    /// A method call: whether it is an attribute write (`a.b = v`,
    /// `a[i] = v`), where its closing `]` and its selector end, and its
    /// arguments.
    Call { attribute_write: bool, closing_end: Option<usize>, message_end: Option<usize>, arguments: Vec<AsgNode> },
    /// `||=`, `&&=` or an operator assignment such as `+=`.
    ConditionalWrite,
    Or { left: Box<AsgNode>, right: Box<AsgNode> },
    And { left: Box<AsgNode>, right: Box<AsgNode> },
    Statements { body: Vec<AsgNode> },
    Range { left: Option<Box<AsgNode>>, right: Option<Box<AsgNode>> },
    Defined { value: Box<AsgNode> },
    Begin { statements: Option<Vec<AsgNode>>, rescue: Option<Box<AsgNode>>, ensure: Option<Box<AsgNode>> },
    /// `case` with its `when` clauses and the statements of its `else`.
    Case { whens: Vec<WhenClause>, else_statements: Option<Vec<AsgNode>> },
    If { predicate: Box<AsgNode>, statements: Option<Vec<AsgNode>>, subsequent: Option<Box<AsgNode>> },
    Unless { predicate: Box<AsgNode>, statements: Option<Vec<AsgNode>>, else_clause: Option<Box<AsgNode>> },
    While { predicate: Box<AsgNode>, statements: Option<Vec<AsgNode>> },
    Until { predicate: Box<AsgNode>, statements: Option<Vec<AsgNode>> },
    Else { statements: Option<Vec<AsgNode>> },
    Rescue { statements: Option<Vec<AsgNode>>, subsequent: Option<Box<AsgNode>> },
    Ensure { statements: Option<Vec<AsgNode>> },
    RescueModifier { expression: Box<AsgNode>, rescue_expression: Box<AsgNode> },
    Other,
}

/// A `when` clause: its conditions and its statements.
pub struct WhenClause {
    pub conditions: Vec<AsgNode>,
    pub statements: Option<Vec<AsgNode>>,
}

pub open spec fn is_assignment(n: AsgNode) -> bool {
    match n {
        AsgNode::Write { .. } => true,
        AsgNode::Call { attribute_write, .. } => attribute_write,
        _ => false,
    }
}

/// Going forward from `pos` over spaces and tabs: the first `=`, unless
/// something else comes first.
pub open spec fn equals_from(s: Seq<u8>, pos: int) -> Option<usize>
    decreases s.len() - pos,
{
    if pos < 0 || pos >= s.len() {
        None
    } else if s[pos] == EQUALS {
        Some(pos as usize)
    } else if !spec_is_blank(s[pos]) {
        None
    } else {
        equals_from(s, pos + 1)
    }
}

/// The `=` of an attribute write: after the closing `]`, else after the
/// selector.
pub open spec fn spec_call_assignment_equals(s: Seq<u8>, closing_end: Option<usize>, message_end: Option<usize>) -> Option<usize> {
    match closing_end {
        Some(c) => equals_from(s, c as int),
        None => match message_end {
            Some(m) => equals_from(s, m as int),
            None => None,
        },
    }
}

pub open spec fn opt_seq(o: Option<usize>) -> Seq<usize> {
    match o {
        Some(v) => seq![v],
        None => seq![],
    }
}

/// The offsets of the assignments the search reports in `node`.
pub open spec fn traverse(s: Seq<u8>, node: AsgNode, allow_safe: bool) -> Seq<usize>
    decreases node, 1int,
{
    match node {
        AsgNode::BlockOrLambda => seq![],
        AsgNode::Parentheses { body } => match body {
            Some(b) => if allow_safe && is_assignment(*b) {
                seq![]
            } else if allow_safe && (match *b {
                AsgNode::Statements { body: st } => st@.len() == 1 && is_assignment(st@[0]),
                _ => false,
            }) {
                seq![]
            } else {
                traverse(s, *b, allow_safe)
            },
            None => seq![],
        },
        AsgNode::Write { operator_start, value } => seq![operator_start] + traverse(s, *value, allow_safe),
        AsgNode::Call { attribute_write, closing_end, message_end, arguments } => if attribute_write {
            opt_seq(spec_call_assignment_equals(s, closing_end, message_end)) + traverse_list(s, arguments@, allow_safe, arguments@.len() as int)
        } else {
            seq![]
        },
        AsgNode::ConditionalWrite => seq![],
        AsgNode::Or { left, right } => traverse(s, *left, allow_safe) + traverse(s, *right, allow_safe),
        AsgNode::And { left, right } => traverse(s, *left, allow_safe) + traverse(s, *right, allow_safe),
        AsgNode::Statements { body } => traverse_list(s, body@, allow_safe, body@.len() as int),
        AsgNode::Range { left, right } => traverse_opt(s, left, allow_safe) + traverse_opt(s, right, allow_safe),
        AsgNode::Defined { value } => traverse(s, *value, allow_safe),
        AsgNode::Begin { statements, rescue, ensure } => traverse_opt_list(s, statements, allow_safe) + traverse_opt(s, rescue, allow_safe) + traverse_opt(s, ensure, allow_safe),
        AsgNode::Case { whens, else_statements } => traverse_whens(s, whens@, allow_safe, whens@.len() as int) + traverse_opt_list(s, else_statements, allow_safe),
        AsgNode::If { predicate, statements, subsequent } => traverse(s, *predicate, allow_safe) + traverse_opt_list(s, statements, allow_safe) + traverse_opt(s, subsequent, allow_safe),
        AsgNode::Unless { predicate, statements, else_clause } => traverse(s, *predicate, allow_safe) + traverse_opt_list(s, statements, allow_safe) + traverse_opt(s, else_clause, allow_safe),
        AsgNode::While { predicate, statements } => traverse(s, *predicate, allow_safe) + traverse_opt_list(s, statements, allow_safe),
        AsgNode::Until { predicate, statements } => traverse(s, *predicate, allow_safe) + traverse_opt_list(s, statements, allow_safe),
        AsgNode::Else { statements } => traverse_opt_list(s, statements, allow_safe),
        AsgNode::Rescue { statements, subsequent } => traverse_opt_list(s, statements, allow_safe) + traverse_opt(s, subsequent, allow_safe),
        AsgNode::Ensure { statements } => traverse_opt_list(s, statements, allow_safe),
        AsgNode::RescueModifier { expression, rescue_expression } => traverse(s, *expression, allow_safe) + traverse(s, *rescue_expression, allow_safe),
        AsgNode::Other => seq![],
    }
}

pub open spec fn traverse_opt(s: Seq<u8>, node: Option<Box<AsgNode>>, allow_safe: bool) -> Seq<usize>
    decreases node, 2int,
{
    match node {
        Some(n) => traverse(s, *n, allow_safe),
        None => seq![],
    }
}

pub open spec fn traverse_opt_list(s: Seq<u8>, nodes: Option<Vec<AsgNode>>, allow_safe: bool) -> Seq<usize>
    decreases nodes, 2int,
{
    match nodes {
        Some(v) => traverse_list(s, v@, allow_safe, v@.len() as int),
        None => seq![],
    }
}

/// The offsets reported in the first `n` nodes, in order.
pub open spec fn traverse_list(s: Seq<u8>, nodes: Seq<AsgNode>, allow_safe: bool, n: int) -> Seq<usize>
    decreases nodes, n,
{
    if n <= 0 || n > nodes.len() {
        seq![]
    } else {
        traverse_list(s, nodes, allow_safe, n - 1) + traverse(s, nodes[n - 1], allow_safe)
    }
}

/// The offsets reported in the first `n` `when` clauses: each one's
/// conditions, then its statements.
pub open spec fn traverse_whens(s: Seq<u8>, whens: Seq<WhenClause>, allow_safe: bool, n: int) -> Seq<usize>
    decreases whens, n,
{
    if n <= 0 || n > whens.len() {
        seq![]
    } else {
        traverse_whens(s, whens, allow_safe, n - 1) + traverse_list(s, whens[n - 1].conditions@, allow_safe, whens[n - 1].conditions@.len() as int)
            + traverse_opt_list(s, whens[n - 1].statements, allow_safe)
    }
}

/// Finds the `=` of an attribute write.
pub fn find_call_assignment_equals(bytes: &[u8], closing_end: Option<usize>, message_end: Option<usize>) -> (r: Option<usize>)
    ensures
        r == spec_call_assignment_equals(bytes@, closing_end, message_end),
{
    let search_start = match closing_end {
        Some(c) => c,
        None => match message_end {
            Some(m) => m,
            None => {
                return None;
            },
        },
    };
    let mut pos = search_start;
    while pos < bytes.len()
        invariant
            search_start <= pos,
            spec_call_assignment_equals(bytes@, closing_end, message_end) == equals_from(bytes@, search_start as int),
            equals_from(bytes@, pos as int) == equals_from(bytes@, search_start as int),
        decreases bytes@.len() - pos,
    {
        if bytes[pos] == EQUALS {
            return Some(pos);
        }
        if bytes[pos] != SPACE && bytes[pos] != TAB {
            return None;
        }
        pos = pos + 1;
    }
    None
}

fn is_assignment_node(n: &AsgNode) -> (r: bool)
    ensures
        r == is_assignment(*n),
{
    match n {
        AsgNode::Write { .. } => true,
        AsgNode::Call { attribute_write, .. } => *attribute_write,
        _ => false,
    }
}

fn append_offsets(out: &mut Vec<usize>, v: Option<usize>)
    ensures
        final(out)@ == old(out)@ + opt_seq(v),
{
    match v {
        Some(x) => {
            out.push(x);
        },
        None => {
            assert(out@ =~= out@ + seq![]);
        },
    }
}

/// Collects into `out` the assignments that the search reports in `node`.
pub fn traverse_condition(bytes: &[u8], node: &AsgNode, allow_safe: bool, out: &mut Vec<usize>)
    ensures
        final(out)@ == old(out)@ + traverse(bytes@, *node, allow_safe),
    decreases node, 1int,
{
    let ghost o = out@;
    match node {
        AsgNode::BlockOrLambda | AsgNode::ConditionalWrite | AsgNode::Other => {
            assert(out@ =~= o + seq![]);
        },
        AsgNode::Parentheses { body } => match body {
            Some(b) => {
                if allow_safe && is_assignment_node(&**b) {
                    assert(out@ =~= o + seq![]);
                    return ;
                }
                let single = match &**b {
                    AsgNode::Statements { body: st } => st.len() == 1 && is_assignment_node(&st[0]),
                    _ => false,
                };
                if allow_safe && single {
                    assert(out@ =~= o + seq![]);
                    return ;
                }
                traverse_condition(bytes, &**b, allow_safe, out);
            },
            None => {
                assert(out@ =~= o + seq![]);
            },
        },
        AsgNode::Write { operator_start, value } => {
            out.push(*operator_start);
            traverse_condition(bytes, &**value, allow_safe, out);
            assert(out@ =~= o + traverse(bytes@, *node, allow_safe));
        },
        AsgNode::Call { attribute_write, closing_end, message_end, arguments } => {
            if *attribute_write {
                let eq = find_call_assignment_equals(bytes, *closing_end, *message_end);
                append_offsets(out, eq);
                traverse_list_exec(bytes, arguments, allow_safe, out);
                assert(out@ =~= o + traverse(bytes@, *node, allow_safe));
            } else {
                assert(out@ =~= o + seq![]);
            }
        },
        AsgNode::Or { left, right } | AsgNode::And { left, right } | AsgNode::RescueModifier { expression: left, rescue_expression: right } => {
            traverse_condition(bytes, &**left, allow_safe, out);
            traverse_condition(bytes, &**right, allow_safe, out);
            assert(out@ =~= o + traverse(bytes@, *node, allow_safe));
        },
        AsgNode::Statements { body } => {
            traverse_list_exec(bytes, body, allow_safe, out);
        },
        AsgNode::Range { left, right } => {
            traverse_opt_exec(bytes, left, allow_safe, out);
            traverse_opt_exec(bytes, right, allow_safe, out);
            assert(out@ =~= o + traverse(bytes@, *node, allow_safe));
        },
        AsgNode::Defined { value } => {
            traverse_condition(bytes, &**value, allow_safe, out);
        },
        AsgNode::Begin { statements, rescue, ensure } => {
            traverse_opt_list_exec(bytes, statements, allow_safe, out);
            traverse_opt_exec(bytes, rescue, allow_safe, out);
            traverse_opt_exec(bytes, ensure, allow_safe, out);
            assert(out@ =~= o + traverse(bytes@, *node, allow_safe));
        },
        AsgNode::Case { whens, else_statements } => {
            traverse_whens_exec(bytes, whens, allow_safe, out);
            traverse_opt_list_exec(bytes, else_statements, allow_safe, out);
            assert(out@ =~= o + traverse(bytes@, *node, allow_safe));
        },
        AsgNode::If { predicate, statements, subsequent } | AsgNode::Unless { predicate, statements, else_clause: subsequent } => {
            traverse_condition(bytes, &**predicate, allow_safe, out);
            traverse_opt_list_exec(bytes, statements, allow_safe, out);
            traverse_opt_exec(bytes, subsequent, allow_safe, out);
            assert(out@ =~= o + traverse(bytes@, *node, allow_safe));
        },
        AsgNode::While { predicate, statements } | AsgNode::Until { predicate, statements } => {
            traverse_condition(bytes, &**predicate, allow_safe, out);
            traverse_opt_list_exec(bytes, statements, allow_safe, out);
            assert(out@ =~= o + traverse(bytes@, *node, allow_safe));
        },
        AsgNode::Else { statements } | AsgNode::Ensure { statements } => {
            traverse_opt_list_exec(bytes, statements, allow_safe, out);
        },
        AsgNode::Rescue { statements, subsequent } => {
            traverse_opt_list_exec(bytes, statements, allow_safe, out);
            traverse_opt_exec(bytes, subsequent, allow_safe, out);
            assert(out@ =~= o + traverse(bytes@, *node, allow_safe));
        },
    }
}

fn traverse_opt_exec(bytes: &[u8], node: &Option<Box<AsgNode>>, allow_safe: bool, out: &mut Vec<usize>)
    ensures
        final(out)@ == old(out)@ + traverse_opt(bytes@, *node, allow_safe),
    decreases node, 2int,
{
    match node {
        Some(n) => traverse_condition(bytes, &**n, allow_safe, out),
        None => {
            assert(out@ =~= out@ + seq![]);
        },
    }
}

fn traverse_opt_list_exec(bytes: &[u8], nodes: &Option<Vec<AsgNode>>, allow_safe: bool, out: &mut Vec<usize>)
    ensures
        final(out)@ == old(out)@ + traverse_opt_list(bytes@, *nodes, allow_safe),
    decreases nodes, 2int,
{
    match nodes {
        Some(v) => traverse_list_exec(bytes, v, allow_safe, out),
        None => {
            assert(out@ =~= out@ + seq![]);
        },
    }
}

fn traverse_list_exec(bytes: &[u8], nodes: &Vec<AsgNode>, allow_safe: bool, out: &mut Vec<usize>)
    ensures
        final(out)@ == old(out)@ + traverse_list(bytes@, nodes@, allow_safe, nodes@.len() as int),
    decreases nodes, 0int,
{
    let ghost o = out@;
    let mut i: usize = 0;
    assert(out@ =~= o + traverse_list(bytes@, nodes@, allow_safe, 0));
    while i < nodes.len()
        invariant
            i <= nodes@.len(),
            out@ == o + traverse_list(bytes@, nodes@, allow_safe, i as int),
        decreases nodes@.len() - i,
    {
        traverse_condition(bytes, &nodes[i], allow_safe, out);
        i = i + 1;
        assert(out@ =~= o + traverse_list(bytes@, nodes@, allow_safe, i as int));
    }
}

fn traverse_whens_exec(bytes: &[u8], whens: &Vec<WhenClause>, allow_safe: bool, out: &mut Vec<usize>)
    ensures
        final(out)@ == old(out)@ + traverse_whens(bytes@, whens@, allow_safe, whens@.len() as int),
    decreases whens, 0int,
{
    let ghost o = out@;
    let mut i: usize = 0;
    assert(out@ =~= o + traverse_whens(bytes@, whens@, allow_safe, 0));
    while i < whens.len()
        invariant
            i <= whens@.len(),
            out@ == o + traverse_whens(bytes@, whens@, allow_safe, i as int),
        decreases whens@.len() - i,
    {
        traverse_list_exec(bytes, &whens[i].conditions, allow_safe, out);
        traverse_opt_list_exec(bytes, &whens[i].statements, allow_safe, out);
        i = i + 1;
        assert(out@ =~= o + traverse_whens(bytes@, whens@, allow_safe, i as int));
    }
}

pub open spec fn assignment_message(allow_safe: bool) -> Seq<u8> {
    if allow_safe {
        MSG_WITH_SAFE_ASSIGNMENT.spec_bytes()
    } else {
        MSG_WITHOUT_SAFE_ASSIGNMENT.spec_bytes()
    }
}

pub open spec fn all_offsets_in(len: int, offs: Seq<usize>) -> bool {
    forall|k: int| 0 <= k < offs.len() ==> #[trigger] offs[k] <= len
}

impl AssignmentInCondition {
    pub fn name(&self) -> (r: &'static str)
        ensures
            r@ == "Lint/AssignmentInCondition"@,
    {
        "Lint/AssignmentInCondition"
    }

    /// Reports the assignments in the condition `predicate` of an `if`,
    /// `unless`, `while` or `until`; a `begin ... end while` loop
    /// (`is_begin_modifier`) is not checked. `allow_safe` is the configured
    /// `AllowSafeAssignment`.
    pub fn check_node(&self, source: &[u8], predicate: &AsgNode, is_begin_modifier: bool, allow_safe: bool) -> (r: Vec<Diagnostic>)
        requires
            source@.len() < usize::MAX,
            all_offsets_in(source@.len() as int, traverse(source@, *predicate, allow_safe)),
        ensures
            ({
                let offs = if is_begin_modifier {
                    seq![]
                } else {
                    traverse(source@, *predicate, allow_safe)
                };
                &&& r@.len() == offs.len()
                &&& forall|k: int| 0 <= k < offs.len() ==> {
                    &&& (#[trigger] r@[k]).location.line == spec_line_col(source@, offs[k] as int).0
                    &&& r@[k].location.column == spec_line_col(source@, offs[k] as int).1
                    &&& r@[k].message@ == assignment_message(allow_safe)
                    &&& !r@[k].corrected
                }
            }),
    {
        let mut diags: Vec<Diagnostic> = Vec::new();
        if is_begin_modifier {
            return diags;
        }
        let mut offs: Vec<usize> = Vec::new();
        traverse_condition(source, predicate, allow_safe, &mut offs);
        assert(offs@ =~= traverse(source@, *predicate, allow_safe));
        let mut i: usize = 0;
        while i < offs.len()
            invariant
                i <= offs@.len(),
                source@.len() < usize::MAX,
                all_offsets_in(source@.len() as int, offs@),
                diags@.len() == i,
                forall|k: int| 0 <= k < i ==> {
                    &&& (#[trigger] diags@[k]).location.line == spec_line_col(source@, offs@[k] as int).0
                    &&& diags@[k].location.column == spec_line_col(source@, offs@[k] as int).1
                    &&& diags@[k].message@ == assignment_message(allow_safe)
                    &&& !diags@[k].corrected
                },
            decreases offs@.len() - i,
        {
            assert(offs@[i as int] <= source@.len());
            let (line, column) = offset_to_line_col(source, offs[i]);
            let msg = if allow_safe {
                message(MSG_WITH_SAFE_ASSIGNMENT)
            } else {
                message(MSG_WITHOUT_SAFE_ASSIGNMENT)
            };
            diags.push(Diagnostic { location: Location { line, column }, message: msg, corrected: false });
            i = i + 1;
        }
        diags
    }
}

} // verus!
