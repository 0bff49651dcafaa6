//! Lint/BinaryOperatorWithIdenticalOperands: `x == x`, `a && a` and the
//! like, where both operands are the same expression.
use vstd::prelude::*;
use vstd::string::StringSliceAdditionalSpecFns;
use crate::ascii::LT;
use crate::bytes::append;
use crate::diagnostic::{message, Diagnostic, Location};
use crate::text::{bytes_eq, offset_to_line_col, spec_line_col, utf8_or, utf8_valid};

verus! {

pub struct BinaryOperatorWithIdenticalOperands;

/// An operand, spanning `[start, end)`.
pub enum Operand {
    /// A method call: its name, whether it has a block, its receiver and
    /// its arguments.
    Call { start: usize, end: usize, name: Vec<u8>, has_block: bool, receiver: Option<Box<Operand>>, arguments: Option<Vec<Operand>> },
    Symbol { start: usize, end: usize, unescaped: Vec<u8> },
    /// A string, with its opening delimiter's span, if any.
    Str { start: usize, end: usize, unescaped: Vec<u8>, opening: Option<(usize, usize)> },
    /// A float: the key by which floats compare equal (`None` for NaN,
    /// which equals nothing).
    Float { start: usize, end: usize, key: Option<u64> },
    /// An integer: its sign and its digits base 2^32.
    Integer { start: usize, end: usize, negative: bool, digits: Vec<u32> },
    Other { start: usize, end: usize },
}

pub open spec fn span_of(o: Operand) -> (int, int) {
    match o {
        Operand::Call { start, end, .. } => (start as int, end as int),
        Operand::Symbol { start, end, .. } => (start as int, end as int),
        Operand::Str { start, end, .. } => (start as int, end as int),
        Operand::Float { start, end, .. } => (start as int, end as int),
        Operand::Integer { start, end, .. } => (start as int, end as int),
        Operand::Other { start, end } => (start as int, end as int),
    }
}

pub open spec fn text_of(s: Seq<u8>, o: Operand) -> Seq<u8> {
    s.subrange(span_of(o).0, span_of(o).1)
}

/// A string written as a heredoc: its opening starts with `<<`.
pub open spec fn is_heredoc(s: Seq<u8>, opening: Option<(usize, usize)>) -> bool {
    match opening {
        Some((a, b)) => b - a >= 2 && s[a as int] == LT && s[a + 1] == LT,
        None => false,
    }
}

/// Two operands are the same expression: the same source text, or the same
/// call, symbol, string, float or integer written differently.
pub open spec fn operands_equal(s: Seq<u8>, l: Operand, r: Operand) -> bool
    decreases l, 2int,
{
    if text_of(s, l) == text_of(s, r) {
        true
    } else {
        match (l, r) {
            (
                Operand::Call { name: ln, has_block: lb, receiver: lr, arguments: la, .. },
                Operand::Call { name: rn, has_block: rb, receiver: rr, arguments: ra, .. },
            ) => ln@ == rn@ && !lb && !rb && receivers_equal(s, lr, rr) && arguments_equal(s, la, ra),
            (Operand::Symbol { unescaped: lu, .. }, Operand::Symbol { unescaped: ru, .. }) => lu@ == ru@,
            (Operand::Str { unescaped: lu, opening: lo, .. }, Operand::Str { unescaped: ru, opening: ro, .. }) => is_heredoc(
                s,
                lo,
            ) == is_heredoc(s, ro) && lu@ == ru@,
            (Operand::Float { key: lk, .. }, Operand::Float { key: rk, .. }) => lk is Some && lk == rk,
            (Operand::Integer { negative: ln, digits: ld, .. }, Operand::Integer { negative: rn, digits: rd, .. }) => ln
                == rn && ld@ == rd@,
            _ => false,
        }
    }
}

pub open spec fn receivers_equal(s: Seq<u8>, l: Option<Box<Operand>>, r: Option<Box<Operand>>) -> bool
    decreases l, 1int,
{
    match (l, r) {
        (Some(a), Some(b)) => operands_equal(s, *a, *b),
        (None, None) => true,
        _ => false,
    }
}

pub open spec fn arguments_equal(s: Seq<u8>, l: Option<Vec<Operand>>, r: Option<Vec<Operand>>) -> bool
    decreases l, 1int,
{
    match (l, r) {
        (Some(a), Some(b)) => a@.len() == b@.len() && lists_equal(s, a@, b@, a@.len() as int),
        (Some(a), None) => a@.len() == 0,
        (None, Some(b)) => b@.len() == 0,
        (None, None) => true,
    }
}

/// The first `n` operands of the two lists are pairwise equal.
pub open spec fn lists_equal(s: Seq<u8>, a: Seq<Operand>, b: Seq<Operand>, n: int) -> bool
    decreases a, n,
{
    if n <= 0 || n > a.len() {
        true
    } else {
        lists_equal(s, a, b, n - 1) && operands_equal(s, a[n - 1], b[n - 1])
    }
}

pub open spec fn operand_in_bounds(len: int, o: Operand) -> bool
    decreases o, 1int,
{
    &&& span_of(o).0 <= span_of(o).1 <= len
    &&& match o {
        Operand::Call { receiver, arguments, .. } => (match receiver {
            Some(x) => operand_in_bounds(len, *x),
            None => true,
        }) && match arguments {
            Some(v) => list_in_bounds(len, v@, v@.len() as int),
            None => true,
        },
        Operand::Str { opening, .. } => opening matches Some((a, b)) ==> a <= b <= len,
        _ => true,
    }
}

pub open spec fn list_in_bounds(len: int, v: Seq<Operand>, n: int) -> bool
    decreases v, n,
{
    if n <= 0 || n > v.len() {
        true
    } else {
        list_in_bounds(len, v, n - 1) && operand_in_bounds(len, v[n - 1])
    }
}

proof fn lemma_list_in_bounds(len: int, v: Seq<Operand>, n: int, k: int)
    requires
        list_in_bounds(len, v, n),
        0 <= k < n <= v.len(),
    ensures
        operand_in_bounds(len, v[k]),
    decreases n,
{
    if k < n - 1 {
        lemma_list_in_bounds(len, v, n - 1, k);
    }
}

proof fn lemma_lists_equal_prefix(s: Seq<u8>, a: Seq<Operand>, b: Seq<Operand>, n: int, m: int)
    requires
        0 < m <= n <= a.len(),
        lists_equal(s, a, b, n),
    ensures
        lists_equal(s, a, b, m),
    decreases n - m,
{
    if m < n {
        lemma_lists_equal_prefix(s, a, b, n - 1, m);
    }
}

fn span_exec(o: &Operand) -> (r: (usize, usize))
    ensures
        r.0 == span_of(*o).0,
        r.1 == span_of(*o).1,
{
    match o {
        Operand::Call { start, end, .. } => (*start, *end),
        Operand::Symbol { start, end, .. } => (*start, *end),
        Operand::Str { start, end, .. } => (*start, *end),
        Operand::Float { start, end, .. } => (*start, *end),
        Operand::Integer { start, end, .. } => (*start, *end),
        Operand::Other { start, end } => (*start, *end),
    }
}

fn heredoc_exec(s: &[u8], opening: &Option<(usize, usize)>) -> (r: bool)
    requires
        *opening matches Some((a, b)) ==> a <= b <= s@.len(),
    ensures
        r == is_heredoc(s@, *opening),
{
    match opening {
        Some((a, b)) => *b - *a >= 2 && s[*a] == LT && s[*a + 1] == LT,
        None => false,
    }
}

fn digits_eq(a: &Vec<u32>, b: &Vec<u32>) -> (r: bool)
    ensures
        r == (a@ == b@),
{
    if a.len() != b.len() {
        return false;
    }
    let mut i: usize = 0;
    while i < a.len()
        invariant
            i <= a@.len() == b@.len(),
            forall|j: int| 0 <= j < i ==> a@[j] == b@[j],
        decreases a@.len() - i,
    {
        if a[i] != b[i] {
            return false;
        }
        i = i + 1;
    }
    assert(a@ =~= b@);
    true
}

/// Whether two operands are the same expression.
pub fn operands_match(s: &[u8], l: &Operand, r: &Operand) -> (res: bool)
    requires
        operand_in_bounds(s@.len() as int, *l),
        operand_in_bounds(s@.len() as int, *r),
    ensures
        res == operands_equal(s@, *l, *r),
    decreases l, 2int,
{
    let (la, lb) = span_exec(l);
    let (ra, rb) = span_exec(r);
    if bytes_eq(&s[la..lb], &s[ra..rb]) {
        return true;
    }
    match (l, r) {
        (
            Operand::Call { name: ln, has_block: lbk, receiver: lr, arguments: largs, .. },
            Operand::Call { name: rn, has_block: rbk, receiver: rr, arguments: rargs, .. },
        ) => {
            bytes_eq(ln.as_slice(), rn.as_slice()) && !*lbk && !*rbk && receivers_match(s, lr, rr) && arguments_match(
                s,
                largs,
                rargs,
            )
        },
        (Operand::Symbol { unescaped: lu, .. }, Operand::Symbol { unescaped: ru, .. }) => bytes_eq(lu.as_slice(), ru.as_slice()),
        (Operand::Str { unescaped: lu, opening: lo, .. }, Operand::Str { unescaped: ru, opening: ro, .. }) => heredoc_exec(s, lo)
            == heredoc_exec(s, ro) && bytes_eq(lu.as_slice(), ru.as_slice()),
        (Operand::Float { key: lk, .. }, Operand::Float { key: rk, .. }) => match (lk, rk) {
            (Some(x), Some(y)) => *x == *y,
            _ => false,
        },
        (Operand::Integer { negative: ln, digits: ld, .. }, Operand::Integer { negative: rn, digits: rd, .. }) => *ln == *rn
            && digits_eq(ld, rd),
        _ => false,
    }
}

fn receivers_match(s: &[u8], l: &Option<Box<Operand>>, r: &Option<Box<Operand>>) -> (res: bool)
    requires
        *l matches Some(x) ==> operand_in_bounds(s@.len() as int, *x),
        *r matches Some(x) ==> operand_in_bounds(s@.len() as int, *x),
    ensures
        res == receivers_equal(s@, *l, *r),
    decreases l, 1int,
{
    match (l, r) {
        (Some(a), Some(b)) => operands_match(s, &**a, &**b),
        (None, None) => true,
        _ => false,
    }
}

fn arguments_match(s: &[u8], l: &Option<Vec<Operand>>, r: &Option<Vec<Operand>>) -> (res: bool)
    requires
        *l matches Some(v) ==> list_in_bounds(s@.len() as int, v@, v@.len() as int),
        *r matches Some(v) ==> list_in_bounds(s@.len() as int, v@, v@.len() as int),
    ensures
        res == arguments_equal(s@, *l, *r),
    decreases l, 1int,
{
    match (l, r) {
        (Some(a), Some(b)) => {
            if a.len() != b.len() {
                return false;
            }
            lists_match(s, a, b)
        },
        (Some(a), None) => a.len() == 0,
        (None, Some(b)) => b.len() == 0,
        (None, None) => true,
    }
}

fn lists_match(s: &[u8], a: &Vec<Operand>, b: &Vec<Operand>) -> (res: bool)
    requires
        a@.len() == b@.len(),
        list_in_bounds(s@.len() as int, a@, a@.len() as int),
        list_in_bounds(s@.len() as int, b@, b@.len() as int),
    ensures
        res == lists_equal(s@, a@, b@, a@.len() as int),
    decreases a, 0int,
{
    let mut i: usize = 0;
    while i < a.len()
        invariant
            i <= a@.len() == b@.len(),
            list_in_bounds(s@.len() as int, a@, a@.len() as int),
            list_in_bounds(s@.len() as int, b@, b@.len() as int),
            lists_equal(s@, a@, b@, i as int),
        decreases a@.len() - i,
    {
        proof {
            lemma_list_in_bounds(s@.len() as int, a@, a@.len() as int, i as int);
            lemma_list_in_bounds(s@.len() as int, b@, b@.len() as int, i as int);
        }
        if !operands_match(s, &a[i], &b[i]) {
            proof {
                if lists_equal(s@, a@, b@, a@.len() as int) {
                    lemma_lists_equal_prefix(s@, a@, b@, a@.len() as int, i + 1);
                }
            }
            return false;
        }
        i = i + 1;
    }
    true
}

/// A node the cop checks, starting at `start`.
pub enum BinaryNode {
    /// `a && b` or `a and b`.
    And { start: usize, left: Operand, right: Operand },
    /// `a || b` or `a or b`.
    Or { start: usize, left: Operand, right: Operand },
    /// A method call: its name, receiver and first argument.
    Call { start: usize, name: Vec<u8>, receiver: Option<Operand>, first_argument: Option<Operand> },
}

/// The comparison and bitwise operators the cop looks at.
pub open spec fn compared_operators() -> Seq<Seq<u8>> {
    seq![
        "==".spec_bytes(), "!=".spec_bytes(), "===".spec_bytes(), "<=>".spec_bytes(), "=~".spec_bytes(), ">".spec_bytes(),
        ">=".spec_bytes(), "<".spec_bytes(), "<=".spec_bytes(), "|".spec_bytes(), "^".spec_bytes()
    ]
}

pub open spec fn identical_message(op: Seq<u8>) -> Seq<u8> {
    "Binary operator `".spec_bytes() + op + "` has identical operands.".spec_bytes()
}

/// Where the cop reports a node and with which message, if it does.
pub open spec fn identical_offense(s: Seq<u8>, n: BinaryNode) -> Option<(int, Seq<u8>)> {
    match n {
        BinaryNode::And { start, left, right } => if operands_equal(s, left, right) {
            Some((start as int, identical_message("&&".spec_bytes())))
        } else {
            None
        },
        BinaryNode::Or { start, left, right } => if operands_equal(s, left, right) {
            Some((start as int, identical_message("||".spec_bytes())))
        } else {
            None
        },
        BinaryNode::Call { start, name, receiver, first_argument } => match (receiver, first_argument) {
            (Some(r), Some(a)) => if compared_operators().contains(name@) && operands_equal(s, r, a) {
                Some((start as int, identical_message(utf8_or(name@, "?".spec_bytes()))))
            } else {
                None
            },
            _ => None,
        },
    }
}

pub open spec fn binary_node_in_bounds(len: int, n: BinaryNode) -> bool {
    match n {
        BinaryNode::And { start, left, right } => start <= len && operand_in_bounds(len, left) && operand_in_bounds(len, right),
        BinaryNode::Or { start, left, right } => start <= len && operand_in_bounds(len, left) && operand_in_bounds(len, right),
        BinaryNode::Call { start, receiver, first_argument, .. } => start <= len && (receiver matches Some(r)
            ==> operand_in_bounds(len, r)) && (first_argument matches Some(a) ==> operand_in_bounds(len, a)),
    }
}

fn is_compared_operator(name: &[u8]) -> (r: bool)
    ensures
        r == compared_operators().contains(name@),
{
    let ops: Vec<&'static str> = vec!["==", "!=", "===", "<=>", "=~", ">", ">=", "<", "<=", "|", "^"];
    let ghost all = compared_operators();
    assert(ops@.len() == all.len());
    assert(forall|k: int| 0 <= k < ops@.len() ==> (#[trigger] ops@[k]).spec_bytes() == all[k]);
    let mut i: usize = 0;
    while i < ops.len()
        invariant
            i <= ops@.len(),
            all == compared_operators(),
            ops@.len() == all.len(),
            forall|k: int| 0 <= k < ops@.len() ==> (#[trigger] ops@[k]).spec_bytes() == all[k],
            forall|k: int| 0 <= k < i ==> all[k] != name@,
        decreases ops@.len() - i,
    {
        if bytes_eq(name, ops[i].as_bytes()) {
            assert(all[i as int] == name@);
            return true;
        }
        i = i + 1;
    }
    proof {
        if all.contains(name@) {
            let k = choose|k: int| 0 <= k < all.len() && all[k] == name@;
            assert(all[k] != name@);
        }
    }
    false
}

fn identical_diagnostic(source: &[u8], at: usize, op: &[u8]) -> (d: Diagnostic)
    requires
        at <= source@.len() < usize::MAX,
    ensures
        d.location.line == spec_line_col(source@, at as int).0,
        d.location.column == spec_line_col(source@, at as int).1,
        d.message@ == identical_message(op@),
        !d.corrected,
{
    let mut m = message("Binary operator `");
    append(&mut m, op);
    append(&mut m, "` has identical operands.".as_bytes());
    let (line, column) = offset_to_line_col(source, at);
    Diagnostic { location: Location { line, column }, message: m, corrected: false }
}

impl BinaryOperatorWithIdenticalOperands {
    pub fn name(&self) -> (r: &'static str)
        ensures
            r@ == "Lint/BinaryOperatorWithIdenticalOperands"@,
    {
        "Lint/BinaryOperatorWithIdenticalOperands"
    }

    /// The offense of one node, if its operands are identical.
    pub fn check_node(&self, source: &[u8], node: &BinaryNode) -> (r: Option<Diagnostic>)
        requires
            source@.len() < usize::MAX,
            binary_node_in_bounds(source@.len() as int, *node),
        ensures
            match identical_offense(source@, *node) {
                Some((at, msg)) => r matches Some(d) && d.location.line == spec_line_col(source@, at).0
                    && d.location.column == spec_line_col(source@, at).1 && d.message@ == msg && !d.corrected,
                None => r is None,
            },
    {
        match node {
            BinaryNode::And { start, left, right } => {
                if operands_match(source, left, right) {
                    Some(identical_diagnostic(source, *start, "&&".as_bytes()))
                } else {
                    None
                }
            },
            BinaryNode::Or { start, left, right } => {
                if operands_match(source, left, right) {
                    Some(identical_diagnostic(source, *start, "||".as_bytes()))
                } else {
                    None
                }
            },
            BinaryNode::Call { start, name, receiver, first_argument } => match (receiver, first_argument) {
                (Some(r), Some(a)) => {
                    if is_compared_operator(name.as_slice()) && operands_match(source, r, a) {
                        let mut op: Vec<u8> = Vec::new();
                        if utf8_valid(name.as_slice()) {
                            append(&mut op, name.as_slice());
                        } else {
                            append(&mut op, "?".as_bytes());
                        }
                        Some(identical_diagnostic(source, *start, op.as_slice()))
                    } else {
                        None
                    }
                },
                _ => None,
            },
        }
    }
}


/// A call with a receiver and an argument that are the same expression is
/// reported, at its start and naming its operator, exactly when the
/// operator is one of `== != === <=> =~ > >= < <= | ^`.
pub proof fn law_identical_operands_of_compared_operators(s: Seq<u8>, start: usize, name: Vec<u8>, receiver: Operand, argument: Operand)
    requires
        operands_equal(s, receiver, argument),
    ensures
        identical_offense(s, BinaryNode::Call { start, name, receiver: Some(receiver), first_argument: Some(argument) })
            == (if name@ == "==".spec_bytes() || name@ == "!=".spec_bytes() || name@ == "===".spec_bytes() || name@ == "<=>".spec_bytes() || name@ == "=~".spec_bytes() || name@ == ">".spec_bytes() || name@ == ">=".spec_bytes() || name@ == "<".spec_bytes() || name@ == "<=".spec_bytes() || name@ == "|".spec_bytes() || name@ == "^".spec_bytes() {
            Some((start as int, identical_message(utf8_or(name@, "?".spec_bytes()))))
        } else {
            None
        }),
{
    let ops = compared_operators();
    if name@ == "==".spec_bytes() || name@ == "!=".spec_bytes() || name@ == "===".spec_bytes() || name@ == "<=>".spec_bytes() || name@ == "=~".spec_bytes() || name@ == ">".spec_bytes() || name@ == ">=".spec_bytes() || name@ == "<".spec_bytes() || name@ == "<=".spec_bytes() || name@ == "|".spec_bytes() || name@ == "^".spec_bytes() {
        assert(ops.contains(name@)) by {
            if name@ == "==".spec_bytes() { assert(ops[0] == name@); }
            if name@ == "!=".spec_bytes() { assert(ops[1] == name@); }
            if name@ == "===".spec_bytes() { assert(ops[2] == name@); }
            if name@ == "<=>".spec_bytes() { assert(ops[3] == name@); }
            if name@ == "=~".spec_bytes() { assert(ops[4] == name@); }
            if name@ == ">".spec_bytes() { assert(ops[5] == name@); }
            if name@ == ">=".spec_bytes() { assert(ops[6] == name@); }
            if name@ == "<".spec_bytes() { assert(ops[7] == name@); }
            if name@ == "<=".spec_bytes() { assert(ops[8] == name@); }
            if name@ == "|".spec_bytes() { assert(ops[9] == name@); }
            if name@ == "^".spec_bytes() { assert(ops[10] == name@); }
        }
    } else if ops.contains(name@) {
        let k = choose|k: int| 0 <= k < ops.len() && ops[k] == name@;
        assert(ops[k] == name@);
    }
}

} // verus!
