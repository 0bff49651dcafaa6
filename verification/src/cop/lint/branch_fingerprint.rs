//! The fingerprint by which Lint/DuplicateBranch compares branch bodies:
//! string, symbol and regexp contents verbatim, calls, collections and
//! writes by their structure, and any other code by its text with comments
//! dropped and white space normalized.
use vstd::prelude::*;
use vstd::string::StringSliceAdditionalSpecFns;
use crate::bytes::append;
use crate::cop::lint::duplicate_branch::{normalize_source, spec_normalize_whitespace, strip_comments_from};

verus! {

/// A literal inside other code, compared by its content.
pub enum Literal {
    Str { unescaped: Vec<u8> },
    /// An interpolated string: the texts of its parts, one after another.
    InterpolatedStr { parts: Vec<u8> },
    /// A regexp: its content and its closing delimiter with the flags.
    Regex { unescaped: Vec<u8>, closing: Vec<u8> },
    /// An interpolated regexp, by its whole text.
    InterpolatedRegex { text: Vec<u8> },
    Sym { unescaped: Vec<u8> },
    /// An interpolated symbol, by its whole text.
    InterpolatedSym { text: Vec<u8> },
    XStr { unescaped: Vec<u8> },
    /// An interpolated command: the texts of its parts.
    InterpolatedXStr { parts: Vec<u8> },
}

/// A literal spanning `[start, end)` (a heredoc up to the end of its body).
pub struct LiteralSpan {
    pub start: usize,
    pub end: usize,
    pub literal: Literal,
}

pub open spec fn lit(s: &str) -> Seq<u8> {
    s.spec_bytes()
}

/// What stands for a literal in a fingerprint.
pub open spec fn literal_print(l: Literal) -> Seq<u8> {
    match l {
        Literal::Str { unescaped } => lit("S:") + unescaped@,
        Literal::InterpolatedStr { parts } => lit("IS:") + parts@,
        Literal::Regex { unescaped, closing } => lit("R:") + unescaped@ + if closing@.len() > 1 {
            closing@.subrange(1, closing@.len() as int)
        } else {
            seq![]
        },
        Literal::InterpolatedRegex { text } => lit("IR:") + text@,
        Literal::Sym { unescaped } => lit("Y:") + unescaped@,
        Literal::InterpolatedSym { text } => lit("IY:") + text@,
        Literal::XStr { unescaped } => lit("X:") + unescaped@,
        Literal::InterpolatedXStr { parts } => lit("IX:") + parts@,
    }
}

pub open spec fn starts_of(spans: Seq<LiteralSpan>) -> Seq<usize> {
    spans.map_values(|l: LiteralSpan| l.start)
}

/// `order` with index `x` inserted after the last index whose start is at
/// most that of `x`.
pub open spec fn insert_index(order: Seq<int>, starts: Seq<usize>, x: int) -> Seq<int>
    decreases order.len(),
{
    if order.len() == 0 {
        seq![x]
    } else if starts[order.last()] <= starts[x] {
        order.push(x)
    } else {
        insert_index(order.drop_last(), starts, x).push(order.last())
    }
}

/// The indices `0..n` in the order of a stable sort by start.
pub open spec fn sorted_order(starts: Seq<usize>, n: int) -> Seq<int>
    decreases n,
{
    if n <= 0 {
        seq![]
    } else {
        insert_index(sorted_order(starts, n - 1), starts, n - 1)
    }
}

proof fn lemma_insert_index(order: Seq<int>, starts: Seq<usize>, x: int, p: int)
    requires
        0 <= p <= order.len(),
        forall|j: int| p <= j < order.len() ==> starts[#[trigger] order[j]] > starts[x],
        p == 0 || starts[order[p - 1]] <= starts[x],
    ensures
        insert_index(order, starts, x) == order.insert(p, x),
    decreases order.len(),
{
    if order.len() == 0 {
        assert(order.insert(p, x) =~= seq![x]);
    } else if starts[order.last()] <= starts[x] {
        if p < order.len() {
            assert(starts[order[order.len() - 1]] > starts[x]);
        }
        assert(order.insert(p, x) =~= order.push(x));
    } else {
        let d = order.drop_last();
        if p == order.len() {
            assert(starts[order[p - 1]] <= starts[x]);
        }
        assert forall|j: int| p <= j < d.len() implies starts[#[trigger] d[j]] > starts[x] by {
            assert(d[j] == order[j]);
        }
        lemma_insert_index(d, starts, x, p);
        assert(d.insert(p, x).push(order.last()) =~= order.insert(p, x));
    }
}

proof fn lemma_sorted_order_range(starts: Seq<usize>, n: int)
    requires
        0 <= n,
    ensures
        sorted_order(starts, n).len() == n,
        forall|k: int| 0 <= k < n ==> 0 <= #[trigger] sorted_order(starts, n)[k] < n,
    decreases n,
{
    if n > 0 {
        lemma_sorted_order_range(starts, n - 1);
        lemma_insert_index_range(sorted_order(starts, n - 1), starts, n - 1, n);
    }
}

proof fn lemma_insert_index_range(order: Seq<int>, starts: Seq<usize>, x: int, n: int)
    requires
        0 <= x < n,
        forall|k: int| 0 <= k < order.len() ==> 0 <= #[trigger] order[k] < n,
    ensures
        insert_index(order, starts, x).len() == order.len() + 1,
        forall|k: int| 0 <= k < order.len() + 1 ==> 0 <= #[trigger] insert_index(order, starts, x)[k] < n,
    decreases order.len(),
{
    if order.len() > 0 && !(starts[order.last()] <= starts[x]) {
        let d = order.drop_last();
        assert forall|k: int| 0 <= k < d.len() implies 0 <= #[trigger] d[k] < n by {
            assert(d[k] == order[k]);
        }
        lemma_insert_index_range(d, starts, x, n);
        let r = insert_index(d, starts, x);
        assert forall|k: int| 0 <= k < order.len() + 1 implies 0 <= #[trigger] insert_index(order, starts, x)[k] < n by {
            if k < r.len() {
                assert(insert_index(order, starts, x)[k] == r[k]);
            }
        }
    }
}

/// The indices of `spans` in the order of a stable sort by start.
fn sort_by_start(spans: &Vec<LiteralSpan>) -> (order: Vec<usize>)
    ensures
        order@.len() == spans@.len(),
        forall|k: int| 0 <= k < order@.len() ==> (#[trigger] order@[k]) as int == sorted_order(starts_of(spans@), spans@.len() as int)[k],
        forall|k: int| 0 <= k < order@.len() ==> #[trigger] order@[k] < spans@.len(),
{
    let ghost starts = starts_of(spans@);
    let mut order: Vec<usize> = Vec::new();
    let mut x: usize = 0;
    while x < spans.len()
        invariant
            x <= spans@.len(),
            starts == starts_of(spans@),
            order@.len() == x,
            forall|k: int| 0 <= k < x ==> (#[trigger] order@[k]) as int == sorted_order(starts, x as int)[k],
            forall|k: int| 0 <= k < x ==> #[trigger] order@[k] < x,
        decreases spans@.len() - x,
    {
        let ghost prev = sorted_order(starts, x as int);
        proof {
            lemma_sorted_order_range(starts, x as int);
            assert(prev =~= order@.map_values(|i: usize| i as int));
        }
        let key = spans[x].start;
        let mut p = order.len();
        while p > 0 && spans[order[p - 1]].start > key
            invariant
                p <= order@.len() == x,
                x < spans@.len(),
                starts == starts_of(spans@),
                key == starts[x as int],
                forall|k: int| 0 <= k < x ==> #[trigger] order@[k] < x,
                forall|j: int| p <= j < order@.len() ==> starts[(#[trigger] order@[j]) as int] > key,
            decreases p,
        {
            p = p - 1;
        }
        proof {
            let po = order@.map_values(|i: usize| i as int);
            assert forall|j: int| p <= j < po.len() implies starts[#[trigger] po[j]] > starts[x as int] by {
                assert(po[j] == order@[j] as int);
            }
            if p > 0 {
                assert(po[p - 1] == order@[p - 1] as int);
            }
            lemma_insert_index(po, starts, x as int, p as int);
        }
        order.insert(p, x);
        proof {
            let po_old = prev;
            assert(sorted_order(starts, x + 1) == insert_index(po_old, starts, x as int));
            assert forall|k: int| 0 <= k < x + 1 implies (#[trigger] order@[k]) as int == sorted_order(starts, x + 1)[k] by {
                if k < p {
                    assert(order@[k] as int == po_old[k]);
                } else if k > p {
                    assert(order@[k] as int == po_old[k - 1]);
                }
            }
        }
        x = x + 1;
    }
    order
}


/// Text with comments dropped and white space normalized.
pub open spec fn normalized(t: Seq<u8>) -> Seq<u8> {
    spec_normalize_whitespace(strip_comments_from(t, 0))
}

/// `raw` (which starts at `base` in the source) up to the `k`-th literal
/// in `order`: the output so far and how far it has consumed `raw`. The
/// text before each literal is normalized, the literal replaced by what
/// stands for it.
pub open spec fn splice(raw: Seq<u8>, base: int, spans: Seq<LiteralSpan>, order: Seq<int>, k: int) -> (Seq<u8>, int)
    decreases k,
{
    if k <= 0 {
        (seq![], 0)
    } else {
        let (o, c) = splice(raw, base, spans, order, k - 1);
        let sp = spans[order[k - 1]];
        let rs = if sp.start >= base { sp.start - base } else { 0 };
        let re0 = if sp.end >= base { sp.end - base } else { 0 };
        let re = if re0 < raw.len() { re0 } else { raw.len() as int };
        (o + (if rs > c { normalized(raw.subrange(c, rs)) } else { seq![] }) + literal_print(sp.literal), if re > c { re } else { c })
    }
}

/// The fingerprint of code spanning `[start, end)` with the literals
/// `spans` in it.
pub open spec fn text_print(s: Seq<u8>, start: int, end: int, spans: Seq<LiteralSpan>) -> Seq<u8> {
    let e = if end < s.len() { end } else { s.len() as int };
    if start >= e {
        seq![]
    } else {
        let raw = s.subrange(start, e);
        let order = sorted_order(starts_of(spans), spans.len() as int);
        let (out, cursor) = splice(raw, start, spans, order, order.len() as int);
        out + if cursor < raw.len() {
            normalized(raw.subrange(cursor, raw.len() as int))
        } else {
            seq![]
        }
    }
}

/// The literals of a text start inside it.
pub open spec fn text_fits(len: int, start: int, end: int, spans: Seq<LiteralSpan>) -> bool {
    forall|k: int| 0 <= k < spans.len() ==> (#[trigger] spans[k]).start <= (if end < len { end } else { len })
}

proof fn lemma_splice_cursor(raw: Seq<u8>, base: int, spans: Seq<LiteralSpan>, order: Seq<int>, k: int)
    ensures
        0 <= splice(raw, base, spans, order, k).1 <= raw.len(),
    decreases k,
{
    if k > 0 {
        lemma_splice_cursor(raw, base, spans, order, k - 1);
    }
}

fn push_lit(out: &mut Vec<u8>, s: &str)
    ensures
        final(out)@ == old(out)@ + s.spec_bytes(),
{
    append(out, s.as_bytes());
}

fn write_literal(l: &Literal, out: &mut Vec<u8>)
    ensures
        final(out)@ == old(out)@ + literal_print(*l),
{
    let ghost o = out@;
    match l {
        Literal::Str { unescaped } => {
            push_lit(out, "S:");
            append(out, unescaped.as_slice());
        },
        Literal::InterpolatedStr { parts } => {
            push_lit(out, "IS:");
            append(out, parts.as_slice());
        },
        Literal::Regex { unescaped, closing } => {
            push_lit(out, "R:");
            append(out, unescaped.as_slice());
            if closing.len() > 1 {
                append(out, &closing.as_slice()[1..closing.len()]);
            }
        },
        Literal::InterpolatedRegex { text } => {
            push_lit(out, "IR:");
            append(out, text.as_slice());
        },
        Literal::Sym { unescaped } => {
            push_lit(out, "Y:");
            append(out, unescaped.as_slice());
        },
        Literal::InterpolatedSym { text } => {
            push_lit(out, "IY:");
            append(out, text.as_slice());
        },
        Literal::XStr { unescaped } => {
            push_lit(out, "X:");
            append(out, unescaped.as_slice());
        },
        Literal::InterpolatedXStr { parts } => {
            push_lit(out, "IX:");
            append(out, parts.as_slice());
        },
    }
    assert(out@ =~= o + literal_print(*l));
}

/// Appends the fingerprint of code spanning `[start, end)` with the
/// literals `spans` in it.
pub fn write_text(bytes: &[u8], start: usize, end: usize, spans: &Vec<LiteralSpan>, out: &mut Vec<u8>)
    requires
        text_fits(bytes@.len() as int, start as int, end as int, spans@),
    ensures
        final(out)@ == old(out)@ + text_print(bytes@, start as int, end as int, spans@),
{
    let n = bytes.len();
    let e = if end < n { end } else { n };
    if start >= e {
        assert(out@ =~= old(out)@ + text_print(bytes@, start as int, end as int, spans@));
        return;
    }
    let ghost o = out@;
    let raw = &bytes[start..e];
    assert(raw@ =~= bytes@.subrange(start as int, e as int));
    let order = sort_by_start(spans);
    let ghost order_spec = sorted_order(starts_of(spans@), spans@.len() as int);
    proof {
        lemma_sorted_order_range(starts_of(spans@), spans@.len() as int);
    }
    let mut cursor: usize = 0;
    let mut k: usize = 0;
    while k < order.len()
        invariant
            k <= order@.len() == spans@.len(),
            order_spec == sorted_order(starts_of(spans@), spans@.len() as int),
            order_spec.len() == spans@.len(),
            forall|j: int| 0 <= j < order@.len() ==> (#[trigger] order@[j]) as int == order_spec[j],
            forall|j: int| 0 <= j < order@.len() ==> #[trigger] order@[j] < spans@.len(),
            text_fits(bytes@.len() as int, start as int, end as int, spans@),
            e == (if end < bytes@.len() { end as int } else { bytes@.len() as int }),
            start < e,
            raw@ == bytes@.subrange(start as int, e as int),
            cursor <= raw@.len(),
            out@ == o + splice(raw@, start as int, spans@, order_spec, k as int).0,
            cursor as int == splice(raw@, start as int, spans@, order_spec, k as int).1,
        decreases order@.len() - k,
    {
        let sp = &spans[order[k]];
        let rs = if sp.start >= start { sp.start - start } else { 0 };
        let re0 = if sp.end >= start { sp.end - start } else { 0 };
        let re = if re0 < raw.len() { re0 } else { raw.len() };
        if rs > cursor {
            let gap = &raw[cursor..rs];
            assert(gap@ =~= raw@.subrange(cursor as int, rs as int));
            let mut piece = normalize_source(gap);
            out.append(&mut piece);
        }
        write_literal(&sp.literal, out);
        if re > cursor {
            cursor = re;
        }
        k = k + 1;
        assert(out@ =~= o + splice(raw@, start as int, spans@, order_spec, k as int).0);
    }
    if cursor < raw.len() {
        let rest = &raw[cursor..raw.len()];
        assert(rest@ =~= raw@.subrange(cursor as int, raw@.len() as int));
        let mut tail = normalize_source(rest);
        out.append(&mut tail);
    }
    assert(out@ =~= o + text_print(bytes@, start as int, end as int, spans@));
}


/// A statement or expression, as far as its fingerprint reads it.
pub enum PrintNode {
    Str { unescaped: Vec<u8> },
    Sym { unescaped: Vec<u8> },
    /// The float `0.0`, or `-0.0` or `-0`: all print as `0.0`.
    Zero,
    /// A method call: its receiver with the call operator written after
    /// it (`None` for none written), name, arguments and block.
    Call {
        receiver: Option<Box<PrintNode>>,
        operator: Option<Vec<u8>>,
        name: Vec<u8>,
        arguments: Vec<PrintNode>,
        block: Option<Box<PrintNode>>,
    },
    Return { arguments: Vec<PrintNode> },
    /// A block with its parameters and body.
    Block { parameters: Option<Box<PrintNode>>, body: Option<BlockBody> },
    LocalWrite { name: Vec<u8>, value: Box<PrintNode> },
    InstanceWrite { name: Vec<u8>, value: Box<PrintNode> },
    Array { elements: Vec<PrintNode> },
    /// A hash literal or the bare hash of keyword arguments.
    Hash { elements: Vec<PrintNode> },
    Pair { key: Box<PrintNode>, value: Box<PrintNode> },
    /// `**value`, or `**` alone.
    DoubleSplat { value: Option<Box<PrintNode>> },
    /// Any other code: its text `[start, end)`, extended to the end of the
    /// heredoc bodies it holds, and the literals in it.
    Text { start: usize, end: usize, literals: Vec<LiteralSpan> },
}

/// The body of a block: a list of statements, or a single other node.
pub enum BlockBody {
    Statements(Vec<PrintNode>),
    Other(Box<PrintNode>),
}

/// The fingerprint of a node.
pub open spec fn print(s: Seq<u8>, n: PrintNode) -> Seq<u8>
    decreases n, 1int,
{
    match n {
        PrintNode::Str { unescaped } => lit("S:") + unescaped@,
        PrintNode::Sym { unescaped } => lit("Y:") + unescaped@,
        PrintNode::Zero => lit("F:0.0"),
        PrintNode::Call { receiver, operator, name, arguments, block } => lit("C:") + (match receiver {
            Some(r) => print(s, *r) + match operator {
                Some(op) => op@,
                None => lit("."),
            },
            None => seq![],
        }) + name@ + lit("(") + print_list(s, arguments@, arguments@.len() as int) + lit(")") + match block {
            Some(b) => lit("{") + print(s, *b) + lit("}"),
            None => seq![],
        },
        PrintNode::Return { arguments } => lit("RET(") + print_list(s, arguments@, arguments@.len() as int) + lit(")"),
        PrintNode::Block { parameters, body } => lit("BLK(") + (match parameters {
            Some(p) => print(s, *p),
            None => lit("-"),
        }) + lit("|") + (match body {
            Some(BlockBody::Statements(v)) => statements_print(s, v@),
            Some(BlockBody::Other(b)) => print(s, *b),
            None => seq![],
        }) + lit(")"),
        PrintNode::LocalWrite { name, value } => lit("LVW:") + name@ + lit("=") + print(s, *value),
        PrintNode::InstanceWrite { name, value } => lit("IVW:") + name@ + lit("=") + print(s, *value),
        PrintNode::Array { elements } => lit("A[") + print_list(s, elements@, elements@.len() as int) + lit("]"),
        PrintNode::Hash { elements } => lit("H{") + print_list(s, elements@, elements@.len() as int) + lit("}"),
        PrintNode::Pair { key, value } => lit("P(") + print(s, *key) + lit("=>") + print(s, *value) + lit(")"),
        PrintNode::DoubleSplat { value } => lit("AS:") + match value {
            Some(v) => print(s, *v),
            None => lit("-"),
        },
        PrintNode::Text { start, end, literals } => text_print(s, start as int, end as int, literals@),
    }
}

/// The fingerprints of the first `n` nodes, separated by commas.
pub open spec fn print_list(s: Seq<u8>, nodes: Seq<PrintNode>, n: int) -> Seq<u8>
    decreases nodes, 0int, n,
{
    if n <= 0 || n > nodes.len() {
        seq![]
    } else if n == 1 {
        print(s, nodes[0])
    } else {
        print_list(s, nodes, n - 1) + lit(",") + print(s, nodes[n - 1])
    }
}

/// The fingerprints of the first `n` statements, separated by zero bytes.
pub open spec fn print_joined(s: Seq<u8>, nodes: Seq<PrintNode>, n: int) -> Seq<u8>
    decreases nodes, 0int, n,
{
    if n <= 0 || n > nodes.len() {
        seq![]
    } else if n == 1 {
        print(s, nodes[0])
    } else {
        print_joined(s, nodes, n - 1) + seq![0u8] + print(s, nodes[n - 1])
    }
}

/// The fingerprint of a list of statements: none for no statement, a
/// lone string by its content, else each statement's.
pub open spec fn statements_print(s: Seq<u8>, stmts: Seq<PrintNode>) -> Seq<u8>
    decreases stmts, 1int,
{
    if stmts.len() == 0 {
        seq![]
    } else if stmts.len() == 1 && stmts[0] is Str {
        lit("string:") + stmts[0]->Str_unescaped@
    } else {
        print_joined(s, stmts, stmts.len() as int)
    }
}


/// The literals of every text in a node start inside that text.
pub open spec fn print_fits(len: int, n: PrintNode) -> bool
    decreases n, 1int,
{
    match n {
        PrintNode::Call { receiver, arguments, block, .. } => (match receiver {
            Some(r) => print_fits(len, *r),
            None => true,
        }) && all_fit(len, arguments@, arguments@.len() as int) && match block {
            Some(b) => print_fits(len, *b),
            None => true,
        },
        PrintNode::Return { arguments } => all_fit(len, arguments@, arguments@.len() as int),
        PrintNode::Block { parameters, body } => (match parameters {
            Some(p) => print_fits(len, *p),
            None => true,
        }) && match body {
            Some(BlockBody::Statements(v)) => all_fit(len, v@, v@.len() as int),
            Some(BlockBody::Other(b)) => print_fits(len, *b),
            None => true,
        },
        PrintNode::LocalWrite { value, .. } => print_fits(len, *value),
        PrintNode::InstanceWrite { value, .. } => print_fits(len, *value),
        PrintNode::Array { elements } => all_fit(len, elements@, elements@.len() as int),
        PrintNode::Hash { elements } => all_fit(len, elements@, elements@.len() as int),
        PrintNode::Pair { key, value } => print_fits(len, *key) && print_fits(len, *value),
        PrintNode::DoubleSplat { value } => match value {
            Some(v) => print_fits(len, *v),
            None => true,
        },
        PrintNode::Text { start, end, literals } => text_fits(len, start as int, end as int, literals@),
        _ => true,
    }
}

pub open spec fn all_fit(len: int, nodes: Seq<PrintNode>, n: int) -> bool
    decreases nodes, 0int, n,
{
    if n <= 0 || n > nodes.len() {
        true
    } else {
        all_fit(len, nodes, n - 1) && print_fits(len, nodes[n - 1])
    }
}

proof fn lemma_all_fit(len: int, nodes: Seq<PrintNode>, n: int, k: int)
    requires
        all_fit(len, nodes, n),
        0 <= k < n <= nodes.len(),
    ensures
        print_fits(len, nodes[k]),
    decreases n,
{
    if k < n - 1 {
        lemma_all_fit(len, nodes, n - 1, k);
    }
}

/// Appends the fingerprint of `node` to `out`.
#[verifier::rlimit(40)]
pub fn write_print(bytes: &[u8], node: &PrintNode, out: &mut Vec<u8>)
    requires
        print_fits(bytes@.len() as int, *node),
    ensures
        final(out)@ == old(out)@ + print(bytes@, *node),
    decreases node, 1int,
{
    let ghost o = out@;
    match node {
        PrintNode::Str { unescaped } => {
            push_lit(out, "S:");
            append(out, unescaped.as_slice());
            assert(out@ =~= o + print(bytes@, *node));
        },
        PrintNode::Sym { unescaped } => {
            push_lit(out, "Y:");
            append(out, unescaped.as_slice());
            assert(out@ =~= o + print(bytes@, *node));
        },
        PrintNode::Zero => {
            push_lit(out, "F:0.0");
            assert(out@ =~= o + print(bytes@, *node));
        },
        PrintNode::Call { .. } => {
            write_call(bytes, node, out);
        },
        PrintNode::Return { arguments } => {
            push_lit(out, "RET(");
            write_list(bytes, arguments, false, out);
            push_lit(out, ")");
            assert(out@ =~= o + print(bytes@, *node));
        },
        PrintNode::Block { .. } => {
            write_block(bytes, node, out);
        },
        PrintNode::LocalWrite { name, value } => {
            push_lit(out, "LVW:");
            append(out, name.as_slice());
            push_lit(out, "=");
            write_print(bytes, &**value, out);
            assert(out@ =~= o + print(bytes@, *node));
        },
        PrintNode::InstanceWrite { name, value } => {
            push_lit(out, "IVW:");
            append(out, name.as_slice());
            push_lit(out, "=");
            write_print(bytes, &**value, out);
            assert(out@ =~= o + print(bytes@, *node));
        },
        PrintNode::Array { elements } => {
            push_lit(out, "A[");
            write_list(bytes, elements, false, out);
            push_lit(out, "]");
            assert(out@ =~= o + print(bytes@, *node));
        },
        PrintNode::Hash { elements } => {
            push_lit(out, "H{");
            write_list(bytes, elements, false, out);
            push_lit(out, "}");
            assert(out@ =~= o + print(bytes@, *node));
        },
        PrintNode::Pair { key, value } => {
            push_lit(out, "P(");
            write_print(bytes, &**key, out);
            push_lit(out, "=>");
            write_print(bytes, &**value, out);
            push_lit(out, ")");
            assert(out@ =~= o + print(bytes@, *node));
        },
        PrintNode::DoubleSplat { value } => {
            push_lit(out, "AS:");
            match value {
                Some(v) => write_print(bytes, &**v, out),
                None => push_lit(out, "-"),
            }
            assert(out@ =~= o + print(bytes@, *node));
        },
        PrintNode::Text { start, end, literals } => {
            write_text(bytes, *start, *end, literals, out);
            assert(out@ =~= o + print(bytes@, *node));
        },
    }
}


#[verifier::rlimit(100)]
fn write_call(bytes: &[u8], node: &PrintNode, out: &mut Vec<u8>)
    requires
        node is Call,
        print_fits(bytes@.len() as int, *node),
    ensures
        final(out)@ == old(out)@ + print(bytes@, *node),
    decreases node, 0int,
{
    let ghost o = out@;
    if let PrintNode::Call { receiver, operator, name, arguments, block } = node {
        let ghost recv_part = match receiver {
            Some(r) => print(bytes@, **r) + match operator {
                Some(op) => op@,
                None => lit("."),
            },
            None => seq![],
        };
        let ghost block_part = match block {
            Some(b) => lit("{") + print(bytes@, **b) + lit("}"),
            None => seq![],
        };
        let ghost args_part = print_list(bytes@, arguments@, arguments@.len() as int);
        assert(print(bytes@, *node) == lit("C:") + recv_part + name@ + lit("(") + args_part + lit(")") + block_part);
        push_lit(out, "C:");
        match receiver {
            Some(r) => {
                write_print(bytes, &**r, out);
                match operator {
                    Some(op) => append(out, op.as_slice()),
                    None => push_lit(out, "."),
                }
            },
            None => {},
        }
        assert(out@ =~= o + lit("C:") + recv_part);
        append(out, name.as_slice());
        push_lit(out, "(");
        write_list(bytes, arguments, false, out);
        push_lit(out, ")");
        assert(out@ =~= o + lit("C:") + recv_part + name@ + lit("(") + args_part + lit(")"));
        let ghost mid = out@;
        match block {
            Some(b) => {
                push_lit(out, "{");
                write_print(bytes, &**b, out);
                push_lit(out, "}");
            },
            None => {},
        }
        assert(out@ =~= mid + block_part);
    }
    assert(out@ =~= o + print(bytes@, *node));
}

#[verifier::rlimit(60)]
fn write_block(bytes: &[u8], node: &PrintNode, out: &mut Vec<u8>)
    requires
        node is Block,
        print_fits(bytes@.len() as int, *node),
    ensures
        final(out)@ == old(out)@ + print(bytes@, *node),
    decreases node, 0int,
{
    let ghost o = out@;
    if let PrintNode::Block { parameters, body } = node {
        let ghost params_part = match parameters {
            Some(p) => print(bytes@, **p),
            None => lit("-"),
        };
        let ghost body_part = match body {
            Some(BlockBody::Statements(v)) => statements_print(bytes@, v@),
            Some(BlockBody::Other(b)) => print(bytes@, **b),
            None => seq![],
        };
        assert(print(bytes@, *node) == lit("BLK(") + params_part + lit("|") + body_part + lit(")"));
        push_lit(out, "BLK(");
        match parameters {
            Some(p) => write_print(bytes, &**p, out),
            None => push_lit(out, "-"),
        }
        push_lit(out, "|");
        assert(out@ =~= o + lit("BLK(") + params_part + lit("|"));
        let ghost mid = out@;
        match body {
            Some(BlockBody::Statements(v)) => write_statements(bytes, v, out),
            Some(BlockBody::Other(b)) => write_print(bytes, &**b, out),
            None => {},
        }
        push_lit(out, ")");
        assert(out@ =~= mid + body_part + lit(")"));
    }
    assert(out@ =~= o + print(bytes@, *node));
}

/// Appends the fingerprints of `nodes`, separated by commas, or by zero
/// bytes when `joined`.
fn write_list(bytes: &[u8], nodes: &Vec<PrintNode>, joined: bool, out: &mut Vec<u8>)
    requires
        all_fit(bytes@.len() as int, nodes@, nodes@.len() as int),
    ensures
        final(out)@ == old(out)@ + if joined {
            print_joined(bytes@, nodes@, nodes@.len() as int)
        } else {
            print_list(bytes@, nodes@, nodes@.len() as int)
        },
    decreases nodes, 0int, 0int,
{
    let ghost o = out@;
    let mut i: usize = 0;
    while i < nodes.len()
        invariant
            i <= nodes@.len(),
            all_fit(bytes@.len() as int, nodes@, nodes@.len() as int),
            out@ == o + if joined {
                print_joined(bytes@, nodes@, i as int)
            } else {
                print_list(bytes@, nodes@, i as int)
            },
        decreases nodes@.len() - i,
    {
        proof {
            lemma_all_fit(bytes@.len() as int, nodes@, nodes@.len() as int, i as int);
        }
        if i > 0 {
            if joined {
                out.push(0u8);
            } else {
                push_lit(out, ",");
            }
        }
        write_print(bytes, &nodes[i], out);
        i = i + 1;
        assert(out@ =~= o + if joined {
            print_joined(bytes@, nodes@, i as int)
        } else {
            print_list(bytes@, nodes@, i as int)
        });
    }
}

fn write_statements(bytes: &[u8], stmts: &Vec<PrintNode>, out: &mut Vec<u8>)
    requires
        all_fit(bytes@.len() as int, stmts@, stmts@.len() as int),
    ensures
        final(out)@ == old(out)@ + statements_print(bytes@, stmts@),
    decreases stmts, 1int, 0int,
{
    let ghost o = out@;
    if stmts.len() == 1 {
        if let PrintNode::Str { unescaped } = &stmts[0] {
            push_lit(out, "string:");
            append(out, unescaped.as_slice());
            assert(out@ =~= o + statements_print(bytes@, stmts@));
            return;
        }
    }
    write_list(bytes, stmts, true, out);
    assert(out@ =~= o + statements_print(bytes@, stmts@));
}

/// The fingerprint of the statements of a branch; empty when it has none.
pub fn statements_fingerprint(bytes: &[u8], stmts: &Option<Vec<PrintNode>>) -> (r: Vec<u8>)
    requires
        stmts matches Some(v) ==> all_fit(bytes@.len() as int, v@, v@.len() as int),
    ensures
        r@ == match stmts {
            Some(v) => statements_print(bytes@, v@),
            None => seq![],
        },
{
    let mut out: Vec<u8> = Vec::new();
    match stmts {
        Some(v) => write_statements(bytes, v, &mut out),
        None => {},
    }
    assert(out@ =~= match stmts {
        Some(v) => statements_print(bytes@, v@),
        None => seq![],
    });
    out
}

} // verus!
