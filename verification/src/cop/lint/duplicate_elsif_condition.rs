//! Lint/DuplicateElsifCondition: an `elsif` whose condition repeats an
//! earlier condition of the same chain.
use vstd::prelude::*;
use vstd::string::StringSliceAdditionalSpecFns;
use crate::bytes::append;
use crate::diagnostic::{message, Diagnostic, Location};
use crate::text::{bytes_eq, contains_bytes, offset_to_line_col, spec_line_col, views};

verus! {

pub struct DuplicateElsifCondition;

pub const DUPLICATE_ELSIF_MESSAGE: &'static str = "Duplicate `elsif` condition detected.";

/// A condition, as far as its comparison needs it.
pub enum CondNode {
    /// A method call: receiver, name, arguments and block.
    Call { receiver: Option<Box<CondNode>>, name: Vec<u8>, arguments: Vec<CondNode>, block: Option<Box<CondNode>> },
    /// An array literal.
    Array { elements: Vec<CondNode> },
    /// A hash literal, or the bare hash of keyword arguments.
    Hash { elements: Vec<CondNode> },
    /// A pair `key => value` or `key: value`.
    Assoc { key: Box<CondNode>, value: Box<CondNode> },
    /// A regular expression: its content and its closing delimiter with
    /// the flags.
    Regex { unescaped: Vec<u8>, closing: Vec<u8> },
    Str { unescaped: Vec<u8> },
    InterpolatedStr { parts: Vec<CondNode> },
    Sym { unescaped: Vec<u8> },
    InterpolatedSym { parts: Vec<CondNode> },
    /// `#{...}` with its statements, if any.
    EmbeddedStatements { statements: Option<Vec<CondNode>> },
    /// `#@var`.
    EmbeddedVariable { variable: Box<CondNode> },
    ConstantPath { parent: Option<Box<CondNode>>, name: Option<Vec<u8>> },
    ConstantRead { name: Vec<u8> },
    /// Anything else, compared by its source text `[start, end)`.
    Other { start: usize, end: usize },
}

/// One branch of an `if` chain.
pub struct IfBranch {
    /// The `if` or `elsif` keyword; none for a ternary or modifier.
    pub keyword: Option<Vec<u8>>,
    pub predicate: CondNode,
    /// Where the predicate starts.
    pub predicate_start: usize,
    pub subsequent: Option<Box<Subsequent>>,
}

/// What follows a branch.
pub enum Subsequent {
    Elsif { branch: IfBranch },
    /// `else` with its statements, if it has any.
    Else { statements: Option<Vec<ElseStatement>> },
}

pub enum ElseStatement {
    If { branch: IfBranch },
    Other,
}

pub open spec fn lit(s: &str) -> Seq<u8> {
    s.spec_bytes()
}

/// The text by which two conditions are compared.
pub open spec fn fingerprint(s: Seq<u8>, node: CondNode) -> Seq<u8>
    decreases node, 0int,
{
    match node {
        CondNode::Call { receiver, name, arguments, block } => {
            lit("C:") + (match receiver {
                Some(r) => fingerprint(s, *r) + lit("."),
                None => seq![],
            }) + name@ + lit("(") + fingerprint_list(s, arguments@, arguments@.len() as int, lit(",")) + lit(")") + match block {
                Some(b) => lit("{") + fingerprint(s, *b) + lit("}"),
                None => seq![],
            }
        },
        CondNode::Array { elements } => lit("A:[") + fingerprint_list(s, elements@, elements@.len() as int, lit(",")) + lit("]"),
        CondNode::Hash { elements } => lit("H:{") + fingerprint_list(s, elements@, elements@.len() as int, lit(",")) + lit("}"),
        CondNode::Assoc { key, value } => fingerprint(s, *key) + lit("=>") + fingerprint(s, *value),
        CondNode::Regex { unescaped, closing } => lit("R:") + unescaped@ + if closing@.len() > 1 {
            lit("/") + closing@.subrange(1, closing@.len() as int)
        } else {
            seq![]
        },
        CondNode::Str { unescaped } => lit("S:") + unescaped@,
        CondNode::InterpolatedStr { parts } => lit("D:") + fingerprint_parts(s, parts@, parts@.len() as int),
        CondNode::Sym { unescaped } => lit("Y:") + unescaped@,
        CondNode::InterpolatedSym { parts } => lit("YS:") + fingerprint_parts(s, parts@, parts@.len() as int),
        CondNode::EmbeddedStatements { statements } => lit("ES:{") + (match statements {
            Some(st) => fingerprint_list(s, st@, st@.len() as int, lit(";")),
            None => seq![],
        }) + lit("}"),
        CondNode::EmbeddedVariable { variable } => lit("EV:{") + fingerprint(s, *variable) + lit("}"),
        CondNode::ConstantPath { parent, name } => lit("CP:") + (match parent {
            Some(p) => fingerprint(s, *p),
            None => seq![],
        }) + lit("::") + match name {
            Some(n) => n@,
            None => seq![],
        },
        CondNode::ConstantRead { name } => lit("CR:") + name@,
        CondNode::Other { start, end } => s.subrange(start as int, end as int),
    }
}

/// The fingerprints of the first `n` nodes, with `sep` between them.
pub open spec fn fingerprint_list(s: Seq<u8>, nodes: Seq<CondNode>, n: int, sep: Seq<u8>) -> Seq<u8>
    decreases nodes, n,
{
    if n <= 0 || n > nodes.len() {
        seq![]
    } else if n == 1 {
        fingerprint(s, nodes[0])
    } else {
        fingerprint_list(s, nodes, n - 1, sep) + sep + fingerprint(s, nodes[n - 1])
    }
}

/// The fingerprints of the first `n` parts, each in brackets.
pub open spec fn fingerprint_parts(s: Seq<u8>, nodes: Seq<CondNode>, n: int) -> Seq<u8>
    decreases nodes, n,
{
    if n <= 0 || n > nodes.len() {
        seq![]
    } else {
        fingerprint_parts(s, nodes, n - 1) + lit("[") + fingerprint(s, nodes[n - 1]) + lit("]")
    }
}

/// Every source span a condition mentions lies in the source.
pub open spec fn cond_in_bounds(len: int, node: CondNode) -> bool
    decreases node, 0int,
{
    match node {
        CondNode::Call { receiver, arguments, block, .. } => (match receiver {
            Some(r) => cond_in_bounds(len, *r),
            None => true,
        }) && list_in_bounds(len, arguments@, arguments@.len() as int) && match block {
            Some(b) => cond_in_bounds(len, *b),
            None => true,
        },
        CondNode::Array { elements } => list_in_bounds(len, elements@, elements@.len() as int),
        CondNode::Hash { elements } => list_in_bounds(len, elements@, elements@.len() as int),
        CondNode::Assoc { key, value } => cond_in_bounds(len, *key) && cond_in_bounds(len, *value),
        CondNode::InterpolatedStr { parts } => list_in_bounds(len, parts@, parts@.len() as int),
        CondNode::InterpolatedSym { parts } => list_in_bounds(len, parts@, parts@.len() as int),
        CondNode::EmbeddedStatements { statements } => match statements {
            Some(st) => list_in_bounds(len, st@, st@.len() as int),
            None => true,
        },
        CondNode::EmbeddedVariable { variable } => cond_in_bounds(len, *variable),
        CondNode::ConstantPath { parent, .. } => match parent {
            Some(p) => cond_in_bounds(len, *p),
            None => true,
        },
        CondNode::Other { start, end } => start <= end <= len,
        _ => true,
    }
}

pub open spec fn list_in_bounds(len: int, nodes: Seq<CondNode>, n: int) -> bool
    decreases nodes, n,
{
    if n <= 0 || n > nodes.len() {
        true
    } else {
        list_in_bounds(len, nodes, n - 1) && cond_in_bounds(len, nodes[n - 1])
    }
}

pub proof fn lemma_list_in_bounds(len: int, nodes: Seq<CondNode>, n: int, k: int)
    requires
        list_in_bounds(len, nodes, n),
        0 <= k < n <= nodes.len(),
    ensures
        cond_in_bounds(len, nodes[k]),
    decreases n,
{
    if k < n - 1 {
        lemma_list_in_bounds(len, nodes, n - 1, k);
    }
}

fn push_lit(out: &mut Vec<u8>, s: &str)
    ensures
        final(out)@ == old(out)@ + s.spec_bytes(),
{
    append(out, s.as_bytes());
}

/// Appends the fingerprint of `node` to `out`.
#[verifier::rlimit(40)]
pub fn write_condition_fingerprint(bytes: &[u8], node: &CondNode, out: &mut Vec<u8>)
    requires
        cond_in_bounds(bytes@.len() as int, *node),
    ensures
        final(out)@ == old(out)@ + fingerprint(bytes@, *node),
    decreases node, 1int,
{
    let ghost o = out@;
    match node {
        CondNode::Call { receiver, name, arguments, block } => {
            push_lit(out, "C:");
            match receiver {
                Some(r) => {
                    write_condition_fingerprint(bytes, &**r, out);
                    push_lit(out, ".");
                },
                None => {},
            }
            append(out, name.as_slice());
            push_lit(out, "(");
            write_fingerprint_list(bytes, arguments, ",", out);
            push_lit(out, ")");
            match block {
                Some(b) => {
                    push_lit(out, "{");
                    write_condition_fingerprint(bytes, &**b, out);
                    push_lit(out, "}");
                },
                None => {},
            }
            assert(out@ =~= o + fingerprint(bytes@, *node));
        },
        CondNode::Array { elements } => {
            push_lit(out, "A:[");
            write_fingerprint_list(bytes, elements, ",", out);
            push_lit(out, "]");
            assert(out@ =~= o + fingerprint(bytes@, *node));
        },
        CondNode::Hash { elements } => {
            push_lit(out, "H:{");
            write_fingerprint_list(bytes, elements, ",", out);
            push_lit(out, "}");
            assert(out@ =~= o + fingerprint(bytes@, *node));
        },
        CondNode::Assoc { key, value } => {
            write_condition_fingerprint(bytes, &**key, out);
            push_lit(out, "=>");
            write_condition_fingerprint(bytes, &**value, out);
            assert(out@ =~= o + fingerprint(bytes@, *node));
        },
        CondNode::Regex { unescaped, closing } => {
            push_lit(out, "R:");
            append(out, unescaped.as_slice());
            if closing.len() > 1 {
                push_lit(out, "/");
                append(out, &closing.as_slice()[1..closing.len()]);
            }
            assert(out@ =~= o + fingerprint(bytes@, *node));
        },
        CondNode::Str { unescaped } => {
            push_lit(out, "S:");
            append(out, unescaped.as_slice());
            assert(out@ =~= o + fingerprint(bytes@, *node));
        },
        CondNode::InterpolatedStr { parts } => {
            push_lit(out, "D:");
            write_fingerprint_parts(bytes, parts, out);
            assert(out@ =~= o + fingerprint(bytes@, *node));
        },
        CondNode::Sym { unescaped } => {
            push_lit(out, "Y:");
            append(out, unescaped.as_slice());
            assert(out@ =~= o + fingerprint(bytes@, *node));
        },
        CondNode::InterpolatedSym { parts } => {
            push_lit(out, "YS:");
            write_fingerprint_parts(bytes, parts, out);
            assert(out@ =~= o + fingerprint(bytes@, *node));
        },
        CondNode::EmbeddedStatements { statements } => {
            push_lit(out, "ES:{");
            match statements {
                Some(st) => write_fingerprint_list(bytes, st, ";", out),
                None => {},
            }
            push_lit(out, "}");
            assert(out@ =~= o + fingerprint(bytes@, *node));
        },
        CondNode::EmbeddedVariable { variable } => {
            push_lit(out, "EV:{");
            write_condition_fingerprint(bytes, &**variable, out);
            push_lit(out, "}");
            assert(out@ =~= o + fingerprint(bytes@, *node));
        },
        CondNode::ConstantPath { parent, name } => {
            push_lit(out, "CP:");
            match parent {
                Some(p) => write_condition_fingerprint(bytes, &**p, out),
                None => {},
            }
            push_lit(out, "::");
            match name {
                Some(n) => append(out, n.as_slice()),
                None => {},
            }
            assert(out@ =~= o + fingerprint(bytes@, *node));
        },
        CondNode::ConstantRead { name } => {
            push_lit(out, "CR:");
            append(out, name.as_slice());
            assert(out@ =~= o + fingerprint(bytes@, *node));
        },
        CondNode::Other { start, end } => {
            append(out, &bytes[*start..*end]);
        },
    }
}

fn write_fingerprint_list(bytes: &[u8], nodes: &Vec<CondNode>, sep: &str, out: &mut Vec<u8>)
    requires
        list_in_bounds(bytes@.len() as int, nodes@, nodes@.len() as int),
    ensures
        final(out)@ == old(out)@ + fingerprint_list(bytes@, nodes@, nodes@.len() as int, sep.spec_bytes()),
    decreases nodes, 0int,
{
    let ghost o = out@;
    let mut i: usize = 0;
    while i < nodes.len()
        invariant
            i <= nodes@.len(),
            list_in_bounds(bytes@.len() as int, nodes@, nodes@.len() as int),
            out@ == o + fingerprint_list(bytes@, nodes@, i as int, sep.spec_bytes()),
        decreases nodes@.len() - i,
    {
        proof {
            lemma_list_in_bounds(bytes@.len() as int, nodes@, nodes@.len() as int, i as int);
        }
        if i > 0 {
            push_lit(out, sep);
        }
        write_condition_fingerprint(bytes, &nodes[i], out);
        i = i + 1;
        assert(out@ =~= o + fingerprint_list(bytes@, nodes@, i as int, sep.spec_bytes()));
    }
}

fn write_fingerprint_parts(bytes: &[u8], nodes: &Vec<CondNode>, out: &mut Vec<u8>)
    requires
        list_in_bounds(bytes@.len() as int, nodes@, nodes@.len() as int),
    ensures
        final(out)@ == old(out)@ + fingerprint_parts(bytes@, nodes@, nodes@.len() as int),
    decreases nodes, 0int,
{
    let ghost o = out@;
    let mut i: usize = 0;
    while i < nodes.len()
        invariant
            i <= nodes@.len(),
            list_in_bounds(bytes@.len() as int, nodes@, nodes@.len() as int),
            out@ == o + fingerprint_parts(bytes@, nodes@, i as int),
        decreases nodes@.len() - i,
    {
        proof {
            lemma_list_in_bounds(bytes@.len() as int, nodes@, nodes@.len() as int, i as int);
        }
        push_lit(out, "[");
        write_condition_fingerprint(bytes, &nodes[i], out);
        push_lit(out, "]");
        i = i + 1;
        assert(out@ =~= o + fingerprint_parts(bytes@, nodes@, i as int));
    }
}

/// The fingerprint of a condition.
pub fn condition_fingerprint(bytes: &[u8], node: &CondNode) -> (r: Vec<u8>)
    requires
        cond_in_bounds(bytes@.len() as int, *node),
    ensures
        r@ == fingerprint(bytes@, *node),
{
    let mut out: Vec<u8> = Vec::new();
    write_condition_fingerprint(bytes, node, &mut out);
    assert(out@ =~= fingerprint(bytes@, *node));
    out
}

/// The conditions of a chain, starting at `b`: each `elsif`, and an
/// `else` whose only statement is an `if`, continue it.
pub open spec fn chain(b: IfBranch) -> Seq<(CondNode, usize)>
    decreases b,
{
    seq![(b.predicate, b.predicate_start)] + match b.subsequent {
        Some(sub) => match *sub {
            Subsequent::Elsif { branch } => chain(branch),
            Subsequent::Else { statements } => match statements {
                Some(v) => if v@.len() == 1 {
                    match v@[0] {
                        ElseStatement::If { branch } => chain(branch),
                        ElseStatement::Other => seq![],
                    }
                } else {
                    seq![]
                },
                None => seq![],
            },
        },
        None => seq![],
    }
}

/// The starts of the conditions among the first `n` that repeat an
/// earlier one.
pub open spec fn duplicate_conditions(s: Seq<u8>, ch: Seq<(CondNode, usize)>, n: int) -> Seq<int>
    decreases n,
{
    if n <= 0 {
        seq![]
    } else {
        duplicate_conditions(s, ch, n - 1) + if exists|j: int| 0 <= j < n - 1 && fingerprint(s, #[trigger] ch[j].0) == fingerprint(s, ch[n - 1].0) {
            seq![ch[n - 1].1 as int]
        } else {
            seq![]
        }
    }
}

/// The offsets the cop reports for a chain that starts at `root`.
pub open spec fn elsif_offenses(s: Seq<u8>, root: IfBranch) -> Seq<int> {
    match root.keyword {
        Some(k) => if k@ == lit("elsif") {
            seq![]
        } else {
            let ch = chain(root);
            duplicate_conditions(s, ch, ch.len() as int)
        },
        None => seq![],
    }
}

pub open spec fn chain_in_bounds(len: int, ch: Seq<(CondNode, usize)>) -> bool {
    forall|k: int| 0 <= k < ch.len() ==> cond_in_bounds(len, #[trigger] ch[k].0) && ch[k].1 <= len
}

fn next_branch(b: &IfBranch) -> (r: Option<&IfBranch>)
    ensures
        match r {
            Some(n) => chain(*b) == seq![(b.predicate, b.predicate_start)] + chain(*n),
            None => chain(*b) == seq![(b.predicate, b.predicate_start)],
        },
{
    match &b.subsequent {
        Some(sub) => match &**sub {
            Subsequent::Elsif { branch } => Some(branch),
            Subsequent::Else { statements } => match statements {
                Some(v) => if v.len() == 1 {
                    match &v[0] {
                        ElseStatement::If { branch } => Some(branch),
                        ElseStatement::Other => {
                            assert(chain(*b) =~= seq![(b.predicate, b.predicate_start)]);
                            None
                        },
                    }
                } else {
                    assert(chain(*b) =~= seq![(b.predicate, b.predicate_start)]);
                    None
                },
                None => {
                    assert(chain(*b) =~= seq![(b.predicate, b.predicate_start)]);
                    None
                },
            },
        },
        None => {
            assert(chain(*b) =~= seq![(b.predicate, b.predicate_start)]);
            None
        },
    }
}


impl DuplicateElsifCondition {
    pub fn name(&self) -> (r: &'static str)
        ensures
            r@ == "Lint/DuplicateElsifCondition"@,
    {
        "Lint/DuplicateElsifCondition"
    }

    /// Reports each condition of the chain that starts at `root` and
    /// repeats an earlier condition of it.
    pub fn check_node(&self, source: &[u8], root: &IfBranch) -> (r: Vec<Diagnostic>)
        requires
            source@.len() < usize::MAX,
            chain_in_bounds(source@.len() as int, chain(*root)),
        ensures
            r@.len() == elsif_offenses(source@, *root).len(),
            forall|k: int| 0 <= k < r@.len() ==> {
                &&& (#[trigger] r@[k]).location.line == spec_line_col(source@, elsif_offenses(source@, *root)[k]).0
                &&& r@[k].location.column == spec_line_col(source@, elsif_offenses(source@, *root)[k]).1
                &&& r@[k].message@ == DUPLICATE_ELSIF_MESSAGE.spec_bytes()
                &&& !r@[k].corrected
            },
    {
        let mut diags: Vec<Diagnostic> = Vec::new();
        match &root.keyword {
            Some(k) => {
                if bytes_eq(k.as_slice(), "elsif".as_bytes()) {
                    return diags;
                }
            },
            None => {
                return diags;
            },
        }
        let ghost ch = chain(*root);
        let mut seen: Vec<Vec<u8>> = Vec::new();
        let mut cur: &IfBranch = root;
        let ghost mut done: int = 0;
        let ghost offs = seq![];
        loop
            invariant
                source@.len() < usize::MAX,
                ch == chain(*root),
                elsif_offenses(source@, *root) == duplicate_conditions(source@, ch, ch.len() as int),
                chain_in_bounds(source@.len() as int, ch),
                0 <= done < ch.len(),
                ch.subrange(done, ch.len() as int) == chain(*cur),
                forall|x: Seq<u8>| views(seen@).contains(x) <==> exists|j: int| 0 <= j < done && fingerprint(source@, #[trigger] ch[j].0) == x,
                offs == duplicate_conditions(source@, ch, done),
                diags@.len() == offs.len(),
                forall|k: int| 0 <= k < diags@.len() ==> {
                    &&& (#[trigger] diags@[k]).location.line == spec_line_col(source@, offs[k]).0
                    &&& diags@[k].location.column == spec_line_col(source@, offs[k]).1
                    &&& diags@[k].message@ == DUPLICATE_ELSIF_MESSAGE.spec_bytes()
                    &&& !diags@[k].corrected
                },
            decreases ch.len() - done,
        {
            assert(ch[done] == chain(*cur)[0]);
            assert(chain(*cur)[0] == (cur.predicate, cur.predicate_start));
            let fp = condition_fingerprint(source, &cur.predicate);
            let dup = contains_bytes(&seen, fp.as_slice());
            proof {
                assert(ch[done].0 == cur.predicate);
            }
            if dup {
                let (line, column) = offset_to_line_col(source, cur.predicate_start);
                diags.push(Diagnostic { location: Location { line, column }, message: message(DUPLICATE_ELSIF_MESSAGE), corrected: false });
                proof {
                    let j = choose|j: int| 0 <= j < done && fingerprint(source@, #[trigger] ch[j].0) == fp@;
                    assert(exists|j: int| 0 <= j < (done + 1) - 1 && fingerprint(source@, #[trigger] ch[j].0) == fingerprint(source@, ch[(done + 1) - 1].0));
                    offs = offs.push(cur.predicate_start as int);
                    assert(offs == duplicate_conditions(source@, ch, done + 1));
                }
            } else {
                let ghost before = views(seen@);
                seen.push(fp);
                proof {
                    assert(views(seen@) =~= before.push(fp@));
                    if exists|j: int| 0 <= j < (done + 1) - 1 && fingerprint(source@, #[trigger] ch[j].0) == fingerprint(source@, ch[(done + 1) - 1].0) {
                        let j = choose|j: int| 0 <= j < (done + 1) - 1 && fingerprint(source@, #[trigger] ch[j].0) == fingerprint(source@, ch[(done + 1) - 1].0);
                        assert(before.contains(fp@));
                    }
                    assert(offs == duplicate_conditions(source@, ch, done + 1));
                    assert forall|x: Seq<u8>| views(seen@).contains(x) <==> exists|j: int| 0 <= j < done + 1 && fingerprint(source@, #[trigger] ch[j].0) == x by {
                        if views(seen@).contains(x) {
                            let i = choose|i: int| 0 <= i < views(seen@).len() && views(seen@)[i] == x;
                            if i < before.len() {
                                assert(before.contains(x));
                            } else {
                                assert(fingerprint(source@, ch[done].0) == x);
                            }
                        }
                        if exists|j: int| 0 <= j < done + 1 && fingerprint(source@, #[trigger] ch[j].0) == x {
                            let j = choose|j: int| 0 <= j < done + 1 && fingerprint(source@, #[trigger] ch[j].0) == x;
                            if j < done {
                                assert(before.contains(x));
                                let i = choose|i: int| 0 <= i < before.len() && before[i] == x;
                                assert(views(seen@)[i] == x);
                            } else {
                                assert(views(seen@)[before.len() as int] == x);
                            }
                        }
                    }
                }
            }
            match next_branch(cur) {
                Some(n) => {
                    proof {
                        let tail = ch.subrange(done, ch.len() as int);
                        assert(tail.subrange(1, tail.len() as int) =~= chain(*n));
                        assert(ch.subrange(done + 1, ch.len() as int) =~= tail.subrange(1, tail.len() as int));
                        done = done + 1;
                    }
                    cur = n;
                },
                None => {
                    proof {
                        assert(ch.len() == done + 1);
                    }
                    return diags;
                },
            }
        }
    }
}


proof fn lemma_duplicate_conditions_grow(s: Seq<u8>, ch: Seq<(CondNode, usize)>, x: int, m: int, n: int)
    requires
        0 <= m <= n,
        duplicate_conditions(s, ch, m).contains(x),
    ensures
        duplicate_conditions(s, ch, n).contains(x),
    decreases n - m,
{
    if m < n {
        lemma_duplicate_conditions_grow(s, ch, x, m, n - 1);
        let d = duplicate_conditions(s, ch, n - 1);
        let w = choose|w: int| 0 <= w < d.len() && d[w] == x;
        assert(duplicate_conditions(s, ch, n)[w] == x);
    }
}

/// A condition of a chain with the same fingerprint as an earlier one is
/// reported at its start.
pub proof fn law_repeated_condition_reported(s: Seq<u8>, ch: Seq<(CondNode, usize)>, i: int, j: int)
    requires
        0 <= i < j < ch.len(),
        fingerprint(s, ch[i].0) == fingerprint(s, ch[j].0),
    ensures
        duplicate_conditions(s, ch, ch.len() as int).contains(ch[j].1 as int),
{
    let d = duplicate_conditions(s, ch, j);
    assert(fingerprint(s, ch[i].0) == fingerprint(s, ch[j].0));
    assert(duplicate_conditions(s, ch, j + 1)[d.len() as int] == ch[j].1 as int);
    lemma_duplicate_conditions_grow(s, ch, ch[j].1 as int, j + 1, ch.len() as int);
}

proof fn lemma_distinct_conditions_prefix(s: Seq<u8>, ch: Seq<(CondNode, usize)>, n: int)
    requires
        0 <= n <= ch.len(),
        forall|i: int, j: int| 0 <= i < j < ch.len() ==> fingerprint(s, ch[i].0) != fingerprint(s, ch[j].0),
    ensures
        duplicate_conditions(s, ch, n) == Seq::<int>::empty(),
    decreases n,
{
    if n > 0 {
        lemma_distinct_conditions_prefix(s, ch, n - 1);
        assert(duplicate_conditions(s, ch, n) =~= Seq::<int>::empty());
    }
}

/// A chain whose conditions all have different fingerprints has no
/// offense.
pub proof fn law_distinct_conditions_not_reported(s: Seq<u8>, ch: Seq<(CondNode, usize)>)
    requires
        forall|i: int, j: int| 0 <= i < j < ch.len() ==> fingerprint(s, ch[i].0) != fingerprint(s, ch[j].0),
    ensures
        duplicate_conditions(s, ch, ch.len() as int) == Seq::<int>::empty(),
{
    lemma_distinct_conditions_prefix(s, ch, ch.len() as int);
}

} // verus!
