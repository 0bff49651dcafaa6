//! Lint/DuplicateHashKey: a literal key that occurs twice in one hash.
use vstd::prelude::*;
use vstd::string::StringSliceAdditionalSpecFns;
use crate::diagnostic::{message, Diagnostic, Location};
use crate::text::{bytes_eq, contains_bytes, offset_to_line_col, spec_line_col, views};

verus! {

pub struct DuplicateHashKey;

/// The binary operators whose result on literal operands is itself
/// treated as a literal key.
pub open spec fn spec_is_literal_binary_operator(name: Seq<u8>) -> bool {
    name == "==".spec_bytes() || name == "===".spec_bytes() || name == "!=".spec_bytes() || name
        == "<".spec_bytes() || name == ">".spec_bytes() || name == "<=".spec_bytes() || name
        == ">=".spec_bytes() || name == "<=>".spec_bytes() || name == "*".spec_bytes()
}

pub fn is_literal_binary_operator(name: &[u8]) -> (r: bool)
    ensures
        r == spec_is_literal_binary_operator(name@),
{
    bytes_eq(name, "==".as_bytes()) || bytes_eq(name, "===".as_bytes()) || bytes_eq(name, "!=".as_bytes())
        || bytes_eq(name, "<".as_bytes()) || bytes_eq(name, ">".as_bytes()) || bytes_eq(name, "<=".as_bytes())
        || bytes_eq(name, ">=".as_bytes()) || bytes_eq(name, "<=>".as_bytes()) || bytes_eq(name, "*".as_bytes())
}

/// A hash key, as far as the question whether it is a literal reads it.
pub enum LitNode {
    /// A symbol, a string, a number, `true`, `false`, `nil`, `__LINE__`,
    /// `__FILE__`, `__ENCODING__`, a regexp without interpolation, or a
    /// constant.
    Atom,
    /// `( ... )`: the statements of its body, or `None` when it has no body
    /// or its body is not a list of statements.
    Parentheses { statements: Option<Vec<LitNode>> },
    Array { elements: Vec<LitNode> },
    /// A hash literal: its elements, pairs or splats.
    Hash { elements: Vec<LitNode> },
    /// A pair `key => value` of a hash.
    Pair { key: Box<LitNode>, value: Box<LitNode> },
    Range { left: Option<Box<LitNode>>, right: Option<Box<LitNode>> },
    /// A method call: its name, receiver, arguments and whether it has a
    /// block.
    Call { name: Vec<u8>, receiver: Option<Box<LitNode>>, arguments: Option<Vec<LitNode>>, has_block: bool },
    /// `a && b` or `a and b`.
    And { left: Box<LitNode>, right: Box<LitNode> },
    /// `a || b` or `a or b`.
    Or { left: Box<LitNode>, right: Box<LitNode> },
    /// An interpolated string or regexp: its parts.
    Interpolated { parts: Vec<LitNode> },
    /// A literal text part of an interpolated string or regexp.
    Text,
    /// `#{...}` with its statements, if any.
    Embedded { statements: Option<Vec<LitNode>> },
    /// Anything else: a variable, a splat, a method call that is not an
    /// operator on literals, ...
    Other,
}

pub open spec fn is_unary_operator(name: Seq<u8>) -> bool {
    name == "!".spec_bytes() || name == "-@".spec_bytes() || name == "+@".spec_bytes()
}

/// Whether a key is a literal: no method call other than an operator on
/// literals and no variable in it.
pub open spec fn is_lit(n: LitNode) -> bool
    decreases n, 1int,
{
    match n {
        LitNode::Atom => true,
        LitNode::Parentheses { statements } => match statements {
            Some(v) => v@.len() == 1 && is_lit(v@[0]),
            None => false,
        },
        LitNode::Array { elements } => all_lit(elements@, elements@.len() as int),
        LitNode::Hash { elements } => all_pairs_lit(elements@, elements@.len() as int),
        LitNode::Range { left, right } => (match left {
            Some(l) => is_lit(*l),
            None => true,
        }) && match right {
            Some(r) => is_lit(*r),
            None => true,
        },
        LitNode::Call { name, receiver, arguments, has_block } => match receiver {
            Some(recv) => if is_unary_operator(name@) && arguments is None {
                is_lit(*recv)
            } else if spec_is_literal_binary_operator(name@) && !has_block {
                match arguments {
                    Some(a) => a@.len() == 1 && is_lit(*recv) && is_lit(a@[0]),
                    None => false,
                }
            } else {
                false
            },
            None => false,
        },
        LitNode::And { left, right } => is_lit(*left) && is_lit(*right),
        LitNode::Or { left, right } => is_lit(*left) && is_lit(*right),
        LitNode::Interpolated { parts } => all_parts_lit(parts@, parts@.len() as int),
        _ => false,
    }
}

/// The first `n` nodes are literals.
pub open spec fn all_lit(nodes: Seq<LitNode>, n: int) -> bool
    decreases nodes, n,
{
    if n <= 0 || n > nodes.len() {
        true
    } else {
        all_lit(nodes, n - 1) && is_lit(nodes[n - 1])
    }
}

/// The first `n` elements of a hash are pairs of literals.
pub open spec fn all_pairs_lit(nodes: Seq<LitNode>, n: int) -> bool
    decreases nodes, n,
{
    if n <= 0 || n > nodes.len() {
        true
    } else {
        all_pairs_lit(nodes, n - 1) && match nodes[n - 1] {
            LitNode::Pair { key, value } => is_lit(*key) && is_lit(*value),
            _ => false,
        }
    }
}

/// The first `n` parts of an interpolation are text or hold one literal.
pub open spec fn all_parts_lit(nodes: Seq<LitNode>, n: int) -> bool
    decreases nodes, n,
{
    if n <= 0 || n > nodes.len() {
        true
    } else {
        all_parts_lit(nodes, n - 1) && match nodes[n - 1] {
            LitNode::Text => true,
            LitNode::Embedded { statements } => match statements {
                Some(v) => v@.len() == 1 && is_lit(v@[0]),
                None => false,
            },
            _ => false,
        }
    }
}

/// Whether a key is a literal.
pub fn is_literal(node: &LitNode) -> (r: bool)
    ensures
        r == is_lit(*node),
    decreases node, 1int,
{
    match node {
        LitNode::Atom => true,
        LitNode::Parentheses { statements } => match statements {
            Some(v) => v.len() == 1 && is_literal(&v[0]),
            None => false,
        },
        LitNode::Array { elements } => all_literal(elements),
        LitNode::Hash { elements } => all_pairs_literal(elements),
        LitNode::Range { left, right } => {
            let l = match left {
                Some(x) => is_literal(&**x),
                None => true,
            };
            l && match right {
                Some(x) => is_literal(&**x),
                None => true,
            }
        },
        LitNode::Call { name, receiver, arguments, has_block } => {
            proof {
                reveal_strlit("!");
                reveal_strlit("-@");
                reveal_strlit("+@");
            }
            match receiver {
                Some(recv) => {
                    let unary = bytes_eq(name.as_slice(), "!".as_bytes()) || bytes_eq(name.as_slice(), "-@".as_bytes())
                        || bytes_eq(name.as_slice(), "+@".as_bytes());
                    if unary && arguments.is_none() {
                        is_literal(&**recv)
                    } else if is_literal_binary_operator(name.as_slice()) && !*has_block {
                        match arguments {
                            Some(a) => a.len() == 1 && is_literal(&**recv) && is_literal(&a[0]),
                            None => false,
                        }
                    } else {
                        false
                    }
                },
                None => false,
            }
        },
        LitNode::And { left, right } => is_literal(&**left) && is_literal(&**right),
        LitNode::Or { left, right } => is_literal(&**left) && is_literal(&**right),
        LitNode::Interpolated { parts } => all_parts_literal(parts),
        _ => false,
    }
}

fn all_literal(nodes: &Vec<LitNode>) -> (r: bool)
    ensures
        r == all_lit(nodes@, nodes@.len() as int),
    decreases nodes, 0int,
{
    let mut i: usize = 0;
    while i < nodes.len()
        invariant
            i <= nodes@.len(),
            all_lit(nodes@, i as int),
        decreases nodes@.len() - i,
    {
        if !is_literal(&nodes[i]) {
            proof {
                if all_lit(nodes@, nodes@.len() as int) {
                    lemma_all_lit_prefix(nodes@, nodes@.len() as int, i as int + 1);
                }
            }
            return false;
        }
        i = i + 1;
    }
    true
}

proof fn lemma_all_lit_prefix(nodes: Seq<LitNode>, n: int, m: int)
    requires
        0 < m <= n <= nodes.len(),
        all_lit(nodes, n),
    ensures
        all_lit(nodes, m),
    decreases n - m,
{
    if m < n {
        lemma_all_lit_prefix(nodes, n - 1, m);
    }
}

proof fn lemma_all_pairs_prefix(nodes: Seq<LitNode>, n: int, m: int)
    requires
        0 < m <= n <= nodes.len(),
        all_pairs_lit(nodes, n),
    ensures
        all_pairs_lit(nodes, m),
    decreases n - m,
{
    if m < n {
        lemma_all_pairs_prefix(nodes, n - 1, m);
    }
}

proof fn lemma_all_parts_prefix(nodes: Seq<LitNode>, n: int, m: int)
    requires
        0 < m <= n <= nodes.len(),
        all_parts_lit(nodes, n),
    ensures
        all_parts_lit(nodes, m),
    decreases n - m,
{
    if m < n {
        lemma_all_parts_prefix(nodes, n - 1, m);
    }
}

fn all_pairs_literal(nodes: &Vec<LitNode>) -> (r: bool)
    ensures
        r == all_pairs_lit(nodes@, nodes@.len() as int),
    decreases nodes, 0int,
{
    let mut i: usize = 0;
    while i < nodes.len()
        invariant
            i <= nodes@.len(),
            all_pairs_lit(nodes@, i as int),
        decreases nodes@.len() - i,
    {
        let ok = match &nodes[i] {
            LitNode::Pair { key, value } => is_literal(&**key) && is_literal(&**value),
            _ => false,
        };
        if !ok {
            proof {
                if all_pairs_lit(nodes@, nodes@.len() as int) {
                    lemma_all_pairs_prefix(nodes@, nodes@.len() as int, i as int + 1);
                }
            }
            return false;
        }
        i = i + 1;
    }
    true
}

fn all_parts_literal(nodes: &Vec<LitNode>) -> (r: bool)
    ensures
        r == all_parts_lit(nodes@, nodes@.len() as int),
    decreases nodes, 0int,
{
    let mut i: usize = 0;
    while i < nodes.len()
        invariant
            i <= nodes@.len(),
            all_parts_lit(nodes@, i as int),
        decreases nodes@.len() - i,
    {
        let ok = match &nodes[i] {
            LitNode::Text => true,
            LitNode::Embedded { statements } => match statements {
                Some(v) => v.len() == 1 && is_literal(&v[0]),
                None => false,
            },
            _ => false,
        };
        if !ok {
            proof {
                if all_parts_lit(nodes@, nodes@.len() as int) {
                    lemma_all_parts_prefix(nodes@, nodes@.len() as int, i as int + 1);
                }
            }
            return false;
        }
        i = i + 1;
    }
    true
}

pub const DUPLICATE_HASH_KEY_MESSAGE: &'static str = "Duplicated key in hash literal.";

/// An element of a hash literal or of keyword arguments.
pub enum HashElement {
    /// A pair whose key spans `[key_start, key_end)`. `float_key` is the
    /// canonical form of a float key's value, by which equal floats written
    /// differently compare equal.
    Pair { key: LitNode, key_start: usize, key_end: usize, float_key: Option<Vec<u8>> },
    /// `**x`.
    Splat,
}

/// What a key is compared by: its float value, or else its source text.
pub open spec fn canonical_key(s: Seq<u8>, e: HashElement) -> Seq<u8> {
    match e {
        HashElement::Pair { key_start, key_end, float_key, .. } => match float_key {
            Some(f) => f@,
            None => s.subrange(key_start as int, key_end as int),
        },
        HashElement::Splat => seq![],
    }
}

pub open spec fn literal_pair(e: HashElement) -> bool {
    e matches HashElement::Pair { key, .. } && is_lit(key)
}

/// The canonical keys of the literal pairs among the first `n` elements.
pub open spec fn literal_keys(s: Seq<u8>, elems: Seq<HashElement>, n: int) -> Seq<Seq<u8>>
    decreases n,
{
    if n <= 0 {
        seq![]
    } else {
        literal_keys(s, elems, n - 1) + if literal_pair(elems[n - 1]) {
            seq![canonical_key(s, elems[n - 1])]
        } else {
            seq![]
        }
    }
}

/// Where the first `n` elements repeat a literal key: each literal key
/// whose canonical form an earlier literal key has.
pub open spec fn duplicate_keys(s: Seq<u8>, elems: Seq<HashElement>, n: int) -> Seq<int>
    decreases n,
{
    if n <= 0 {
        seq![]
    } else {
        duplicate_keys(s, elems, n - 1) + match elems[n - 1] {
            HashElement::Pair { key, key_start, .. } => if is_lit(key) && literal_keys(s, elems, n - 1).contains(
                canonical_key(s, elems[n - 1]),
            ) {
                seq![key_start as int]
            } else {
                seq![]
            },
            HashElement::Splat => seq![],
        }
    }
}

pub open spec fn elements_in(len: int, elems: Seq<HashElement>) -> bool {
    forall|k: int|
        0 <= k < elems.len() ==> (#[trigger] elems[k] matches HashElement::Pair { key_start, key_end, .. }
            ==> key_start <= key_end <= len)
}

impl DuplicateHashKey {
    pub fn name(&self) -> (r: &'static str)
        ensures
            r@ == "Lint/DuplicateHashKey"@,
    {
        "Lint/DuplicateHashKey"
    }

    /// Reports each literal key of one hash that repeats an earlier one.
    pub fn check_node(&self, source: &[u8], elements: &Vec<HashElement>) -> (r: Vec<Diagnostic>)
        requires
            source@.len() < usize::MAX,
            elements_in(source@.len() as int, elements@),
        ensures
            ({
                let at = duplicate_keys(source@, elements@, elements@.len() as int);
                &&& r@.len() == at.len()
                &&& forall|k: int|
                    0 <= k < at.len() ==> {
                        &&& (#[trigger] r@[k]).location.line == spec_line_col(source@, at[k]).0
                        &&& r@[k].location.column == spec_line_col(source@, at[k]).1
                        &&& r@[k].message@ == DUPLICATE_HASH_KEY_MESSAGE.spec_bytes()
                        &&& !r@[k].corrected
                    }
            }),
    {
        let mut diags: Vec<Diagnostic> = Vec::new();
        let mut seen: Vec<Vec<u8>> = Vec::new();
        let mut k: usize = 0;
        while k < elements.len()
            invariant
                k <= elements@.len(),
                source@.len() < usize::MAX,
                elements_in(source@.len() as int, elements@),
                views(seen@) == literal_keys(source@, elements@, k as int),
                ({
                    let at = duplicate_keys(source@, elements@, k as int);
                    &&& diags@.len() == at.len()
                    &&& forall|j: int|
                        0 <= j < at.len() ==> {
                            &&& (#[trigger] diags@[j]).location.line == spec_line_col(source@, at[j]).0
                            &&& diags@[j].location.column == spec_line_col(source@, at[j]).1
                            &&& diags@[j].message@ == DUPLICATE_HASH_KEY_MESSAGE.spec_bytes()
                            &&& !diags@[j].corrected
                        }
                }),
            decreases elements@.len() - k,
        {
            let ghost before = seen@;
            match &elements[k] {
                HashElement::Pair { key, key_start, key_end, float_key } => {
                    assert(elements_in(source@.len() as int, elements@));
                    assert(elements@[k as int] matches HashElement::Pair { key_start, key_end, .. } ==> key_start <= key_end
                        <= source@.len());
                    if is_literal(key) {
                        let canonical: Vec<u8> = match float_key {
                            Some(f) => f.clone(),
                            None => vstd::slice::slice_to_vec(&source[*key_start..*key_end]),
                        };
                        assert(canonical@ == canonical_key(source@, elements@[k as int]));
                        if contains_bytes(&seen, canonical.as_slice()) {
                            let (line, column) = offset_to_line_col(source, *key_start);
                            diags.push(Diagnostic {
                                location: Location { line, column },
                                message: message(DUPLICATE_HASH_KEY_MESSAGE),
                                corrected: false,
                            });
                        }
                        seen.push(canonical);
                        assert(views(seen@) =~= views(before).push(canonical_key(source@, elements@[k as int])));
                    }
                },
                HashElement::Splat => {},
            }
            k = k + 1;
        }
        diags
    }
}


proof fn lemma_key_keys_contain(s: Seq<u8>, elems: Seq<HashElement>, i: int, n: int)
    requires
        0 <= i < n <= elems.len(),
        literal_pair(elems[i]),
    ensures
        literal_keys(s, elems, n).contains(canonical_key(s, elems[i])),
    decreases n,
{
    let prev = literal_keys(s, elems, n - 1);
    if i == n - 1 {
        assert(literal_keys(s, elems, n)[prev.len() as int] == canonical_key(s, elems[i]));
    } else {
        lemma_key_keys_contain(s, elems, i, n - 1);
        let w = choose|w: int| 0 <= w < prev.len() && prev[w] == canonical_key(s, elems[i]);
        assert(literal_keys(s, elems, n)[w] == canonical_key(s, elems[i]));
    }
}

proof fn lemma_key_keys_from(s: Seq<u8>, elems: Seq<HashElement>, n: int, w: int)
    requires
        0 <= n <= elems.len(),
        0 <= w < literal_keys(s, elems, n).len(),
    ensures
        exists|i: int| 0 <= i < n && literal_pair(elems[i]) && canonical_key(s, elems[i]) == #[trigger] literal_keys(s, elems, n)[w],
    decreases n,
{
    let prev = literal_keys(s, elems, n - 1);
    if w < prev.len() {
        lemma_key_keys_from(s, elems, n - 1, w);
        let i = choose|i: int| 0 <= i < n - 1 && literal_pair(elems[i]) && canonical_key(s, elems[i]) == #[trigger] prev[w];
        assert(literal_keys(s, elems, n)[w] == prev[w]);
        assert(0 <= i < n && literal_pair(elems[i]) && canonical_key(s, elems[i]) == literal_keys(s, elems, n)[w]);
    } else {
        assert(literal_keys(s, elems, n)[w] == canonical_key(s, elems[n - 1]));
        assert(literal_pair(elems[n - 1]) && canonical_key(s, elems[n - 1]) == literal_keys(s, elems, n)[w]);
    }
}

proof fn lemma_key_duplicates_grow(s: Seq<u8>, elems: Seq<HashElement>, x: int, m: int, n: int)
    requires
        0 <= m <= n <= elems.len(),
        duplicate_keys(s, elems, m).contains(x),
    ensures
        duplicate_keys(s, elems, n).contains(x),
    decreases n - m,
{
    if m < n {
        lemma_key_duplicates_grow(s, elems, x, m, n - 1);
        let d = duplicate_keys(s, elems, n - 1);
        let w = choose|w: int| 0 <= w < d.len() && d[w] == x;
        assert(duplicate_keys(s, elems, n)[w] == x);
    }
}

/// A literal key equal (by value for floats, else by text) to an earlier literal key of the
/// same hash is reported at its start.
pub proof fn law_repeated_key_reported(s: Seq<u8>, elems: Seq<HashElement>, i: int, j: int)
    requires
        0 <= i < j < elems.len(),
        literal_pair(elems[i]),
        literal_pair(elems[j]),
        canonical_key(s, elems[i]) == canonical_key(s, elems[j]),
    ensures
        duplicate_keys(s, elems, elems.len() as int).contains(elems[j]->key_start as int),
{
    lemma_key_keys_contain(s, elems, i, j);
    let d = duplicate_keys(s, elems, j);
    assert(duplicate_keys(s, elems, j + 1)[d.len() as int] == elems[j]->key_start as int);
    lemma_key_duplicates_grow(s, elems, elems[j]->key_start as int, j + 1, elems.len() as int);
}

proof fn lemma_key_distinct_prefix(s: Seq<u8>, elems: Seq<HashElement>, n: int)
    requires
        0 <= n <= elems.len(),
        forall|i: int, j: int| 0 <= i < j < elems.len() && literal_pair(elems[i]) && literal_pair(elems[j]) ==> canonical_key(s, elems[i]) != canonical_key(s, elems[j]),
    ensures
        duplicate_keys(s, elems, n) == Seq::<int>::empty(),
    decreases n,
{
    if n > 0 {
        lemma_key_distinct_prefix(s, elems, n - 1);
        let ks = literal_keys(s, elems, n - 1);
        if literal_pair(elems[n - 1]) && ks.contains(canonical_key(s, elems[n - 1])) {
            let w = choose|w: int| 0 <= w < ks.len() && ks[w] == canonical_key(s, elems[n - 1]);
            lemma_key_keys_from(s, elems, n - 1, w);
            let i = choose|i: int| 0 <= i < n - 1 && literal_pair(elems[i]) && canonical_key(s, elems[i]) == #[trigger] ks[w];
            assert(canonical_key(s, elems[i]) != canonical_key(s, elems[n - 1]));
        }
        assert(duplicate_keys(s, elems, n) =~= Seq::<int>::empty());
    }
}

/// A hash whose literal keys all differ has no offense.
pub proof fn law_distinct_keys_not_reported(s: Seq<u8>, elems: Seq<HashElement>)
    requires
        forall|i: int, j: int| 0 <= i < j < elems.len() && literal_pair(elems[i]) && literal_pair(elems[j]) ==> canonical_key(s, elems[i]) != canonical_key(s, elems[j]),
    ensures
        duplicate_keys(s, elems, elems.len() as int) == Seq::<int>::empty(),
{
    lemma_key_distinct_prefix(s, elems, elems.len() as int);
}


/// The binary operators that keep a key literal when both operands are
/// literals: `== === != < > <= >= <=> *`, and no other.
pub proof fn law_literal_binary_operators_listed(name: Seq<u8>)
    ensures
        spec_is_literal_binary_operator(name) <==> (name == "==".spec_bytes() || name == "===".spec_bytes() || name == "!=".spec_bytes() || name == "<".spec_bytes() || name == ">".spec_bytes() || name == "<=".spec_bytes() || name == ">=".spec_bytes() || name == "<=>".spec_bytes() || name == "*".spec_bytes()),
{
}


/// The unary operators that keep a key literal: `!`, `-@` and `+@`.
pub proof fn law_unary_operators_listed(name: Seq<u8>)
    ensures
        is_unary_operator(name) <==> (name == "!".spec_bytes() || name == "-@".spec_bytes() || name == "+@".spec_bytes()),
{
}

} // verus!
