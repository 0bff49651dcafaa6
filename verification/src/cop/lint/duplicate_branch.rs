//! Lint/DuplicateBranch: branches of a conditional with the same body,
//! compared by a fingerprint of their statements.
use vstd::prelude::*;
use vstd::string::StringSliceAdditionalSpecFns;
use crate::diagnostic::{message, reports_at, Diagnostic, Location};
use crate::text::{
    bytes_eq, contains_bytes, is_ascii_alnum, is_ascii_whitespace, offset_to_line_col, views, spec_is_ascii_alnum,
    spec_is_ascii_whitespace, spec_line_col, HASH, NEWLINE, SPACE, UNDERSCORE,
};

verus! {

pub struct DuplicateBranch;

pub const DUPLICATE_BRANCH_MESSAGE: &'static str = "Duplicate branch body detected.";

pub open spec fn spec_is_word_byte(b: u8) -> bool {
    spec_is_ascii_alnum(b) || b == UNDERSCORE
}

/// The first line feed at or after `i`, or the end.
pub open spec fn newline_from(s: Seq<u8>, i: int) -> int
    decreases s.len() - i,
{
    if i >= s.len() {
        s.len() as int
    } else if s[i] == NEWLINE {
        i
    } else {
        newline_from(s, i + 1)
    }
}

pub proof fn lemma_newline_from(s: Seq<u8>, i: int)
    requires
        0 <= i <= s.len(),
    ensures
        i <= newline_from(s, i) <= s.len(),
    decreases s.len() - i,
{
    if i < s.len() && s[i] != NEWLINE {
        lemma_newline_from(s, i + 1);
    }
}

/// `s[i..]` without its comments: each `#` and what follows it on its
/// line is dropped; the line feed stays.
pub open spec fn strip_comments_from(s: Seq<u8>, i: int) -> Seq<u8>
    decreases s.len() - i, 1int,
{
    if i < 0 || i >= s.len() {
        seq![]
    } else if s[i] == HASH {
        let e = newline_from(s, i + 1);
        proof {
            lemma_newline_from(s, i + 1);
        }
        strip_comments_from(s, e)
    } else {
        seq![s[i]] + strip_comments_from(s, i + 1)
    }
}

/// The first `n` bytes with whitespace removed, keeping one space where
/// whitespace separated two word bytes; and whether whitespace is pending
/// at the end.
pub open spec fn normalize_prefix(s: Seq<u8>, n: int) -> (Seq<u8>, bool)
    decreases n,
{
    if n <= 0 {
        (seq![], false)
    } else {
        let (r, pending) = normalize_prefix(s, n - 1);
        let b = s[n - 1];
        if spec_is_ascii_whitespace(b) {
            (r, true)
        } else {
            let r1 = if pending && r.len() > 0 && spec_is_word_byte(r.last()) && spec_is_word_byte(b) {
                r.push(SPACE)
            } else {
                r
            };
            (r1.push(b), false)
        }
    }
}

pub open spec fn spec_normalize_whitespace(s: Seq<u8>) -> Seq<u8> {
    normalize_prefix(s, s.len() as int).0
}

pub fn is_word_byte(b: u8) -> (r: bool)
    ensures
        r == spec_is_word_byte(b),
{
    is_ascii_alnum(b) || b == UNDERSCORE
}

/// `src` without its comments.
pub fn strip_comments(src: &[u8]) -> (r: Vec<u8>)
    ensures
        r@ == strip_comments_from(src@, 0),
{
    let mut result: Vec<u8> = Vec::new();
    let mut i: usize = 0;
    while i < src.len()
        invariant
            i <= src@.len(),
            result@ + strip_comments_from(src@, i as int) == strip_comments_from(src@, 0),
        decreases src@.len() - i,
    {
        if src[i] == HASH {
            proof {
                lemma_newline_from(src@, i + 1);
            }
            let ghost e = newline_from(src@, i + 1);
            let mut j = i + 1;
            while j < src.len() && src[j] != NEWLINE
                invariant
                    i < j <= src@.len(),
                    newline_from(src@, j as int) == e,
                decreases src@.len() - j,
            {
                j = j + 1;
            }
            i = j;
        } else {
            let ghost before = result@;
            result.push(src[i]);
            assert(result@ + strip_comments_from(src@, i + 1) =~= before + (seq![src@[i as int]] + strip_comments_from(src@, i + 1)));
            i = i + 1;
        }
    }
    assert(result@ =~= result@ + strip_comments_from(src@, i as int));
    result
}

/// `src` with whitespace removed, keeping one space between two word
/// bytes that whitespace separated.
pub fn normalize_whitespace(src: &[u8]) -> (r: Vec<u8>)
    ensures
        r@ == spec_normalize_whitespace(src@),
{
    let mut result: Vec<u8> = Vec::new();
    let mut pending = false;
    let mut i: usize = 0;
    while i < src.len()
        invariant
            i <= src@.len(),
            (result@, pending) == normalize_prefix(src@, i as int),
        decreases src@.len() - i,
    {
        let b = src[i];
        if is_ascii_whitespace(b) {
            pending = true;
        } else {
            if pending && result.len() > 0 {
                let prev = result[result.len() - 1];
                if is_word_byte(prev) && is_word_byte(b) {
                    result.push(SPACE);
                }
            }
            result.push(b);
            pending = false;
        }
        i = i + 1;
    }
    result
}

/// `s` without its comments, with its whitespace normalized.
pub open spec fn normalized(s: Seq<u8>) -> Seq<u8> {
    spec_normalize_whitespace(strip_comments_from(s, 0))
}

/// `src` without comments, with whitespace normalized.
pub fn normalize_source(src: &[u8]) -> (r: Vec<u8>)
    ensures
        r@ == normalized(src@),
{
    let stripped = strip_comments(src);
    normalize_whitespace(stripped.as_slice())
}

/// Reports a duplicate branch whose body starts at `offset`.
pub fn emit(source: &[u8], offset: usize, diagnostics: &mut Vec<Diagnostic>)
    requires
        offset <= source@.len() < usize::MAX,
    ensures
        final(diagnostics)@.len() == old(diagnostics)@.len() + 1,
        final(diagnostics)@.subrange(0, old(diagnostics)@.len() as int) == old(diagnostics)@,
        final(diagnostics)@.last().location.line == spec_line_col(source@, offset as int).0,
        final(diagnostics)@.last().location.column == spec_line_col(source@, offset as int).1,
        final(diagnostics)@.last().message@ == DUPLICATE_BRANCH_MESSAGE.spec_bytes(),
        !final(diagnostics)@.last().corrected,
{
    let (line, column) = offset_to_line_col(source, offset);
    diagnostics.push(Diagnostic { location: Location { line, column }, message: message(DUPLICATE_BRANCH_MESSAGE), corrected: false });
    assert(diagnostics@.subrange(0, diagnostics@.len() - 1) =~= old(diagnostics)@);
}

/// A statement of a branch body, as far as the literal and constant rules
/// read it.
pub enum BranchNode {
    /// A number, a string, a symbol, `true`, `false`, `nil` or a regexp
    /// without interpolation.
    Atom,
    /// A constant, `Foo` or `Foo::Bar`.
    Constant,
    Range { left: Option<Box<BranchNode>>, right: Option<Box<BranchNode>> },
    Array { elements: Vec<BranchNode> },
    /// A hash literal or the bare hash of keyword arguments.
    Hash { elements: Vec<BranchNode> },
    /// A pair `key => value` of a hash.
    Pair { key: Box<BranchNode>, value: Box<BranchNode> },
    Other,
}

/// A literal value; constants count only where `ignore_constant`.
pub open spec fn is_literal_value(n: BranchNode, ignore_constant: bool) -> bool
    decreases n, 1int,
{
    match n {
        BranchNode::Atom => true,
        BranchNode::Constant => ignore_constant,
        BranchNode::Range { left, right } => (match left {
            Some(l) => is_literal_value(*l, ignore_constant),
            None => true,
        }) && match right {
            Some(r) => is_literal_value(*r, ignore_constant),
            None => true,
        },
        BranchNode::Array { elements } => all_literal_values(elements@, elements@.len() as int, ignore_constant),
        BranchNode::Hash { elements } => all_literal_pairs(elements@, elements@.len() as int, ignore_constant),
        _ => false,
    }
}

pub open spec fn all_literal_values(nodes: Seq<BranchNode>, n: int, ignore_constant: bool) -> bool
    decreases nodes, n,
{
    if n <= 0 || n > nodes.len() {
        true
    } else {
        all_literal_values(nodes, n - 1, ignore_constant) && is_literal_value(nodes[n - 1], ignore_constant)
    }
}

pub open spec fn all_literal_pairs(nodes: Seq<BranchNode>, n: int, ignore_constant: bool) -> bool
    decreases nodes, n,
{
    if n <= 0 || n > nodes.len() {
        true
    } else {
        all_literal_pairs(nodes, n - 1, ignore_constant) && match nodes[n - 1] {
            BranchNode::Pair { key, value } => is_literal_value(*key, ignore_constant) && is_literal_value(
                *value,
                ignore_constant,
            ),
            _ => false,
        }
    }
}

proof fn lemma_values_prefix(nodes: Seq<BranchNode>, n: int, m: int, ic: bool)
    requires
        0 < m <= n <= nodes.len(),
        all_literal_values(nodes, n, ic),
    ensures
        all_literal_values(nodes, m, ic),
    decreases n - m,
{
    if m < n {
        lemma_values_prefix(nodes, n - 1, m, ic);
    }
}

proof fn lemma_pairs_prefix(nodes: Seq<BranchNode>, n: int, m: int, ic: bool)
    requires
        0 < m <= n <= nodes.len(),
        all_literal_pairs(nodes, n, ic),
    ensures
        all_literal_pairs(nodes, m, ic),
    decreases n - m,
{
    if m < n {
        lemma_pairs_prefix(nodes, n - 1, m, ic);
    }
}

/// Whether a statement is a literal value.
pub fn is_literal_node(node: &BranchNode, ignore_constant: bool) -> (r: bool)
    ensures
        r == is_literal_value(*node, ignore_constant),
    decreases node, 1int,
{
    match node {
        BranchNode::Atom => true,
        BranchNode::Constant => ignore_constant,
        BranchNode::Range { left, right } => {
            let l = match left {
                Some(x) => is_literal_node(&**x, ignore_constant),
                None => true,
            };
            l && match right {
                Some(x) => is_literal_node(&**x, ignore_constant),
                None => true,
            }
        },
        BranchNode::Array { elements } => all_literal_nodes(elements, ignore_constant),
        BranchNode::Hash { elements } => all_literal_pair_nodes(elements, ignore_constant),
        _ => false,
    }
}

fn all_literal_nodes(elements: &Vec<BranchNode>, ignore_constant: bool) -> (r: bool)
    ensures
        r == all_literal_values(elements@, elements@.len() as int, ignore_constant),
    decreases elements, 0int,
{
    let mut i: usize = 0;
    while i < elements.len()
        invariant
            i <= elements@.len(),
            all_literal_values(elements@, i as int, ignore_constant),
        decreases elements@.len() - i,
    {
        if !is_literal_node(&elements[i], ignore_constant) {
            proof {
                if all_literal_values(elements@, elements@.len() as int, ignore_constant) {
                    lemma_values_prefix(elements@, elements@.len() as int, i as int + 1, ignore_constant);
                }
            }
            return false;
        }
        i = i + 1;
    }
    true
}

fn all_literal_pair_nodes(elements: &Vec<BranchNode>, ignore_constant: bool) -> (r: bool)
    ensures
        r == all_literal_pairs(elements@, elements@.len() as int, ignore_constant),
    decreases elements, 0int,
{
    let mut i: usize = 0;
    while i < elements.len()
        invariant
            i <= elements@.len(),
            all_literal_pairs(elements@, i as int, ignore_constant),
        decreases elements@.len() - i,
    {
        let ok = match &elements[i] {
            BranchNode::Pair { key, value } => is_literal_node(&**key, ignore_constant) && is_literal_node(&**value, ignore_constant),
            _ => false,
        };
        if !ok {
            proof {
                if all_literal_pairs(elements@, elements@.len() as int, ignore_constant) {
                    lemma_pairs_prefix(elements@, elements@.len() as int, i as int + 1, ignore_constant);
                }
            }
            return false;
        }
        i = i + 1;
    }
    true
}

/// One branch: the fingerprint of its body (empty for an empty body),
/// where it is reported, whether it is the `else` branch, and its
/// statements.
pub struct Branch {
    pub fingerprint: Vec<u8>,
    pub at: usize,
    pub is_else: bool,
    pub statements: Option<Vec<BranchNode>>,
}

/// The body is one literal statement.
pub open spec fn literal_branch(b: Branch, ignore_constant: bool) -> bool {
    b.statements matches Some(v) && v@.len() == 1 && is_literal_value(v@[0], ignore_constant)
}

/// The body is one constant.
pub open spec fn constant_branch(b: Branch) -> bool {
    b.statements matches Some(v) && v@.len() == 1 && v@[0] is Constant
}

/// The configuration: `IgnoreLiteralBranches`, `IgnoreConstantBranches`,
/// `IgnoreDuplicateElseBranch`.
#[derive(Clone, Copy)]
pub struct BranchSettings {
    pub ignore_literal: bool,
    pub ignore_constant: bool,
    pub ignore_duplicate_else: bool,
}

/// Whether a branch takes part in the comparison.
pub open spec fn considered(b: Branch, total: int, st: BranchSettings) -> bool {
    &&& b.fingerprint@.len() > 0
    &&& !(st.ignore_literal && literal_branch(b, st.ignore_constant))
    &&& !(st.ignore_constant && constant_branch(b))
    &&& !(st.ignore_duplicate_else && b.is_else && total > 2)
}

/// The fingerprints of the considered branches among the first `n`.
pub open spec fn considered_prints(bs: Seq<Branch>, st: BranchSettings, n: int) -> Seq<Seq<u8>>
    decreases n,
{
    if n <= 0 {
        seq![]
    } else {
        considered_prints(bs, st, n - 1) + if considered(bs[n - 1], bs.len() as int, st) {
            seq![bs[n - 1].fingerprint@]
        } else {
            seq![]
        }
    }
}

/// Where the first `n` branches repeat an earlier considered branch.
pub open spec fn duplicate_branches(bs: Seq<Branch>, st: BranchSettings, n: int) -> Seq<int>
    decreases n,
{
    if n <= 0 {
        seq![]
    } else {
        duplicate_branches(bs, st, n - 1) + if considered(bs[n - 1], bs.len() as int, st) && considered_prints(
            bs,
            st,
            n - 1,
        ).contains(bs[n - 1].fingerprint@) {
            seq![bs[n - 1].at as int]
        } else {
            seq![]
        }
    }
}

pub open spec fn branches_in(len: int, bs: Seq<Branch>) -> bool {
    forall|k: int| 0 <= k < bs.len() ==> #[trigger] bs[k].at <= len
}

fn literal_branch_exec(b: &Branch, ignore_constant: bool) -> (r: bool)
    ensures
        r == literal_branch(*b, ignore_constant),
{
    match &b.statements {
        Some(v) => v.len() == 1 && is_literal_node(&v[0], ignore_constant),
        None => false,
    }
}

fn constant_branch_exec(b: &Branch) -> (r: bool)
    ensures
        r == constant_branch(*b),
{
    match &b.statements {
        Some(v) => v.len() == 1 && match &v[0] {
            BranchNode::Constant => true,
            _ => false,
        },
        None => false,
    }
}

/// The `else` of a ternary is reported at its expression; any other `else`
/// at its keyword.
pub fn else_report_offset(ternary: bool, first_statement: Option<usize>, else_keyword: usize) -> (r: usize)
    ensures
        r == (match first_statement {
            Some(f) => if ternary { f } else { else_keyword },
            None => else_keyword,
        }),
{
    match first_statement {
        Some(f) => if ternary { f } else { else_keyword },
        None => else_keyword,
    }
}

impl DuplicateBranch {
    pub fn name(&self) -> (r: &'static str)
        ensures
            r@ == "Lint/DuplicateBranch"@,
    {
        "Lint/DuplicateBranch"
    }

    /// Reports each branch of one conditional (`if` chain, `case`, `case`
    /// with patterns, or `rescue` clauses with their `else`) whose body
    /// repeats an earlier considered branch. `branches` are in source
    /// order; the `else` branch, if any, comes last.
    pub fn check_branches(&self, source: &[u8], branches: &Vec<Branch>, settings: BranchSettings) -> (r: Vec<Diagnostic>)
        requires
            source@.len() < usize::MAX,
            branches_in(source@.len() as int, branches@),
        ensures
            reports_at(source@, duplicate_branches(branches@, settings, branches@.len() as int), DUPLICATE_BRANCH_MESSAGE.spec_bytes(), r@),
    {
        let total = branches.len();
        let mut diags: Vec<Diagnostic> = Vec::new();
        let mut seen: Vec<Vec<u8>> = Vec::new();
        let mut k: usize = 0;
        while k < total
            invariant
                k <= total == branches@.len(),
                source@.len() < usize::MAX,
                branches_in(source@.len() as int, branches@),
                views(seen@) == considered_prints(branches@, settings, k as int),
                reports_at(source@, duplicate_branches(branches@, settings, k as int), DUPLICATE_BRANCH_MESSAGE.spec_bytes(), diags@),
            decreases total - k,
        {
            let b = &branches[k];
            let ghost prev = duplicate_branches(branches@, settings, k as int);
            let ghost d0 = diags@;
            let consider = b.fingerprint.len() > 0 && !(settings.ignore_literal && literal_branch_exec(b, settings.ignore_constant))
                && !(settings.ignore_constant && constant_branch_exec(b)) && !(settings.ignore_duplicate_else && b.is_else && total > 2);
            if consider {
                if contains_bytes(&seen, b.fingerprint.as_slice()) {
                    assert(branches@[k as int].at <= source@.len());
                    emit(source, b.at, &mut diags);
                    assert forall|j: int| 0 <= j < d0.len() implies diags@[j] == d0[j] by {
                        assert(diags@.subrange(0, d0.len() as int)[j] == diags@[j]);
                    }
                    let ghost now = duplicate_branches(branches@, settings, k + 1);
                    assert(now =~= prev.push(b.at as int));
                    assert forall|j: int| 0 <= j < now.len() implies {
                        &&& (#[trigger] diags@[j]).location.line == spec_line_col(source@, now[j]).0
                        &&& diags@[j].location.column == spec_line_col(source@, now[j]).1
                        &&& diags@[j].message@ == DUPLICATE_BRANCH_MESSAGE.spec_bytes()
                        &&& !diags@[j].corrected
                    } by {
                        if j < d0.len() {
                            assert(diags@[j] == d0[j]);
                            assert(now[j] == prev[j]);
                        } else {
                            assert(diags@[j] == diags@.last());
                        }
                    }
                } else {
                    assert(duplicate_branches(branches@, settings, k + 1) =~= prev);
                }
                let ghost before = seen@;
                seen.push(b.fingerprint.clone());
                assert(views(seen@) =~= views(before).push(branches@[k as int].fingerprint@));
            } else {
                assert(duplicate_branches(branches@, settings, k + 1) =~= prev);
                assert(considered_prints(branches@, settings, k + 1) =~= considered_prints(branches@, settings, k as int));
            }
            k = k + 1;
        }
        diags
    }

    /// Checks an `if` chain: nothing for an `elsif` (its chain is checked
    /// from the outermost `if`) or a chain of fewer than two branches.
    pub fn check_if_branches(&self, source: &[u8], is_elsif: bool, branches: &Vec<Branch>, settings: BranchSettings) -> (r: Vec<Diagnostic>)
        requires
            source@.len() < usize::MAX,
            branches_in(source@.len() as int, branches@),
        ensures
            reports_at(
                source@,
                if is_elsif || branches@.len() < 2 {
                    seq![]
                } else {
                    duplicate_branches(branches@, settings, branches@.len() as int)
                },
                DUPLICATE_BRANCH_MESSAGE.spec_bytes(),
                r@,
            ),
    {
        if is_elsif || branches.len() < 2 {
            return Vec::new();
        }
        self.check_branches(source, branches, settings)
    }

    /// Checks `unless` with an `else`: the `else` is reported when both
    /// bodies are non-empty and equal, unless both are literals and literal
    /// branches are ignored.
    pub fn check_unless_branches(&self, source: &[u8], body: &Branch, else_branch: &Branch, settings: BranchSettings) -> (r: Option<Diagnostic>)
        requires
            else_branch.at <= source@.len() < usize::MAX,
        ensures
            ({
                let reported = body.fingerprint@.len() > 0 && else_branch.fingerprint@.len() > 0 && !(settings.ignore_literal
                    && literal_branch(*body, settings.ignore_constant) && literal_branch(*else_branch, settings.ignore_constant))
                    && body.fingerprint@ == else_branch.fingerprint@;
                match r {
                    Some(d) => reported && d.location.line == spec_line_col(source@, else_branch.at as int).0
                        && d.location.column == spec_line_col(source@, else_branch.at as int).1
                        && d.message@ == DUPLICATE_BRANCH_MESSAGE.spec_bytes() && !d.corrected,
                    None => !reported,
                }
            }),
    {
        if body.fingerprint.len() == 0 || else_branch.fingerprint.len() == 0 {
            return None;
        }
        if settings.ignore_literal && literal_branch_exec(body, settings.ignore_constant) && literal_branch_exec(
            else_branch,
            settings.ignore_constant,
        ) {
            return None;
        }
        if bytes_eq(body.fingerprint.as_slice(), else_branch.fingerprint.as_slice()) {
            let (line, column) = offset_to_line_col(source, else_branch.at);
            Some(Diagnostic { location: Location { line, column }, message: message(DUPLICATE_BRANCH_MESSAGE), corrected: false })
        } else {
            None
        }
    }
}


proof fn lemma_branch_keys_contain(bs: Seq<Branch>, st: BranchSettings, i: int, n: int)
    requires
        0 <= i < n <= bs.len(),
        considered(bs[i], bs.len() as int, st),
    ensures
        considered_prints(bs, st, n).contains(bs[i].fingerprint@),
    decreases n,
{
    let prev = considered_prints(bs, st, n - 1);
    if i == n - 1 {
        assert(considered_prints(bs, st, n)[prev.len() as int] == bs[i].fingerprint@);
    } else {
        lemma_branch_keys_contain(bs, st, i, n - 1);
        let w = choose|w: int| 0 <= w < prev.len() && prev[w] == bs[i].fingerprint@;
        assert(considered_prints(bs, st, n)[w] == bs[i].fingerprint@);
    }
}

proof fn lemma_branch_keys_from(bs: Seq<Branch>, st: BranchSettings, n: int, w: int)
    requires
        0 <= n <= bs.len(),
        0 <= w < considered_prints(bs, st, n).len(),
    ensures
        exists|i: int| 0 <= i < n && considered(bs[i], bs.len() as int, st) && bs[i].fingerprint@ == #[trigger] considered_prints(bs, st, n)[w],
    decreases n,
{
    let prev = considered_prints(bs, st, n - 1);
    if w < prev.len() {
        lemma_branch_keys_from(bs, st, n - 1, w);
        let i = choose|i: int| 0 <= i < n - 1 && considered(bs[i], bs.len() as int, st) && bs[i].fingerprint@ == #[trigger] prev[w];
        assert(considered_prints(bs, st, n)[w] == prev[w]);
        assert(0 <= i < n && considered(bs[i], bs.len() as int, st) && bs[i].fingerprint@ == considered_prints(bs, st, n)[w]);
    } else {
        assert(considered_prints(bs, st, n)[w] == bs[n - 1].fingerprint@);
        assert(considered(bs[n - 1], bs.len() as int, st) && bs[n - 1].fingerprint@ == considered_prints(bs, st, n)[w]);
    }
}

proof fn lemma_branch_duplicates_grow(bs: Seq<Branch>, st: BranchSettings, x: int, m: int, n: int)
    requires
        0 <= m <= n <= bs.len(),
        duplicate_branches(bs, st, m).contains(x),
    ensures
        duplicate_branches(bs, st, n).contains(x),
    decreases n - m,
{
    if m < n {
        lemma_branch_duplicates_grow(bs, st, x, m, n - 1);
        let d = duplicate_branches(bs, st, n - 1);
        let w = choose|w: int| 0 <= w < d.len() && d[w] == x;
        assert(duplicate_branches(bs, st, n)[w] == x);
    }
}

/// A considered branch with the same body as an earlier considered branch is reported.
pub proof fn law_repeated_branch_reported(bs: Seq<Branch>, st: BranchSettings, i: int, j: int)
    requires
        0 <= i < j < bs.len(),
        considered(bs[i], bs.len() as int, st),
        considered(bs[j], bs.len() as int, st),
        bs[i].fingerprint@ == bs[j].fingerprint@,
    ensures
        duplicate_branches(bs, st, bs.len() as int).contains(bs[j].at as int),
{
    lemma_branch_keys_contain(bs, st, i, j);
    let d = duplicate_branches(bs, st, j);
    assert(duplicate_branches(bs, st, j + 1)[d.len() as int] == bs[j].at as int);
    lemma_branch_duplicates_grow(bs, st, bs[j].at as int, j + 1, bs.len() as int);
}

proof fn lemma_branch_distinct_prefix(bs: Seq<Branch>, st: BranchSettings, n: int)
    requires
        0 <= n <= bs.len(),
        forall|i: int, j: int| 0 <= i < j < bs.len() && considered(bs[i], bs.len() as int, st) && considered(bs[j], bs.len() as int, st) ==> bs[i].fingerprint@ != bs[j].fingerprint@,
    ensures
        duplicate_branches(bs, st, n) == Seq::<int>::empty(),
    decreases n,
{
    if n > 0 {
        lemma_branch_distinct_prefix(bs, st, n - 1);
        let ks = considered_prints(bs, st, n - 1);
        if considered(bs[n - 1], bs.len() as int, st) && ks.contains(bs[n - 1].fingerprint@) {
            let w = choose|w: int| 0 <= w < ks.len() && ks[w] == bs[n - 1].fingerprint@;
            lemma_branch_keys_from(bs, st, n - 1, w);
            let i = choose|i: int| 0 <= i < n - 1 && considered(bs[i], bs.len() as int, st) && bs[i].fingerprint@ == #[trigger] ks[w];
            assert(bs[i].fingerprint@ != bs[n - 1].fingerprint@);
        }
        assert(duplicate_branches(bs, st, n) =~= Seq::<int>::empty());
    }
}

/// Branches whose considered bodies all differ are never reported.
pub proof fn law_distinct_branchs_not_reported(bs: Seq<Branch>, st: BranchSettings)
    requires
        forall|i: int, j: int| 0 <= i < j < bs.len() && considered(bs[i], bs.len() as int, st) && considered(bs[j], bs.len() as int, st) ==> bs[i].fingerprint@ != bs[j].fingerprint@,
    ensures
        duplicate_branches(bs, st, bs.len() as int) == Seq::<int>::empty(),
{
    lemma_branch_distinct_prefix(bs, st, bs.len() as int);
}

proof fn lemma_stripped_has_no_hash(s: Seq<u8>, i: int)
    ensures
        forall|k: int| 0 <= k < strip_comments_from(s, i).len() ==> #[trigger] strip_comments_from(s, i)[k] != HASH,
    decreases s.len() - i, 1int,
{
    if !(i < 0 || i >= s.len()) {
        if s[i] == HASH {
            lemma_newline_from(s, i + 1);
            lemma_stripped_has_no_hash(s, newline_from(s, i + 1));
            assert(strip_comments_from(s, i) == strip_comments_from(s, newline_from(s, i + 1)));
        } else {
            lemma_stripped_has_no_hash(s, i + 1);
            let rest = strip_comments_from(s, i + 1);
            assert(strip_comments_from(s, i) == seq![s[i]] + rest);
            assert forall|k: int| 0 <= k < strip_comments_from(s, i).len() implies #[trigger] strip_comments_from(s, i)[k] != HASH by {
                if k > 0 {
                    assert(strip_comments_from(s, i)[k] == rest[k - 1]);
                }
            }
        }
    }
}

proof fn lemma_strip_without_hash(s: Seq<u8>, i: int)
    requires
        0 <= i <= s.len(),
        forall|k: int| 0 <= k < s.len() ==> #[trigger] s[k] != HASH,
    ensures
        strip_comments_from(s, i) == s.subrange(i, s.len() as int),
    decreases s.len() - i,
{
    if i < s.len() {
        lemma_strip_without_hash(s, i + 1);
        assert(seq![s[i]] + s.subrange(i + 1, s.len() as int) =~= s.subrange(i, s.len() as int));
    } else {
        assert(s.subrange(i, s.len() as int) =~= Seq::<u8>::empty());
    }
}

/// What whitespace normalization leaves: no whitespace but single spaces
/// between two word bytes, and no `#` where the input had none.
pub open spec fn is_normal(r: Seq<u8>) -> bool {
    &&& forall|i: int| 0 <= i < r.len() ==> #[trigger] r[i] != HASH
    &&& forall|i: int|
        0 <= i < r.len() && spec_is_ascii_whitespace(#[trigger] r[i]) ==> r[i] == SPACE && 0 < i < r.len() - 1
            && spec_is_word_byte(r[i - 1]) && spec_is_word_byte(r[i + 1])
}

proof fn lemma_normalize_prefix_normal(s: Seq<u8>, n: int)
    requires
        0 <= n <= s.len(),
        forall|k: int| 0 <= k < s.len() ==> #[trigger] s[k] != HASH,
    ensures
        is_normal(normalize_prefix(s, n).0),
        normalize_prefix(s, n).0.len() > 0 ==> !spec_is_ascii_whitespace(normalize_prefix(s, n).0.last()),
    decreases n,
{
    if n > 0 {
        lemma_normalize_prefix_normal(s, n - 1);
        let (r, pending) = normalize_prefix(s, n - 1);
        let b = s[n - 1];
        if !spec_is_ascii_whitespace(b) {
            let r1 = if pending && r.len() > 0 && spec_is_word_byte(r.last()) && spec_is_word_byte(b) {
                r.push(SPACE)
            } else {
                r
            };
            let out = r1.push(b);
            assert(out == normalize_prefix(s, n).0);
            assert forall|i: int| 0 <= i < out.len() && spec_is_ascii_whitespace(#[trigger] out[i]) implies out[i] == SPACE
                && 0 < i < out.len() - 1 && spec_is_word_byte(out[i - 1]) && spec_is_word_byte(out[i + 1]) by {
                if i < r.len() {
                    assert(out[i] == r[i]);
                    assert(out[i - 1] == r[i - 1]);
                    assert(out[i + 1] == r[i + 1]);
                }
            }
            assert forall|i: int| 0 <= i < out.len() implies #[trigger] out[i] != HASH by {
                if i < r.len() {
                    assert(out[i] == r[i]);
                }
            }
        }
    }
}

proof fn lemma_normalize_normal_prefix(y: Seq<u8>, n: int)
    requires
        0 <= n <= y.len(),
        is_normal(y),
    ensures
        normalize_prefix(y, n) == (if n > 0 && spec_is_ascii_whitespace(y[n - 1]) {
            (y.take(n - 1), true)
        } else {
            (y.take(n), false)
        }),
    decreases n,
{
    if n > 0 {
        lemma_normalize_normal_prefix(y, n - 1);
        let b = y[n - 1];
        if spec_is_ascii_whitespace(b) {
            assert(spec_is_word_byte(y[n - 2]));
            assert(!spec_is_ascii_whitespace(y[n - 2]));
        } else if n >= 2 && spec_is_ascii_whitespace(y[n - 2]) {
            assert(y.take(n - 2).push(SPACE) =~= y.take(n - 1));
            assert(y.take(n - 1).push(b) =~= y.take(n));
        } else {
            assert(y.take(n - 1).push(b) =~= y.take(n));
        }
    } else {
        assert(y.take(0) =~= Seq::<u8>::empty());
    }
}

/// Normalizing a source twice gives what normalizing it once gives.
pub proof fn law_normalize_source_idempotent(s: Seq<u8>)
    ensures
        normalized(normalized(s)) == normalized(s),
{
    let t = strip_comments_from(s, 0);
    let y = normalized(s);
    lemma_stripped_has_no_hash(s, 0);
    lemma_normalize_prefix_normal(t, t.len() as int);
    lemma_strip_without_hash(y, 0);
    assert(y.subrange(0, y.len() as int) =~= y);
    lemma_normalize_normal_prefix(y, y.len() as int);
    assert(y.take(y.len() as int) =~= y);
}

} // verus!
