use nitrocop::cop::lint::branch_fingerprint::{statements_fingerprint, Literal, LiteralSpan, PrintNode};
use nitrocop::cop::lint::duplicate_branch::{
    else_report_offset, is_literal_node, Branch, BranchNode, BranchSettings, DuplicateBranch,
};

fn branch(fp: &[u8], at: usize, is_else: bool, statements: Option<Vec<BranchNode>>) -> Branch {
    Branch { fingerprint: fp.to_vec(), at, is_else, statements }
}

const NONE: BranchSettings = BranchSettings { ignore_literal: false, ignore_constant: false, ignore_duplicate_else: false };

#[test]
fn keyword_hash_counts_as_literal_branch() {
    let pair = BranchNode::Pair { key: Box::new(BranchNode::Atom), value: Box::new(BranchNode::Atom) };
    let arg = BranchNode::Hash { elements: vec![pair] };
    assert!(is_literal_node(&arg, false));
}

#[test]
fn duplicate_if_branch_reported() {
    let src = b"if a\n  foo\nelsif b\n  bar\nelse\n  foo\nend\n";
    let bs = vec![branch(b"foo", 0, false, None), branch(b"bar", 11, false, None), branch(b"foo", 25, true, None)];
    let diags = DuplicateBranch.check_if_branches(src, false, &bs, NONE);
    assert_eq!(diags.len(), 1);
    assert_eq!((diags[0].location.line, diags[0].location.column), (5, 0));
    assert_eq!(String::from_utf8(diags[0].message.clone()).unwrap(), "Duplicate branch body detected.");
    assert!(DuplicateBranch.check_if_branches(src, true, &bs, NONE).is_empty());
    let ignore_else = BranchSettings { ignore_duplicate_else: true, ..NONE };
    assert!(DuplicateBranch.check_if_branches(src, false, &bs, ignore_else).is_empty());
}

#[test]
fn empty_literal_and_constant_branches() {
    let src = b"case x\nwhen 1 then :a\nwhen 2 then :a\nwhen 3 then Foo\nwhen 4 then Foo\nwhen 5\nwhen 6\nend\n";
    let lit = || Some(vec![BranchNode::Atom]);
    let cst = || Some(vec![BranchNode::Constant]);
    let bs = vec![
        branch(b":a", 7, false, lit()),
        branch(b":a", 22, false, lit()),
        branch(b"Foo", 37, false, cst()),
        branch(b"Foo", 53, false, cst()),
        branch(b"", 69, false, None),
        branch(b"", 76, false, None),
    ];
    let diags = DuplicateBranch.check_branches(src, &bs, NONE);
    assert_eq!(diags.len(), 2);
    assert_eq!(diags[0].location.line, 3);
    assert_eq!(diags[1].location.line, 5);
    let ignore_lit = BranchSettings { ignore_literal: true, ..NONE };
    let diags = DuplicateBranch.check_branches(src, &bs, ignore_lit);
    assert_eq!(diags.len(), 1);
    assert_eq!(diags[0].location.line, 5);
    let ignore_both = BranchSettings { ignore_literal: true, ignore_constant: true, ignore_duplicate_else: false };
    assert!(DuplicateBranch.check_branches(src, &bs, ignore_both).is_empty());
}

#[test]
fn unless_branches() {
    let src = b"unless a\n  foo\nelse\n  foo\nend\n";
    let d = DuplicateBranch.check_unless_branches(src, &branch(b"foo", 0, false, None), &branch(b"foo", 15, true, None), NONE);
    assert_eq!(d.map(|d| (d.location.line, d.location.column)), Some((3, 0)));
    let d = DuplicateBranch.check_unless_branches(src, &branch(b"foo", 0, false, None), &branch(b"bar", 15, true, None), NONE);
    assert!(d.is_none());
}

#[test]
fn else_offsets() {
    assert_eq!(else_report_offset(true, Some(9), 7), 9);
    assert_eq!(else_report_offset(false, Some(9), 7), 7);
    assert_eq!(else_report_offset(true, None, 7), 7);
}

fn call(name: &[u8]) -> PrintNode {
    PrintNode::Call { receiver: None, operator: None, name: name.to_vec(), arguments: Vec::new(), block: None }
}

fn text(start: usize, end: usize) -> PrintNode {
    PrintNode::Text { start, end, literals: Vec::new() }
}

#[test]
fn array_fingerprint_distinguishes_pattern_locals_from_method_calls() {
    let src = b"case caught\nin Enumerator => body\n  [status, headers, body]\nin [Integer => status, Enumerator => body]\n  [status, headers, body]\nend\n";
    let first = PrintNode::Array { elements: vec![call(b"status"), call(b"headers"), text(54, 58)] };
    let second = PrintNode::Array { elements: vec![text(106, 112), call(b"headers"), text(123, 127)] };
    let a = statements_fingerprint(src, &Some(vec![first]));
    let b = statements_fingerprint(src, &Some(vec![second]));
    assert_eq!(a, b"A[C:status(),C:headers(),body]".to_vec());
    assert_eq!(b, b"A[status,C:headers(),body]".to_vec());
    assert_ne!(a, b);
}

#[test]
fn text_fingerprint_keeps_literals_and_drops_comments() {
    let src = b"foo( 'a b' ,  :x ) # note\n";
    let literals = vec![
        LiteralSpan { start: 14, end: 16, literal: Literal::Sym { unescaped: b"x".to_vec() } },
        LiteralSpan { start: 5, end: 10, literal: Literal::Str { unescaped: b"a b".to_vec() } },
    ];
    let node = PrintNode::Text { start: 0, end: 25, literals };
    assert_eq!(statements_fingerprint(src, &Some(vec![node])), b"foo(S:a b,Y:x)".to_vec());
}

#[test]
fn lone_string_and_empty_statements() {
    let src = b"x\n";
    let s = PrintNode::Str { unescaped: b"hi".to_vec() };
    assert_eq!(statements_fingerprint(src, &Some(vec![s])), b"string:hi".to_vec());
    assert!(statements_fingerprint(src, &Some(Vec::new())).is_empty());
    assert!(statements_fingerprint(src, &None).is_empty());
    let two = vec![PrintNode::Zero, PrintNode::Sym { unescaped: b"a".to_vec() }];
    assert_eq!(statements_fingerprint(src, &Some(two)), b"F:0.0\x00Y:a".to_vec());
}
