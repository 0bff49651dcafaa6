use nitrocop::cop::layout::space_around_method_call_operator::{CallOperatorNode, SpaceAroundMethodCallOperator};
use nitrocop::cop::layout::space_inside_parens::{
    command_form_prefix, is_trailing_backslash, next_same_line_item, previous_same_line_code,
    NextSameLineItem, ParenNode, SpaceInsideParens,
};
use nitrocop::cop::layout::space_inside_reference_brackets::{RefNode, SpaceInsideReferenceBrackets};
use nitrocop::cop::lint::assignment_in_condition::{AsgNode, AssignmentInCondition};
use nitrocop::cop::lint::duplicate_elsif_condition::{
    condition_fingerprint, CondNode, DuplicateElsifCondition, ElseStatement, IfBranch, Subsequent,
};
use nitrocop::diagnostic::{apply_corrections, Diagnostic};

fn msg(d: &Diagnostic) -> String {
    String::from_utf8(d.message.clone()).unwrap()
}

fn vcall(name: &str) -> CondNode {
    CondNode::Call { receiver: None, name: name.as_bytes().to_vec(), arguments: vec![], block: None }
}

fn branch(keyword: Option<&str>, predicate: CondNode, start: usize, subsequent: Option<Subsequent>) -> IfBranch {
    IfBranch {
        keyword: keyword.map(|k| k.as_bytes().to_vec()),
        predicate,
        predicate_start: start,
        subsequent: subsequent.map(Box::new),
    }
}

#[test]
fn duplicate_elsif_condition_is_reported() {
    let src = b"if a\nelsif b\nelsif a\nend\n";
    let third = branch(Some("elsif"), vcall("a"), 19, None);
    let second = branch(Some("elsif"), vcall("b"), 11, Some(Subsequent::Elsif { branch: third }));
    let root = branch(Some("if"), vcall("a"), 3, Some(Subsequent::Elsif { branch: second }));
    let diags = DuplicateElsifCondition.check_node(src, &root);
    assert_eq!(diags.len(), 1);
    assert_eq!(diags[0].location.line, 3);
    assert_eq!(diags[0].location.column, 6);
    assert_eq!(msg(&diags[0]), "Duplicate `elsif` condition detected.");
}

#[test]
fn else_with_single_if_continues_the_chain() {
    let src = b"if x == 1\nelse\n  if x == 1\n  end\nend\n";
    let eq = |start: usize| CondNode::Call {
        receiver: Some(Box::new(vcall("x"))),
        name: b"==".to_vec(),
        arguments: vec![CondNode::Other { start, end: start + 1 }],
        block: None,
    };
    let nested = branch(Some("if"), eq(25), 20, None);
    let root = branch(
        Some("if"),
        eq(8),
        3,
        Some(Subsequent::Else { statements: Some(vec![ElseStatement::If { branch: nested }]) }),
    );
    let diags = DuplicateElsifCondition.check_node(src, &root);
    assert_eq!(diags.len(), 1);
    assert_eq!(diags[0].location.line, 3);
}

#[test]
fn elsif_nodes_and_ternaries_are_not_roots() {
    let src = b"a ? b : c\n";
    let root = branch(None, vcall("a"), 0, None);
    assert!(DuplicateElsifCondition.check_node(src, &root).is_empty());
}

#[test]
fn condition_fingerprints() {
    let node = CondNode::Call {
        receiver: Some(Box::new(CondNode::ConstantRead { name: b"Foo".to_vec() })),
        name: b"bar".to_vec(),
        arguments: vec![
            CondNode::Sym { unescaped: b"x".to_vec() },
            CondNode::Str { unescaped: b"y".to_vec() },
        ],
        block: None,
    };
    assert_eq!(condition_fingerprint(b"", &node), b"C:CR:Foo.bar(Y:x,S:y)".to_vec());
    let regex = CondNode::Regex { unescaped: b"a+".to_vec(), closing: b"/i".to_vec() };
    assert_eq!(condition_fingerprint(b"", &regex), b"R:a+/i".to_vec());
}

fn write(op: usize, value: AsgNode) -> AsgNode {
    AsgNode::Write { operator_start: op, value: Box::new(value) }
}

#[test]
fn assignment_in_condition_is_reported() {
    let src = b"if x = foo\nend\n";
    let diags = AssignmentInCondition.check_node(src, &write(5, AsgNode::Other), false, true);
    assert_eq!(diags.len(), 1);
    assert_eq!(diags[0].location.column, 5);
    assert!(msg(&diags[0]).starts_with("Use `==` if you meant to do a comparison or wrap"));
}

#[test]
fn parenthesized_assignment_is_allowed_when_safe() {
    let src = b"if (x = foo)\nend\n";
    let node = AsgNode::Parentheses { body: Some(Box::new(AsgNode::Statements { body: vec![write(6, AsgNode::Other)] })) };
    assert!(AssignmentInCondition.check_node(src, &node, false, true).is_empty());
    let diags = AssignmentInCondition.check_node(src, &node, false, false);
    assert_eq!(diags.len(), 1);
    assert!(msg(&diags[0]).ends_with("move the assignment up out of the condition."));
}

#[test]
fn nested_assignments_and_attribute_writes() {
    let src = b"while x = a && y = b\nend\n";
    let inner = AsgNode::And { left: Box::new(AsgNode::Other), right: Box::new(write(17, AsgNode::Other)) };
    let diags = AssignmentInCondition.check_node(src, &write(8, inner.clone_shape()), false, true);
    assert_eq!(diags.len(), 2);
    let src = b"if a.b = 1\nend\n";
    let call = AsgNode::Call { attribute_write: true, closing_end: None, message_end: Some(6), arguments: vec![AsgNode::Other] };
    let diags = AssignmentInCondition.check_node(src, &call, false, true);
    assert_eq!(diags.len(), 1);
    assert_eq!(diags[0].location.column, 7);
    let block = AsgNode::BlockOrLambda;
    assert!(AssignmentInCondition.check_node(src, &block, false, true).is_empty());
    assert!(AssignmentInCondition.check_node(b"begin\nend while x = 1\n", &write(16, AsgNode::Other), true, true).is_empty());
}

trait CloneShape {
    fn clone_shape(&self) -> AsgNode;
}

impl CloneShape for AsgNode {
    fn clone_shape(&self) -> AsgNode {
        match self {
            AsgNode::And { left, right } => AsgNode::And { left: Box::new(left.clone_shape()), right: Box::new(right.clone_shape()) },
            AsgNode::Write { operator_start, value } => AsgNode::Write { operator_start: *operator_start, value: Box::new(value.clone_shape()) },
            _ => AsgNode::Other,
        }
    }
}

#[test]
fn reference_brackets_no_space_style() {
    let src = b"a[ 1 ]\n";
    let node = RefNode::Call {
        name: b"[]".to_vec(),
        opening: Some((1, 2)),
        closing: Some((5, 6)),
        pairs: vec![(1, 5)],
        node_start: 0,
        node_end: 6,
    };
    let (diags, corrections) = SpaceInsideReferenceBrackets.check_node(src, &node, b"no_space", b"no_space", true);
    assert_eq!(diags.len(), 2);
    assert_eq!(msg(&diags[0]), "Do not use space inside reference brackets.");
    assert_eq!(apply_corrections(src, &corrections), b"a[1]\n");
}

#[test]
fn reference_brackets_empty_and_chained() {
    let src = b"a[  ]\n";
    let node = RefNode::IndexWrite { has_receiver: true, open_start: 1, close_start: 4 };
    let (diags, _) = SpaceInsideReferenceBrackets.check_node(src, &node, b"no_space", b"no_space", false);
    assert_eq!(diags.len(), 1);
    assert_eq!(msg(&diags[0]), "Do not use space inside empty reference brackets.");
    let src = b"a[1][ 2]\n";
    let node = RefNode::Call {
        name: b"[]".to_vec(),
        opening: Some((4, 5)),
        closing: Some((7, 8)),
        pairs: vec![(4, 7), (1, 3)],
        node_start: 0,
        node_end: 8,
    };
    let (diags, _) = SpaceInsideReferenceBrackets.check_node(src, &node, b"no_space", b"no_space", false);
    assert_eq!(diags.len(), 1);
    assert_eq!(diags[0].location.column, 5);
}

fn parens(src: &[u8], node: &ParenNode, style: &[u8]) -> (Vec<Diagnostic>, Vec<u8>) {
    let (diags, corrections) = SpaceInsideParens.check_node(src, node, style, true);
    (diags, apply_corrections(src, &corrections))
}

#[test]
fn parens_no_space_style() {
    let src = b"f( a, b )\n";
    let node = ParenNode::Delimited { open_start: 1, open_end: 2, close_start: 8, close_end: 9, must_be_parens: true };
    let (diags, corrected) = parens(src, &node, b"no_space");
    assert_eq!(diags.len(), 2);
    assert_eq!(msg(&diags[0]), "Space inside parentheses detected.");
    assert_eq!(corrected, b"f(a, b)\n");
}

#[test]
fn parens_space_style_and_empty() {
    let src = b"f(a)\n";
    let node = ParenNode::Delimited { open_start: 1, open_end: 2, close_start: 3, close_end: 4, must_be_parens: true };
    let (diags, corrected) = parens(src, &node, b"space");
    assert_eq!(diags.len(), 2);
    assert_eq!(msg(&diags[0]), "No space inside parentheses detected.");
    assert_eq!(corrected, b"f( a )\n");
    let src = b"f(  )\n";
    let node = ParenNode::Delimited { open_start: 1, open_end: 2, close_start: 4, close_end: 5, must_be_parens: true };
    let (diags, corrected) = parens(src, &node, b"space");
    assert_eq!(diags.len(), 1);
    assert_eq!(corrected, b"f()\n");
}

#[test]
fn parens_command_form_and_defined() {
    let src = b"puts ( x )\n";
    let node = ParenNode::Parentheses { open_start: 5, open_end: 6, close_start: 9 };
    let (diags, corrected) = parens(src, &node, b"no_space");
    assert_eq!(diags.len(), 1);
    assert_eq!(corrected, b"puts ( x)\n");
    assert_eq!(command_form_prefix(src, 5), Some(&b"puts"[..]));
    assert_eq!(command_form_prefix(b"if (x)", 3), None);
    let src = b"defined?( x)\n";
    let node = ParenNode::Defined { start: 0, end: 12 };
    let (diags, corrected) = parens(src, &node, b"no_space");
    assert_eq!(diags.len(), 1);
    assert_eq!(corrected, b"defined?(x)\n");
}

#[test]
fn same_line_items() {
    assert!(matches!(next_same_line_item(b"(  # c\n", 1), NextSameLineItem::Comment));
    assert!(matches!(next_same_line_item(b"( \\\n x", 1), NextSameLineItem::Nothing));
    assert!(matches!(next_same_line_item(b"(  x", 1), NextSameLineItem::Code(3)));
    assert_eq!(previous_same_line_code(b"x  )", 3), Some(0));
    assert_eq!(previous_same_line_code(b"\n  )", 3), None);
    assert!(is_trailing_backslash(b"\\  \n", 0, 3));
}

#[test]
fn method_call_operator_spacing() {
    let src = b"a . b\n";
    let node = CallOperatorNode::Call { receiver_end: Some(1), call_operator: Some((2, 3)), selector_start: Some(4) };
    let mut diags = Vec::new();
    SpaceAroundMethodCallOperator.check_node(src, &node, &mut diags);
    assert_eq!(diags.len(), 2);
    assert_eq!(diags[0].location.column, 1);
    assert_eq!(diags[1].location.column, 3);
    assert_eq!(msg(&diags[0]), "Avoid using spaces around a method call operator.");
    let src = b"Foo:: Bar\n";
    let node = CallOperatorNode::ConstantPath { has_name: true, delimiter_end: 5, name_start: 6 };
    let mut diags = Vec::new();
    SpaceAroundMethodCallOperator.check_node(src, &node, &mut diags);
    assert_eq!(diags.len(), 1);
    let src = b"a.\n  b\n";
    let node = CallOperatorNode::Call { receiver_end: Some(1), call_operator: Some((1, 2)), selector_start: Some(5) };
    let mut diags = Vec::new();
    SpaceAroundMethodCallOperator.check_node(src, &node, &mut diags);
    assert!(diags.is_empty());
}

#[test]
fn space_style_flags_missing_spaces() {
    let src = b"x = (1 + 2)\n";
    let node = ParenNode::Parentheses { open_start: 4, open_end: 5, close_start: 10 };
    let (diags, _) = SpaceInsideParens.check_node(src, &node, b"space", false);
    assert_eq!(diags.len(), 2, "space style should flag missing spaces inside parens");
    assert!(msg(&diags[0]).contains("No space"));
}

#[test]
fn space_style_accepts_spaces() {
    let src = b"x = ( 1 + 2 )\n";
    let node = ParenNode::Parentheses { open_start: 4, open_end: 5, close_start: 12 };
    let (diags, _) = SpaceInsideParens.check_node(src, &node, b"space", false);
    assert!(diags.is_empty());
}

#[test]
fn space_style_command_form_only_requires_closing_space() {
    let src = b"check ( value)\n";
    let node = ParenNode::Parentheses { open_start: 6, open_end: 7, close_start: 13 };
    let (diags, _) = SpaceInsideParens.check_node(src, &node, b"space", false);
    assert_eq!(diags.len(), 1, "command-form parens should only check the closing side");
    assert_eq!(diags[0].location.column, 13);
    assert!(msg(&diags[0]).contains("No space"));
}
