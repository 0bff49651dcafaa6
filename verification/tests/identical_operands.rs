use nitrocop::cop::lint::binary_operator_with_identical_operands::{
    operands_match, BinaryNode, BinaryOperatorWithIdenticalOperands, Operand,
};

fn other(start: usize, end: usize) -> Operand {
    Operand::Other { start, end }
}

fn msg(n: &BinaryNode, src: &[u8]) -> Option<String> {
    BinaryOperatorWithIdenticalOperands.check_node(src, n).map(|d| String::from_utf8(d.message).unwrap())
}

#[test]
fn identical_comparison_reported() {
    let src = b"x == x\n";
    let n = BinaryNode::Call { start: 0, name: b"==".to_vec(), receiver: Some(other(0, 1)), first_argument: Some(other(5, 6)) };
    assert_eq!(msg(&n, src), Some("Binary operator `==` has identical operands.".to_string()));
    let n = BinaryNode::Call { start: 0, name: b"+".to_vec(), receiver: Some(other(0, 1)), first_argument: Some(other(5, 6)) };
    assert_eq!(msg(&n, b"x +  x\n"), None);
}

#[test]
fn logical_operators() {
    let src = b"a && a\n";
    let n = BinaryNode::And { start: 0, left: other(0, 1), right: other(5, 6) };
    assert_eq!(msg(&n, src), Some("Binary operator `&&` has identical operands.".to_string()));
    let src = b"a || b\n";
    let n = BinaryNode::Or { start: 0, left: other(0, 1), right: other(5, 6) };
    assert_eq!(msg(&n, src), None);
}

#[test]
fn operands_compared_by_value() {
    let src = b"foo(1) == foo( 1 )\n";
    let l = Operand::Call { start: 0, end: 6, name: b"foo".to_vec(), has_block: false, receiver: None, arguments: Some(vec![Operand::Integer { start: 4, end: 5, negative: false, digits: vec![1] }]) };
    let r = Operand::Call { start: 10, end: 18, name: b"foo".to_vec(), has_block: false, receiver: None, arguments: Some(vec![Operand::Integer { start: 15, end: 16, negative: false, digits: vec![1] }]) };
    assert!(operands_match(src, &l, &r));
    let src = b":a == :\"a\"\n";
    let l = Operand::Symbol { start: 0, end: 2, unescaped: b"a".to_vec() };
    let r = Operand::Symbol { start: 6, end: 10, unescaped: b"a".to_vec() };
    assert!(operands_match(src, &l, &r));
    let src = b"1.0 == 1.00\n";
    let l = Operand::Float { start: 0, end: 3, key: Some(1) };
    let r = Operand::Float { start: 7, end: 11, key: Some(1) };
    assert!(operands_match(src, &l, &r));
    let nan = Operand::Float { start: 0, end: 3, key: None };
    let nan2 = Operand::Float { start: 7, end: 11, key: None };
    assert!(!operands_match(src, &nan, &nan2));
    let src = b"'a' == \"a\"\n";
    let l = Operand::Str { start: 0, end: 3, unescaped: b"a".to_vec(), opening: Some((0, 1)) };
    let r = Operand::Str { start: 7, end: 10, unescaped: b"a".to_vec(), opening: Some((7, 8)) };
    assert!(operands_match(src, &l, &r));
    let blocky = Operand::Call { start: 0, end: 3, name: b"foo".to_vec(), has_block: true, receiver: None, arguments: None };
    let blocky2 = Operand::Call { start: 7, end: 10, name: b"foo".to_vec(), has_block: true, receiver: None, arguments: None };
    assert!(!operands_match(b"foo == fo0\n", &blocky, &blocky2));
}
