use nitrocop::cop::lint::duplicate_hash_key::{is_literal, DuplicateHashKey, HashElement, LitNode};

fn pair(key: LitNode, start: usize, end: usize) -> HashElement {
    HashElement::Pair { key, key_start: start, key_end: end, float_key: None }
}

fn call(name: &[u8], receiver: Option<LitNode>, arguments: Option<Vec<LitNode>>) -> LitNode {
    LitNode::Call { name: name.to_vec(), receiver: receiver.map(Box::new), arguments, has_block: false }
}

#[test]
fn duplicate_symbol_keys_reported() {
    let src = b"{a: 1, a: 2}\n";
    let diags = DuplicateHashKey.check_node(src, &vec![pair(LitNode::Atom, 1, 3), pair(LitNode::Atom, 7, 9)]);
    assert_eq!(diags.len(), 1);
    assert_eq!((diags[0].location.line, diags[0].location.column), (1, 7));
    assert_eq!(String::from_utf8(diags[0].message.clone()).unwrap(), "Duplicated key in hash literal.");
}

#[test]
fn distinct_and_non_literal_keys_accepted() {
    let src = b"{a: 1, b: 2, x => 3, x => 4}\n";
    let x = LitNode::Other;
    let diags = DuplicateHashKey.check_node(
        src,
        &vec![pair(LitNode::Atom, 1, 3), pair(LitNode::Atom, 7, 9), pair(x, 13, 14), pair(LitNode::Other, 21, 22), HashElement::Splat],
    );
    assert!(diags.is_empty());
}

#[test]
fn equal_floats_written_differently_are_duplicates() {
    let src = b"{0.0 => 1, -0.0 => 2}\n";
    let f = |s, e| HashElement::Pair { key: LitNode::Atom, key_start: s, key_end: e, float_key: Some(b"__f:0".to_vec()) };
    let diags = DuplicateHashKey.check_node(src, &vec![f(1, 4), f(11, 15)]);
    assert_eq!(diags.len(), 1);
    assert_eq!(diags[0].location.column, 11);
}

#[test]
fn literal_shapes() {
    assert!(is_literal(&LitNode::Atom));
    assert!(is_literal(&call(b"-@", Some(LitNode::Atom), None)));
    assert!(is_literal(&call(b"*", Some(LitNode::Atom), Some(vec![LitNode::Atom]))));
    assert!(!is_literal(&call(b"+", Some(LitNode::Atom), Some(vec![LitNode::Atom]))));
    assert!(!is_literal(&call(b"[]", Some(LitNode::Atom), Some(vec![LitNode::Atom]))));
    assert!(!is_literal(&call(b"foo", None, None)));
    assert!(is_literal(&LitNode::Range { left: Some(Box::new(LitNode::Atom)), right: None }));
    assert!(is_literal(&LitNode::Parentheses { statements: Some(vec![LitNode::Atom]) }));
    assert!(!is_literal(&LitNode::Parentheses { statements: Some(vec![LitNode::Atom, LitNode::Atom]) }));
    assert!(is_literal(&LitNode::Array { elements: vec![LitNode::Atom, LitNode::Atom] }));
    assert!(!is_literal(&LitNode::Array { elements: vec![LitNode::Atom, LitNode::Other] }));
    let pair = LitNode::Pair { key: Box::new(LitNode::Atom), value: Box::new(LitNode::Atom) };
    assert!(is_literal(&LitNode::Hash { elements: vec![pair] }));
    assert!(!is_literal(&LitNode::Hash { elements: vec![LitNode::Other] }));
    let parts = vec![LitNode::Text, LitNode::Embedded { statements: Some(vec![LitNode::Atom]) }];
    assert!(is_literal(&LitNode::Interpolated { parts }));
    assert!(!is_literal(&LitNode::Interpolated { parts: vec![LitNode::Embedded { statements: None }] }));
    assert!(is_literal(&LitNode::And { left: Box::new(LitNode::Atom), right: Box::new(LitNode::Atom) }));
    assert!(!is_literal(&LitNode::Or { left: Box::new(LitNode::Atom), right: Box::new(LitNode::Other) }));
}
