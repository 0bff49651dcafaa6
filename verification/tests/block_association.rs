use nitrocop::cop::lint::ambiguous_block_association::{
    is_operator_method, AmbiguousBlockAssociation, BlockCall, BlockKind, InnerCall, LastArgument,
};

fn inner(name: &[u8], block: BlockKind, has_arguments: bool, start: usize, end: usize) -> InnerCall {
    InnerCall { name: name.to_vec(), has_receiver: false, receiver_constant: None, block, has_arguments, start, end }
}

fn outer(last: LastArgument, args: (usize, usize)) -> BlockCall {
    BlockCall { name: b"foo".to_vec(), has_opening: false, has_message: true, arguments: Some(args), last_argument: Some(last), start: 0 }
}

const SRC: &[u8] = b"foo bar { 1 }\n";

fn ambiguous() -> BlockCall {
    outer(LastArgument::Call(inner(b"bar", BlockKind::Block { numbered: false }, false, 4, 13)), (4, 13))
}

#[test]
fn ambiguous_block_reported() {
    let d = AmbiguousBlockAssociation.check_node(SRC, &ambiguous(), &vec![], &vec![]).unwrap();
    assert_eq!((d.location.line, d.location.column), (1, 0));
    assert_eq!(
        String::from_utf8(d.message).unwrap(),
        "Parenthesize the param `bar { 1 }` to make sure that the block will be associated with the `bar` method call."
    );
}

#[test]
fn allowed_methods_and_patterns() {
    assert!(AmbiguousBlockAssociation.check_node(SRC, &ambiguous(), &vec![b"bar".to_vec()], &vec![]).is_none());
    assert!(AmbiguousBlockAssociation.check_node(SRC, &ambiguous(), &vec![], &vec!["^bar".to_string()]).is_none());
    assert!(AmbiguousBlockAssociation.check_node(SRC, &ambiguous(), &vec![], &vec!["^baz".to_string()]).is_some());
    assert!(AmbiguousBlockAssociation.check_node(SRC, &ambiguous(), &vec![], &vec!["(".to_string()]).is_some());
    assert!(AmbiguousBlockAssociation
        .check_with_pattern_results(SRC, &ambiguous(), &vec![], &vec![None, Some(true)])
        .is_none());
    assert!(AmbiguousBlockAssociation
        .check_with_pattern_results(SRC, &ambiguous(), &vec![], &vec![None, Some(false)])
        .is_some());
}

#[test]
fn unambiguous_calls_accepted() {
    let mut c = ambiguous();
    c.has_opening = true;
    assert!(AmbiguousBlockAssociation.check_node(SRC, &c, &vec![], &vec![]).is_none());
    let c = outer(LastArgument::Call(inner(b"bar", BlockKind::Block { numbered: false }, true, 4, 13)), (4, 13));
    assert!(AmbiguousBlockAssociation.check_node(SRC, &c, &vec![], &vec![]).is_none());
    let c = outer(LastArgument::Call(inner(b"bar", BlockKind::Argument, false, 4, 13)), (4, 13));
    assert!(AmbiguousBlockAssociation.check_node(SRC, &c, &vec![], &vec![]).is_none());
    let c = outer(LastArgument::Call(inner(b"lambda", BlockKind::Block { numbered: false }, false, 4, 13)), (4, 13));
    assert!(AmbiguousBlockAssociation.check_node(SRC, &c, &vec![], &vec![]).is_none());
    let c = outer(LastArgument::Call(inner(b"proc", BlockKind::Block { numbered: true }, false, 4, 13)), (4, 13));
    assert!(AmbiguousBlockAssociation.check_node(SRC, &c, &vec![], &vec![]).is_some());
    assert!(AmbiguousBlockAssociation.check_node(SRC, &outer(LastArgument::Lambda, (4, 13)), &vec![], &vec![]).is_none());
    let mut c = ambiguous();
    c.name = b"x=".to_vec();
    assert!(AmbiguousBlockAssociation.check_node(SRC, &c, &vec![], &vec![]).is_none());
}

#[test]
fn operator_names() {
    assert!(is_operator_method(b"<=>"));
    assert!(is_operator_method(b"`"));
    assert!(!is_operator_method(b"foo"));
}

#[test]
fn byte_oriented_patterns_do_not_compile_and_are_ignored() {
    assert!(AmbiguousBlockAssociation.check_node(SRC, &ambiguous(), &vec![], &vec!["(?-u:.)".to_string()]).is_some());
    assert!(AmbiguousBlockAssociation.check_node(SRC, &ambiguous(), &vec![], &vec!["(?-u:\\xC3)".to_string()]).is_some());
}
