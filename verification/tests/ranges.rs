use nitrocop::cop::lint::ambiguous_block_association::BlockKind;
use nitrocop::cop::lint::ambiguous_range::{is_acceptable_boundary, AmbiguousRange, Boundary, ValueKind};

fn call(name: &[u8], receiver: Option<ValueKind>, arguments: Option<Vec<ValueKind>>, block: BlockKind) -> Boundary {
    Boundary::Call { name: name.to_vec(), receiver, arguments, block }
}

#[test]
fn operator_boundaries_reported() {
    let src = b"x + 1..y - 1\n";
    let left = Some((call(b"+", Some(ValueKind::Other), Some(vec![ValueKind::Integer]), BlockKind::NoBlock), 0));
    let right = Some((call(b"-", Some(ValueKind::Other), Some(vec![ValueKind::Integer]), BlockKind::NoBlock), 7));
    let diags = AmbiguousRange.check_node(src, &left, &right, false);
    assert_eq!(diags.len(), 2);
    assert_eq!(diags[0].location.column, 0);
    assert_eq!(diags[1].location.column, 7);
    assert_eq!(
        String::from_utf8(diags[0].message.clone()).unwrap(),
        "Wrap complex range boundaries with parentheses to avoid ambiguity."
    );
}

#[test]
fn plain_and_simple_boundaries_accepted() {
    let src = b"(x + 1)..foo\n";
    let left = Some((Boundary::Plain, 0));
    let right = Some((call(b"foo", None, None, BlockKind::NoBlock), 9));
    assert!(AmbiguousRange.check_node(src, &left, &right, false).is_empty());
    assert!(AmbiguousRange.check_node(src, &Some((Boundary::Plain, 0)), &None, false).is_empty());
}

#[test]
fn boundary_rules() {
    assert!(is_acceptable_boundary(&call(b"-@", Some(ValueKind::Other), None, BlockKind::NoBlock), false));
    assert!(is_acceptable_boundary(&call(b"/", Some(ValueKind::Integer), Some(vec![ValueKind::Rational]), BlockKind::NoBlock), false));
    assert!(!is_acceptable_boundary(&call(b"to_a", Some(ValueKind::Integer), None, BlockKind::NoBlock), false));
    assert!(is_acceptable_boundary(&call(b"size", Some(ValueKind::Other), None, BlockKind::NoBlock), false));
    assert!(!is_acceptable_boundary(&call(b"size", Some(ValueKind::Other), None, BlockKind::NoBlock), true));
    assert!(is_acceptable_boundary(&call(b"[]", Some(ValueKind::Other), Some(vec![ValueKind::Integer]), BlockKind::NoBlock), false));
    assert!(!is_acceptable_boundary(&call(b"times", Some(ValueKind::Other), None, BlockKind::Block { numbered: false }), false));
    assert!(is_acceptable_boundary(&call(b"map", Some(ValueKind::Other), None, BlockKind::Argument), false));
    assert!(!is_acceptable_boundary(&Boundary::Other, false));
}
