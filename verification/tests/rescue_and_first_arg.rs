use nitrocop::cop::layout::space_before_first_arg::{
    is_aligned_with_adjacent, is_operator_method, is_setter_method, FirstArgCall, SpaceBeforeFirstArg,
};
use nitrocop::cop::lint::rescue_cops::{
    AmbiguousAssignment, ConstantOverwrittenInRescue, DuplicateRescueException, RescueClause, RescueReference,
};
use nitrocop::diagnostic::Diagnostic;
use nitrocop::text::line_spans;

fn msg(d: &Diagnostic) -> String {
    String::from_utf8(d.message.clone()).unwrap()
}

fn call(name: &[u8], arg: (usize, usize), message_end: usize) -> FirstArgCall {
    FirstArgCall { name: name.to_vec(), has_opening: false, first_argument: Some(arg), message_end: Some(message_end) }
}

#[test]
fn first_arg_extra_space_flagged() {
    let src = b"puts  x\n";
    let d = SpaceBeforeFirstArg.check_node(src, &call(b"puts", (6, 7), 4), true).unwrap();
    assert_eq!((d.location.line, d.location.column), (1, 4));
    assert_eq!(msg(&d), "Put one space between the method name and the first argument.");
}

#[test]
fn first_arg_no_space_flagged() {
    let src = b"puts\"x\"\n";
    let d = SpaceBeforeFirstArg.check_node(src, &call(b"puts", (4, 7), 4), true);
    assert!(d.is_some());
}

#[test]
fn first_arg_accepted_forms() {
    assert!(SpaceBeforeFirstArg.check_node(b"puts x\n", &call(b"puts", (5, 6), 4), true).is_none());
    let mut c = call(b"puts", (5, 6), 4);
    c.has_opening = true;
    assert!(SpaceBeforeFirstArg.check_node(b"puts(x)\n", &c, true).is_none());
    assert!(SpaceBeforeFirstArg.check_node(b"a ==  b\n", &call(b"==", (6, 7), 4), true).is_none());
    assert!(SpaceBeforeFirstArg.check_node(b"a.b=  1\n", &call(b"b=", (6, 7), 4), true).is_none());
    assert!(SpaceBeforeFirstArg.check_node(b"puts\n  x\n", &call(b"puts", (7, 8), 4), true).is_none());
}

#[test]
fn first_arg_alignment() {
    let src = b"foo  1\nbar  2\n";
    let c = call(b"bar", (12, 13), 10);
    assert!(SpaceBeforeFirstArg.check_node(src, &c, true).is_none());
    let d = SpaceBeforeFirstArg.check_node(src, &c, false).unwrap();
    assert_eq!((d.location.line, d.location.column), (2, 3));
    let spans = line_spans(src);
    assert!(is_aligned_with_adjacent(src, &spans, 2, 5, b"2"));
    assert!(!is_aligned_with_adjacent(src, &spans, 2, 4, b"2"));
}

#[test]
fn operator_and_setter_names() {
    assert!(is_operator_method(b"<=>"));
    assert!(is_operator_method(b"[]="));
    assert!(!is_operator_method(b"puts"));
    assert!(is_setter_method(b"name="));
    assert!(!is_setter_method(b"=="));
    assert!(!is_setter_method(b"="));
}

#[test]
fn duplicate_rescue_exception_reported() {
    let src = b"begin\nrescue A, B\nrescue A\nend\n";
    let diags = DuplicateRescueException.check_node(src, &vec![(13, 14), (16, 17), (25, 26)]);
    assert_eq!(diags.len(), 1);
    assert_eq!((diags[0].location.line, diags[0].location.column), (3, 7));
    assert_eq!(msg(&diags[0]), "Duplicate `rescue` exception detected.");
    assert!(DuplicateRescueException.check_node(src, &vec![(13, 14), (16, 17)]).is_empty());
}

#[test]
fn constant_overwritten_in_rescue_reported() {
    let src = b"begin\nrescue => Foo\nend\n";
    let clause = RescueClause {
        has_exceptions: false,
        has_statements: false,
        reference: Some(RescueReference::ConstantTarget { name: b"Foo".to_vec() }),
        operator_start: Some(13),
    };
    let diags = ConstantOverwrittenInRescue.check_node(src, &vec![clause]);
    assert_eq!(diags.len(), 1);
    assert_eq!((diags[0].location.line, diags[0].location.column), (2, 7));
    assert_eq!(msg(&diags[0]), "`Foo` is overwritten by `rescue =>`.");
}

#[test]
fn constant_path_and_accepted_rescues() {
    let src = b"begin\nrescue => A::B\nend\n";
    let path = RescueClause {
        has_exceptions: false,
        has_statements: false,
        reference: Some(RescueReference::ConstantPathTarget { start: 16, end: 20 }),
        operator_start: Some(13),
    };
    let diags = ConstantOverwrittenInRescue.check_node(src, &vec![path]);
    assert_eq!(msg(&diags[0]), "`A::B` is overwritten by `rescue =>`.");
    let with_body = RescueClause {
        has_exceptions: false,
        has_statements: true,
        reference: Some(RescueReference::ConstantTarget { name: b"Foo".to_vec() }),
        operator_start: Some(13),
    };
    let local = RescueClause { has_exceptions: false, has_statements: false, reference: Some(RescueReference::Other), operator_start: Some(13) };
    assert!(ConstantOverwrittenInRescue.check_node(src, &vec![with_body, local]).is_empty());
}

#[test]
fn ambiguous_assignment_reported() {
    let src = b"x =- 1\n";
    let d = AmbiguousAssignment.check_node(src, 3, 3).unwrap();
    assert_eq!((d.location.line, d.location.column), (1, 2));
    assert_eq!(msg(&d), "Suspicious assignment detected. Did you mean `-=`?");
    let d = AmbiguousAssignment.check_node(b"x =! y\n", 3, 3).unwrap();
    assert_eq!(msg(&d), "Suspicious assignment detected. Did you mean `!=`?");
    assert!(AmbiguousAssignment.check_node(b"x = -1\n", 3, 4).is_none());
    assert!(AmbiguousAssignment.check_node(b"x -= 1\n", 4, 5).is_none());
}
