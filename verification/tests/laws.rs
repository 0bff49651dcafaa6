use nitrocop::code_map::CodeMap;
use nitrocop::cop::layout::space_around_equals_in_parameter_default::SpaceAroundEqualsInParameterDefault;
use nitrocop::cop::layout::space_before_comma::SpaceBeforeComma;
use nitrocop::cop::layout::space_before_semicolon::SpaceBeforeSemicolon;
use nitrocop::cop::lint::constant_reassignment::{ConstantEvent, ConstantReassignment};
use nitrocop::cop::lint::duplicate_magic_comment::DuplicateMagicComment;
use nitrocop::cop::lint::rescue_cops::DuplicateRescueException;
use nitrocop::diagnostic::{apply_corrections, Correction};

fn in_order(len: usize, cs: &[Correction]) -> bool {
    cs.iter().all(|c| c.start <= c.end && c.end <= len) && cs.windows(2).all(|w| w[0].end <= w[1].start)
}

#[test]
fn comma_corrections_apply_in_one_pass() {
    let src = b"foo(a , b\t, c)\nbar(x , y)\n";
    let map = CodeMap::all_code(src.len());
    let (diags, corrections) = SpaceBeforeComma.check_source(src, &map, &[], true);
    assert_eq!(diags.len(), 3);
    assert!(in_order(src.len(), &corrections));
    assert_eq!(apply_corrections(src, &corrections), b"foo(a, b, c)\nbar(x, y)\n".to_vec());
}

#[test]
fn semicolon_corrections_apply_in_one_pass() {
    let src = b"a = 1 ; b = 2  ;c\n";
    let map = CodeMap::all_code(src.len());
    let (diags, corrections) = SpaceBeforeSemicolon.check_source(src, &map, true);
    assert_eq!(diags.len(), 2);
    assert!(in_order(src.len(), &corrections));
    assert_eq!(apply_corrections(src, &corrections), b"a = 1; b = 2;c\n".to_vec());
}

#[test]
fn autocorrect_only_sets_the_flag() {
    let src = b"def f(a=1)\nend\n";
    let (fixed, fixes) = SpaceAroundEqualsInParameterDefault.check_node(src, 7, 8, b"space", true);
    let (plain, none) = SpaceAroundEqualsInParameterDefault.check_node(src, 7, 8, b"space", false);
    assert_eq!(fixed.len(), 1);
    assert_eq!(plain.len(), 1);
    assert_eq!((fixed[0].location.line, fixed[0].location.column), (plain[0].location.line, plain[0].location.column));
    assert_eq!(fixed[0].message, plain[0].message);
    assert!(fixed[0].corrected && !plain[0].corrected);
    assert!(none.is_empty());
    assert_eq!(apply_corrections(src, &fixes), b"def f(a = 1)\nend\n".to_vec());
}

#[test]
fn first_magic_comment_kept_repeat_reported() {
    let src = b"# frozen_string_literal: true\n# encoding: utf-8\n# frozen_string_literal: false\nx = 1\n";
    let (diags, _) = DuplicateMagicComment.check_lines(src, false);
    assert_eq!(diags.len(), 1);
    assert_eq!(diags[0].location.line, 3);
}

#[test]
fn repeated_exception_text_reported_at_its_start() {
    let src = b"begin\nrescue Foo, Bar\nrescue Foo\nend\n";
    let diags = DuplicateRescueException.check_node(src, &vec![(13, 16), (18, 21), (29, 32)]);
    assert_eq!(diags.len(), 1);
    assert_eq!((diags[0].location.line, diags[0].location.column), (3, 7));
    assert!(DuplicateRescueException.check_node(src, &vec![(13, 16), (18, 21)]).is_empty());
}

#[test]
fn remove_const_then_write_not_reported() {
    let src = b"FOO = 1\nremove_const :FOO\nFOO = 2\n";
    let write = |start| ConstantEvent::Write { name: b"FOO".to_vec(), start };
    let events = vec![write(0), ConstantEvent::RemoveConst { name: b"FOO".to_vec() }, write(26)];
    assert!(ConstantReassignment.check_source(src, &events).is_empty());
    let conditional = vec![ConstantEvent::EnterConditional, write(0), write(26), ConstantEvent::LeaveConditional];
    assert!(ConstantReassignment.check_source(src, &conditional).is_empty());
    assert_eq!(ConstantReassignment.check_source(src, &vec![write(0), write(26)]).len(), 1);
}
