use nitrocop::cop::lint::circular_argument_reference::CircularArgumentReference;
use nitrocop::cop::lint::duplicate_require::{DuplicateRequire, RequireCall, RequireReceiver};
use nitrocop::cop::lint::else_layout::{ElseClause, ElseLayout};
use nitrocop::diagnostic::Diagnostic;

fn msg(d: &Diagnostic) -> String {
    String::from_utf8(d.message.clone()).unwrap()
}

#[test]
fn circular_argument_reported() {
    let src = b"def foo(bar = bar)\nend\n";
    let d = CircularArgumentReference.check_node(src, b"bar", &Some(b"bar".to_vec()), 14).unwrap();
    assert_eq!((d.location.line, d.location.column), (1, 14));
    assert_eq!(msg(&d), "Circular argument reference - `bar`.");
    assert!(CircularArgumentReference.check_node(src, b"bar", &Some(b"baz".to_vec()), 14).is_none());
    assert!(CircularArgumentReference.check_node(src, b"bar", &None, 14).is_none());
}

#[test]
fn else_with_code_on_its_line_reported() {
    let src = b"if a\n  foo\nelse bar\nend\n";
    let e = ElseClause { keyword_start: 11, statement_count: 1, first_statement: Some(16) };
    let d = ElseLayout.check_node(src, 0, 23, false, Some(e)).unwrap();
    assert_eq!((d.location.line, d.location.column), (3, 5));
    assert_eq!(msg(&d), "Odd `else` layout detected. Did you mean to use `elsif`?");
    assert!(ElseLayout.check_node(src, 0, 23, true, Some(e)).is_none());
    let e2 = ElseClause { keyword_start: 11, statement_count: 2, first_statement: Some(16) };
    assert!(ElseLayout.check_node(src, 0, 23, true, Some(e2)).is_some());
}

#[test]
fn else_layout_accepted_forms() {
    let src = b"if a then b else c end\n";
    let e = ElseClause { keyword_start: 12, statement_count: 1, first_statement: Some(17) };
    assert!(ElseLayout.check_node(src, 0, 22, true, Some(e)).is_none());
    let src = b"if a\n  foo\nelse\n  bar\nend\n";
    let e = ElseClause { keyword_start: 11, statement_count: 1, first_statement: Some(18) };
    assert!(ElseLayout.check_node(src, 0, 25, false, Some(e)).is_none());
    assert!(ElseLayout.check_node(src, 0, 25, false, None).is_none());
}

fn req(name: &[u8], receiver: RequireReceiver, arg: Option<&[u8]>, parent: usize, start: usize) -> RequireCall {
    RequireCall { name: name.to_vec(), receiver, argument: arg.map(|a| a.to_vec()), parent, start }
}

#[test]
fn duplicate_requires_by_parent() {
    let src = b"require 'a'\nrequire 'a'\nKernel.require 'a'\nrequire_relative 'a'\n";
    let calls = vec![
        req(b"require", RequireReceiver::NoReceiver, Some(b"a"), 0, 0),
        req(b"require", RequireReceiver::NoReceiver, Some(b"a"), 0, 12),
        req(b"require", RequireReceiver::Kernel, Some(b"a"), 0, 24),
        req(b"require_relative", RequireReceiver::NoReceiver, Some(b"a"), 0, 43),
    ];
    let diags = DuplicateRequire.check_source(src, &calls);
    assert_eq!(diags.len(), 2);
    assert_eq!(diags[0].location.line, 2);
    assert_eq!(diags[1].location.line, 3);
    assert_eq!(msg(&diags[0]), "Duplicate `require` detected.");
}

#[test]
fn requires_under_different_parents_or_receivers() {
    let src = b"require 'a'\nx = require 'a'\nFoo.require 'a'\n";
    let calls = vec![
        req(b"require", RequireReceiver::NoReceiver, Some(b"a"), 0, 0),
        req(b"require", RequireReceiver::NoReceiver, Some(b"a"), 12, 16),
        req(b"require", RequireReceiver::Other, Some(b"a"), 0, 28),
        req(b"require", RequireReceiver::NoReceiver, None, 0, 28),
    ];
    assert!(DuplicateRequire.check_source(src, &calls).is_empty());
}
