use nitrocop::cop::layout::space_before_block_braces::SpaceBeforeBlockBraces;
use nitrocop::cop::layout::space_in_lambda_literal::{LambdaParameters, ParameterCounts, SpaceInLambdaLiteral};
use nitrocop::diagnostic::{apply_corrections, Diagnostic};

fn msg(d: &Diagnostic) -> String {
    String::from_utf8(d.message.clone()).unwrap()
}

fn brace_offset(src: &[u8]) -> usize {
    src.iter().position(|&b| b == b'{').unwrap()
}

fn braces(src: &[u8], style: &[u8], empty_style: &[u8]) -> (Vec<Diagnostic>, Vec<u8>) {
    let open = brace_offset(src);
    let close = src.iter().rposition(|&b| b == b'}').unwrap();
    let (diags, corrections) = SpaceBeforeBlockBraces.check_node(src, open, open + 1, close, style, empty_style, true);
    (diags, apply_corrections(src, &corrections))
}

#[test]
fn no_space_style_flags_space() {
    let (diags, _) = braces(b"items.each { |x| puts x }\n", b"no_space", b"space");
    assert_eq!(diags.len(), 1, "no_space style should flag space before brace");
    assert!(msg(&diags[0]).contains("detected"));
}

#[test]
fn no_space_style_accepts_no_space() {
    let (diags, _) = braces(b"items.each{ |x| puts x }\n", b"no_space", b"space");
    assert!(diags.is_empty());
}

#[test]
fn empty_braces_no_space_style() {
    let (diags, _) = braces(b"items.each {}\n", b"space", b"no_space");
    assert_eq!(diags.len(), 1, "no_space for empty braces should flag space before brace");
}

#[test]
fn space_style_missing_and_corrected() {
    let (diags, fixed) = braces(b"items.each{ |x| x }\n", b"space", b"space");
    assert_eq!(diags.len(), 1);
    assert_eq!(msg(&diags[0]), "Space missing to the left of {.");
    assert_eq!(diags[0].location.column, 10);
    assert_eq!(fixed, b"items.each { |x| x }\n");
    let (diags, fixed) = braces(b"items.each { |x| x }\n", b"no_space", b"space");
    assert_eq!(msg(&diags[0]), "Space detected to the left of {.");
    assert_eq!(diags[0].location.column, 10);
    assert_eq!(fixed, b"items.each{ |x| x }\n");
    let (diags, _) = braces(b"items.each\t{ |x| x }\n", b"space", b"space");
    assert!(diags.is_empty());
}

fn one_required() -> LambdaParameters {
    LambdaParameters::Block {
        parameters: Some(ParameterCounts { requireds: 1, optionals: 0, rest: false, posts: 0, keywords: 0, keyword_rest: false, block: false }),
    }
}

#[test]
fn lambda_space_styles() {
    let src = b"f = -> (x) { x }\n";
    let d = SpaceInLambdaLiteral.check_node(src, one_required(), 6, 11, b"require_no_space").unwrap();
    assert_eq!((d.location.line, d.location.column), (1, 6));
    assert_eq!(msg(&d), "Do not use spaces between `->` and `(` in lambda literals.");
    assert!(SpaceInLambdaLiteral.check_node(src, one_required(), 6, 11, b"require_space").is_none());
    let src = b"f = ->(x) { x }\n";
    let d = SpaceInLambdaLiteral.check_node(src, one_required(), 6, 10, b"require_space").unwrap();
    assert_eq!(msg(&d), "Use a space between `->` and `(` in lambda literals.");
    assert!(SpaceInLambdaLiteral.check_node(src, one_required(), 6, 10, b"require_no_space").is_none());
}

#[test]
fn lambda_without_parameters_accepted() {
    let src = b"f = -> () { 1 }\n";
    let empty = LambdaParameters::Block { parameters: None };
    assert!(SpaceInLambdaLiteral.check_node(src, empty, 6, 10, b"require_no_space").is_none());
    let src = b"f = -> { 1 }\n";
    assert!(SpaceInLambdaLiteral.check_node(src, LambdaParameters::Absent, 6, 7, b"require_no_space").is_none());
    let src = b"f = -> { _1 }\n";
    assert!(SpaceInLambdaLiteral.check_node(src, LambdaParameters::Numbered, 6, 7, b"require_space").is_none());
}
