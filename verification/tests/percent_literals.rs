use nitrocop::cop::layout::space_inside_percent_literals::{
    PercentLiteral, SpaceInsideArrayPercentLiteral, SpaceInsidePercentLiteralDelimiters,
};
use nitrocop::diagnostic::{apply_corrections, Diagnostic};

fn literal(source: &[u8], opening: &[u8], closing: u8, is_command: bool) -> PercentLiteral {
    let open_start = source.windows(opening.len()).position(|w| w == opening).unwrap();
    let close_start = source.iter().rposition(|&b| b == closing).unwrap();
    PercentLiteral { open_start, open_end: open_start + opening.len(), close_start, is_command }
}

fn array_diags(source: &[u8]) -> Vec<Diagnostic> {
    let lit = literal(source, b"%w(", b')', false);
    SpaceInsideArrayPercentLiteral.check_node(source, &lit, false).0
}

#[test]
fn multiline_large_percent_w() {
    let source = b"%w(
  aget alength all-ns alter and append-child apply array-map
  contains? count create-ns create-struct cycle dec  deref
  str string?  struct struct-map subs subvec symbol symbol?
)
";
    let diags = array_diags(source);
    assert_eq!(diags.len(), 2, "Expected 2 offenses, got: {diags:?}");
}

#[test]
fn multiline_with_leading_spaces() {
    let source = b"        words = %w(
          aget alength all-ns alter and append-child apply array-map
          bit-xor boolean branch?  butlast byte cast char children
          contains? count create-ns create-struct cycle dec  deref
        )
";
    let diags = array_diags(source);
    assert_eq!(diags.len(), 2, "Expected 2 offenses for branch?__butlast and dec__deref, got: {diags:?}");
}

#[test]
fn array_percent_literal_is_corrected() {
    let source = b"%i(a   b\\  c)\n";
    let lit = literal(source, b"%i(", b')', false);
    let (diags, corrections) = SpaceInsideArrayPercentLiteral.check_node(source, &lit, true);
    assert_eq!(diags.len(), 1);
    assert_eq!(diags[0].location.column, 4);
    assert_eq!(
        String::from_utf8(diags[0].message.clone()).unwrap(),
        "Use only a single space inside array percent literal."
    );
    assert_eq!(apply_corrections(source, &corrections), b"%i(a b\\  c)\n");
}

#[test]
fn percent_delimiters_spaces_are_removed() {
    let source = b"%w( a b  )\n";
    let lit = literal(source, b"%w(", b')', false);
    let (diags, corrections) = SpaceInsidePercentLiteralDelimiters.check_node(source, &lit, true);
    assert_eq!(diags.len(), 2);
    assert_eq!(diags[1].location.column, 8);
    assert_eq!(apply_corrections(source, &corrections), b"%w(a b)\n");
}

#[test]
fn percent_delimiters_blank_body_and_multiline() {
    let source = b"%x(\n)\n";
    let lit = literal(source, b"%x(", b')', true);
    let (diags, corrections) = SpaceInsidePercentLiteralDelimiters.check_node(source, &lit, true);
    assert_eq!(diags.len(), 1);
    assert_eq!(apply_corrections(source, &corrections), b"%x()\n");
    let source = b"%w(\n  a\n)\n";
    let lit = literal(source, b"%w(", b')', false);
    assert!(SpaceInsidePercentLiteralDelimiters.check_node(source, &lit, false).0.is_empty());
    let source = b"`  ls  `\n";
    let lit = PercentLiteral { open_start: 0, open_end: 1, close_start: 7, is_command: true };
    assert!(SpaceInsidePercentLiteralDelimiters.check_node(source, &lit, false).0.is_empty());
}
