use nitrocop::code_map::CodeMap;
use nitrocop::cop::layout::space_before_brackets::{BracketNode, SpaceBeforeBrackets};
use nitrocop::cop::layout::space_before_comma::SpaceBeforeComma;
use nitrocop::cop::layout::space_before_semicolon::SpaceBeforeSemicolon;
use nitrocop::cop::layout::space_inside_array_literal_brackets::{
    ArrayBrackets, SpaceInsideArrayLiteralBrackets,
};
use nitrocop::cop::layout::space_inside_range_literal::{RangeNode, SpaceInsideRangeLiteral};
use nitrocop::diagnostic::{apply_corrections, Diagnostic};

fn text(d: &Diagnostic) -> String {
    String::from_utf8(d.message.clone()).unwrap()
}

fn bracket_diags(source: &[u8], nodes: &[BracketNode]) -> Vec<Diagnostic> {
    let mut diags = Vec::new();
    for node in nodes {
        SpaceBeforeBrackets.check_node(source, node, &mut diags);
    }
    diags
}

fn index_call(receiver_end: Option<usize>, opening_start: Option<usize>) -> BracketNode {
    BracketNode::Call {
        name: b"[]".to_vec(),
        has_call_operator: false,
        receiver_end,
        opening_start,
    }
}

#[test]
fn index_operator_write_offense() {
    let source = b"value = nil\nvalue [0] += 1\n";
    let nodes = vec![
        BracketNode::Other,
        BracketNode::IndexWrite { receiver_end: Some(17), opening_start: 18 },
    ];
    let diagnostics = bracket_diags(source, &nodes);
    assert_eq!(diagnostics.len(), 1, "Expected one offense: {diagnostics:?}");
}

#[test]
fn continued_bracket_chain_offense() {
    let source = b"foo[1] \\\n  [0]\n";
    let nodes = vec![
        index_call(Some(6), Some(11)),
        index_call(Some(3), Some(3)),
        BracketNode::Call {
            name: b"foo".to_vec(),
            has_call_operator: false,
            receiver_end: None,
            opening_start: None,
        },
    ];
    let diagnostics = bracket_diags(source, &nodes);
    assert_eq!(
        diagnostics.len(),
        1,
        "Expected one offense for continued bracket access: {diagnostics:?}"
    );
}

#[test]
fn continued_array_argument_no_offense() {
    let source = b"foo \\\n  [0]\n";
    let nodes = vec![BracketNode::Call {
        name: b"foo".to_vec(),
        has_call_operator: false,
        receiver_end: None,
        opening_start: None,
    }];
    let diagnostics = bracket_diags(source, &nodes);
    assert!(
        diagnostics.is_empty(),
        "Expected no offenses for continued array argument: {diagnostics:?}"
    );
}

#[test]
fn bracket_gap_reported_at_receiver_end() {
    let source = b"a [1]\n";
    let diags = bracket_diags(source, &[index_call(Some(1), Some(2))]);
    assert_eq!(diags.len(), 1);
    assert_eq!(diags[0].location.line, 1);
    assert_eq!(diags[0].location.column, 1);
    assert_eq!(text(&diags[0]), "Remove the space before the opening brackets.");
}

#[test]
fn bracket_call_with_dot_is_ignored() {
    let source = b"a.[] (1)\n";
    let node = BracketNode::Call {
        name: b"[]".to_vec(),
        has_call_operator: true,
        receiver_end: Some(1),
        opening_start: Some(5),
    };
    assert!(bracket_diags(source, &[node]).is_empty());
}

#[test]
fn scanned_bracket_write_offense() {
    let source = b"a [1] += 2\n";
    let node = BracketNode::CallWrite {
        read_name: b"[]".to_vec(),
        has_call_operator: false,
        receiver_end: Some(1),
        node_end: 10,
    };
    let diags = bracket_diags(source, &[node]);
    assert_eq!(diags.len(), 1);
    assert_eq!(diags[0].location.column, 1);
}

fn comma_autocorrect(input: &[u8]) -> (Vec<Diagnostic>, Vec<u8>) {
    let map = CodeMap::all_code(input.len());
    let (diags, corrections) = SpaceBeforeComma.check_source(input, &map, &[], true);
    assert_eq!(diags.len(), corrections.len());
    (diags, apply_corrections(input, &corrections))
}

#[test]
fn space_before_comma_autocorrect_remove_space() {
    let input = b"foo(1 , 2)\n";
    let (diags, corrected) = comma_autocorrect(input);
    assert!(!diags.is_empty());
    assert_eq!(corrected, b"foo(1, 2)\n");
}

#[test]
fn autocorrect_multiple() {
    let input = b"foo(1 , 2 , 3)\n";
    let map = CodeMap::all_code(input.len());
    let (_diags, corrections) = SpaceBeforeComma.check_source(input, &map, &[], true);
    assert_eq!(corrections.len(), 2);
    let corrected = apply_corrections(input, &corrections);
    assert_eq!(corrected, b"foo(1, 2, 3)\n");
}

fn find(haystack: &[u8], needle: &[u8]) -> usize {
    haystack.windows(needle.len()).position(|w| w == needle).unwrap()
}

#[test]
fn detects_tarantula_heredoc_interpolation_context() {
    let source = br#"def handle(response, regexp, result)
  if n = (response.body =~ /#{regexp}/)
    error_result = result.dup
    error_result.success = false
    error_result.description = "XSS error found, match was: #{h($1)}"
    error_result.data = <<-STR
  ########################################################################
  # Text around unescaped string: #{$1}
  ########################################################################
    #{response.body[[0, n - 200].max , 400]}





  ########################################################################
  # Attack information:
STR
  end
end
"#;
    // The heredoc body is literal text except for its interpolations.
    let body_start = find(source, b"<<-STR\n") + 7;
    let body_end = find(source, b"\nSTR\n") + 1;
    let mut map = CodeMap::all_code(source.len());
    map.heredoc_interpolation = vec![false; source.len()];
    map.non_code_in_heredoc_interpolation = vec![false; source.len()];
    for i in body_start..body_end {
        map.code[i] = false;
    }
    let string_start = find(source, b"\"XSS");
    let string_end = find(source, b"}\"\n") + 2;
    for i in string_start..string_end {
        map.code[i] = false;
    }
    let interp = find(source, b"#{response.body");
    let interp_end = find(source, b"400]}") + 5;
    for i in interp..interp_end {
        map.heredoc_interpolation[i] = true;
    }
    let marker = b".max , 400]}";
    let comma = find(source, marker) + 5;
    assert!(map.is_heredoc_interpolation(comma), "comma should be inside heredoc interpolation");
    assert!(
        !map.is_non_code_in_heredoc_interpolation(comma),
        "comma should not be nested non-code inside heredoc interpolation"
    );
    let (diags, _) = SpaceBeforeComma.check_source(source, &map, &[], false);
    assert_eq!(diags.len(), 1, "{diags:?}");
    assert_eq!(diags[0].location.line, 10);
}

#[test]
fn comma_leading_a_continued_line_is_accepted() {
    let input = b"foo(1\n    , 2)\n";
    let map = CodeMap::all_code(input.len());
    let (diags, _) = SpaceBeforeComma.check_source(input, &map, &[], false);
    assert!(diags.is_empty());
}

#[test]
fn escaped_space_character_literal_before_comma() {
    let input = b"[?\\ , 1]\n";
    let map = CodeMap::all_code(input.len());
    let (diags, _) = SpaceBeforeComma.check_source(input, &map, &[], false);
    assert!(diags.is_empty());
}

#[test]
fn space_after_multiline_string_closing_is_accepted() {
    let input = b"f(\"a\nb\nc\" , 1)\n";
    let map = CodeMap::all_code(input.len());
    let closing = find(input, b"\" ,");
    let (diags, _) = SpaceBeforeComma.check_source(input, &map, &[closing], false);
    assert!(diags.is_empty());
    let (diags, _) = SpaceBeforeComma.check_source(input, &map, &[], false);
    assert_eq!(diags.len(), 1);
    assert_eq!(text(&diags[0]), "Space found before comma.");
    assert_eq!(diags[0].location.line, 3);
    assert_eq!(diags[0].location.column, 2);
}

#[test]
fn space_before_semicolon_autocorrect_remove_space() {
    let input = b"x = 1 ;\n";
    let map = CodeMap::all_code(input.len());
    let (diags, corrections) = SpaceBeforeSemicolon.check_source(input, &map, true);
    assert!(!corrections.is_empty());
    assert_eq!(text(&diags[0]), "Space found before semicolon.");
    let corrected = apply_corrections(input, &corrections);
    assert_eq!(corrected, b"x = 1;\n");
}

#[test]
fn semicolon_after_block_brace_is_accepted() {
    let input = b"a { ; b }\n";
    let map = CodeMap::all_code(input.len());
    let (diags, _) = SpaceBeforeSemicolon.check_source(input, &map, false);
    assert!(diags.is_empty());
}

#[test]
fn semicolon_outside_code_is_ignored() {
    let input = b"# a ;\n";
    let mut map = CodeMap::all_code(input.len());
    for flag in map.code.iter_mut() {
        *flag = false;
    }
    let (diags, _) = SpaceBeforeSemicolon.check_source(input, &map, false);
    assert!(diags.is_empty());
}

#[test]
fn ignores_pure_multiline_gap_after_operator() {
    let source = b"x = 0..\n  10\n";
    let node = RangeNode {
        start: 4,
        left_end: Some(5),
        right_start: Some(10),
        op_start: 5,
        op_end: 7,
    };
    let (diags, _) = SpaceInsideRangeLiteral.check_node(source, &node, false);
    assert!(diags.is_empty());
}

#[test]
fn range_with_spaces_is_corrected() {
    let source = b"x = 1 .. 2\n";
    let node = RangeNode {
        start: 4,
        left_end: Some(5),
        right_start: Some(9),
        op_start: 6,
        op_end: 8,
    };
    let (diags, corrections) = SpaceInsideRangeLiteral.check_node(source, &node, true);
    assert_eq!(diags.len(), 1);
    assert_eq!(text(&diags[0]), "Space inside range literal.");
    assert_eq!(diags[0].location.column, 4);
    assert_eq!(corrections.len(), 2);
    assert_eq!(apply_corrections(source, &corrections), b"x = 1..2\n");
}

fn brackets(
    source: &[u8],
    open: usize,
    close: usize,
    pattern: bool,
    empty_style: &[u8],
    enforced: &[u8],
) -> Vec<Diagnostic> {
    let b = ArrayBrackets {
        open_start: open,
        open_end: open + 1,
        close_start: close,
        close_end: close + 1,
        is_array_pattern: pattern,
    };
    let _ = source;
    SpaceInsideArrayLiteralBrackets
        .check_brackets(source, &b, empty_style, enforced, false)
        .0
}

#[test]
fn empty_brackets_space_style_flags_no_space() {
    let src = b"x = []\n";
    let diags = brackets(src, 4, 5, false, b"space", b"no_space");
    assert_eq!(diags.len(), 1, "space style should flag empty [] without space");
}

#[test]
fn empty_brackets_no_space_is_default() {
    let src = b"x = []\n";
    let diags = brackets(src, 4, 5, false, b"no_space", b"no_space");
    assert!(diags.is_empty(), "Default no_space should accept []");
}

#[test]
fn array_pattern_no_space_flags_spaces() {
    let src = b"case foo\nin [ bar, baz ]\nend\n";
    let diags = brackets(src, 12, 23, true, b"no_space", b"no_space");
    assert_eq!(diags.len(), 2, "array pattern with spaces should be flagged");
}

#[test]
fn array_pattern_no_space_accepts_no_spaces() {
    let src = b"case foo\nin [bar, baz]\nend\n";
    let diags = brackets(src, 12, 21, true, b"no_space", b"no_space");
    assert!(diags.is_empty(), "array pattern without spaces should not be flagged");
}

#[test]
fn empty_brackets_multiple_spaces_no_space_style() {
    let src = b"x = [     ]\n";
    let diags = brackets(src, 4, 10, false, b"no_space", b"no_space");
    assert_eq!(diags.len(), 1, "empty brackets with multiple spaces should be flagged");
    assert!(text(&diags[0]).contains("empty"));
}

#[test]
fn multiline_empty_brackets_no_space_style() {
    let src = b"x = [\n]\n";
    let diags = brackets(src, 4, 6, false, b"no_space", b"no_space");
    assert_eq!(diags.len(), 1, "multiline empty brackets should be flagged");
    assert!(text(&diags[0]).contains("empty"));
}

#[test]
fn array_space_style_inserts_spaces() {
    let src = b"x = [1, 2]\n";
    let b = ArrayBrackets { open_start: 4, open_end: 5, close_start: 9, close_end: 10, is_array_pattern: false };
    let (diags, corrections) =
        SpaceInsideArrayLiteralBrackets.check_brackets(src, &b, b"no_space", b"space", true);
    assert_eq!(diags.len(), 2);
    assert_eq!(text(&diags[0]), "Space inside array literal brackets missing.");
    assert_eq!(apply_corrections(src, &corrections), b"x = [ 1, 2 ]\n");
}

#[test]
fn array_no_space_style_removes_spaces() {
    let src = b"x = [  1, 2 ]\n";
    let b = ArrayBrackets { open_start: 4, open_end: 5, close_start: 12, close_end: 13, is_array_pattern: false };
    let (diags, corrections) =
        SpaceInsideArrayLiteralBrackets.check_brackets(src, &b, b"no_space", b"no_space", true);
    assert_eq!(diags.len(), 2);
    assert_eq!(diags[1].location.column, 12);
    assert_eq!(apply_corrections(src, &corrections), b"x = [1, 2]\n");
}

#[test]
fn array_pattern_with_trailing_comma_is_skipped() {
    let src = b"in [ a, ]\n";
    let diags = brackets(src, 3, 8, true, b"no_space", b"no_space");
    assert!(diags.is_empty());
}
