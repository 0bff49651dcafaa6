use nitrocop::cop::layout::space_around_equals_in_parameter_default::SpaceAroundEqualsInParameterDefault;
use nitrocop::code_map::CodeMap;
use nitrocop::cop::layout::space_around_operators::{
    bytes_to_char_col, char_col_to_bytes, is_aligned, line_has_operator_ending_at_col, OperatorSite, SpaceAroundOperators,
};
use nitrocop::diagnostic::{apply_corrections, Diagnostic};
use nitrocop::text::line_spans;

fn msg(d: &Diagnostic) -> String {
    String::from_utf8(d.message.clone()).unwrap()
}

fn run(
    src: &[u8],
    sites: Vec<OperatorSite>,
    defaults: Vec<usize>,
    ranges: Vec<(usize, usize)>,
) -> (Vec<Diagnostic>, Vec<u8>) {
    let cm = CodeMap::all_code(src.len());
    let (diags, corrections) = SpaceAroundOperators.check_source(
        src, &cm, &sites, &defaults, &ranges, true, b"no_space", b"no_space", true,
    );
    (diags, apply_corrections(src, &corrections))
}

fn site(start: usize, end: usize, call: bool) -> OperatorSite {
    OperatorSite { start, end, call }
}

#[test]
fn operators_missing_space_around_assignment() {
    let (diags, fixed) = run(b"x=1\n", vec![], vec![], vec![]);
    assert_eq!(diags.len(), 1);
    assert_eq!((diags[0].location.line, diags[0].location.column), (1, 1));
    assert_eq!(msg(&diags[0]), "Surrounding space missing for operator `=`.");
    assert_eq!(fixed, b"x = 1\n");
}

#[test]
fn operators_missing_space_around_binary_call() {
    let (diags, fixed) = run(b"a+b\n", vec![site(1, 2, true)], vec![], vec![]);
    assert_eq!(diags.len(), 1);
    assert_eq!(msg(&diags[0]), "Surrounding space missing for operator `+`.");
    assert_eq!(fixed, b"a + b\n");
}

#[test]
fn operators_exponent_and_rational_no_space() {
    let (diags, fixed) = run(b"a ** b\n", vec![site(2, 4, true)], vec![], vec![]);
    assert_eq!(diags.len(), 1);
    assert_eq!(msg(&diags[0]), "Space around operator `**` detected.");
    assert_eq!(fixed, b"a**b\n");
    let (diags, fixed) = run(b"1 / 2r\n", vec![site(2, 3, true)], vec![], vec![]);
    assert_eq!(msg(&diags[0]), "Space around operator `/` detected.");
    assert_eq!(fixed, b"1/2r\n");
    let (diags, _) = run(b"a**b\n", vec![site(1, 3, true)], vec![], vec![]);
    assert!(diags.is_empty());
}

#[test]
fn operators_extra_space_misaligned() {
    let (diags, fixed) = run(b"x  = 1\ny = 2\n", vec![], vec![], vec![]);
    assert_eq!(diags.len(), 1);
    assert_eq!((diags[0].location.line, diags[0].location.column), (1, 3));
    assert_eq!(msg(&diags[0]), "Operator `=` should be surrounded by a single space.");
    assert_eq!(fixed, b"x = 1\ny = 2\n");
}

#[test]
fn operators_extra_space_aligned_accepted() {
    let (diags, _) = run(b"x  = 1\nyy = 2\n", vec![], vec![], vec![]);
    assert!(diags.is_empty());
    let (diags, _) = run(b"a  ||= 1\nbb   = 2\n", vec![site(3, 6, false)], vec![], vec![]);
    assert!(diags.is_empty());
}

#[test]
fn operators_comparison_scan() {
    let (diags, fixed) = run(b"a==b\n", vec![], vec![], vec![]);
    assert_eq!(diags.len(), 1);
    assert_eq!(msg(&diags[0]), "Surrounding space missing for operator `==`.");
    assert_eq!(fixed, b"a == b\n");
    let (diags, _) = run(b"a===b\n", vec![], vec![], vec![]);
    assert!(diags.is_empty());
    let (diags, _) = run(b"a<=>b\n", vec![], vec![], vec![]);
    assert!(diags.is_empty());
    let (diags, _) = run(b"x.==(y)\n", vec![], vec![], vec![]);
    assert!(diags.is_empty());
}

#[test]
fn operators_method_names_and_defaults_skipped() {
    let (diags, _) = run(b"def ==(o)\nend\n", vec![], vec![], vec![(4, 6)]);
    assert!(diags.is_empty());
    let (diags, _) = run(b"def f(a=1)\nend\n", vec![], vec![7], vec![]);
    assert!(diags.is_empty());
    let (diags, _) = run(b"a+=1\n", vec![site(1, 3, false)], vec![], vec![]);
    assert_eq!(diags.len(), 1);
    assert_eq!(msg(&diags[0]), "Surrounding space missing for operator `+=`.");
}

#[test]
fn operators_string_contents_ignored() {
    let src = b"x = \"a=b\"\n";
    let mut cm = CodeMap::all_code(src.len());
    for k in 4..9 {
        cm.code[k] = false;
    }
    let (diags, _) = SpaceAroundOperators.check_source(src, &cm, &vec![], &vec![], &vec![], true, b"no_space", b"no_space", false);
    assert!(diags.is_empty());
}

#[test]
fn operators_column_helpers() {
    let line = "é=".as_bytes();
    assert_eq!(bytes_to_char_col(line, 2), 1);
    assert_eq!(char_col_to_bytes(line, 1), Some(2));
    assert_eq!(char_col_to_bytes(line, 3), None);
    assert!(line_has_operator_ending_at_col(b"a ||= b", 5));
    assert!(line_has_operator_ending_at_col(b"a << b", 4));
    assert!(!line_has_operator_ending_at_col(b"a => b", 4));
    let src = b"a  = 1\nbb = 2\n";
    let cm = CodeMap::all_code(src.len());
    let spans = line_spans(src);
    assert!(is_aligned(src, &cm, &spans, 3, b"="));
}

#[test]
fn parameter_default_space_style() {
    let src = b"def f(a=1)\nend\n";
    let (diags, corrections) = SpaceAroundEqualsInParameterDefault.check_node(src, 7, 8, b"space", true);
    assert_eq!(diags.len(), 1);
    assert_eq!((diags[0].location.line, diags[0].location.column), (1, 7));
    assert_eq!(msg(&diags[0]), "Surrounding space missing for operator `=`.");
    assert_eq!(apply_corrections(src, &corrections), b"def f(a = 1)\nend\n");
    let src = b"def f(a\t= 1)\nend\n";
    let (diags, _) = SpaceAroundEqualsInParameterDefault.check_node(src, 8, 9, b"space", true);
    assert!(diags.is_empty());
}

#[test]
fn parameter_default_no_space_style() {
    let src = b"def f(a = 1)\nend\n";
    let (diags, corrections) = SpaceAroundEqualsInParameterDefault.check_node(src, 8, 9, b"no_space", true);
    assert_eq!(diags.len(), 1);
    assert_eq!(msg(&diags[0]), "Surrounding space detected for operator `=`.");
    assert_eq!(apply_corrections(src, &corrections), b"def f(a=1)\nend\n");
    let (diags, _) = SpaceAroundEqualsInParameterDefault.check_node(b"def f(a=1)\nend\n", 7, 8, b"no_space", true);
    assert!(diags.is_empty());
}
