use nitrocop::code_map::CodeMap;
use nitrocop::cop::lint::cop_directive_syntax::{
    find_directive_start, is_malformed_cop_list, CopDirectiveSyntax,
};

const MISSING_MODE: &str = "Malformed directive comment detected. The mode name is missing.";
const UNKNOWN_MODE: &str = "Malformed directive comment detected. The mode name must be one of `enable`, `disable`, `todo`, `push`, or `pop`.";
const MISSING_COP: &str = "Malformed directive comment detected. The cop name is missing.";
const MALFORMED: &str = "Malformed directive comment detected. Cop names must be separated by commas. Comment in the directive must start with `--`.";

fn offenses(src: &[u8]) -> Vec<(usize, usize, String)> {
    let map = CodeMap::all_code(src.len());
    CopDirectiveSyntax
        .check_source(src, &map)
        .iter()
        .map(|d| (d.location.line, d.location.column, String::from_utf8(d.message.clone()).unwrap()))
        .collect()
}

#[test]
fn well_formed_directives_accepted() {
    assert!(offenses(b"# rubocop:disable Style/Foo\n").is_empty());
    assert!(offenses(b"# rubocop:disable Style/Foo, Lint/Bar -- some reason\n").is_empty());
    assert!(offenses(b"x = 1 # rubocop:todo Layout/LineLength\n").is_empty());
    assert!(offenses(b"# rubocop: disable Style/Foo\n").is_empty());
    assert!(offenses(b"# rubocop : enable all\n").is_empty());
    assert!(offenses(b"#rubocop:enable Style/Foo,Lint/Bar\n").is_empty());
}

#[test]
fn push_and_pop_need_no_cop_names() {
    assert!(offenses(b"# rubocop:push\n# rubocop:pop\n").is_empty());
}

#[test]
fn missing_mode_reported() {
    assert_eq!(offenses(b"# rubocop:\n"), vec![(1, 0, MISSING_MODE.to_string())]);
    assert_eq!(offenses(b"a\nb # rubocop:   \n"), vec![(2, 2, MISSING_MODE.to_string())]);
}

#[test]
fn unknown_mode_reported() {
    assert_eq!(offenses(b"x = 1 # rubocop:disabled Style/Foo\n"), vec![(1, 6, UNKNOWN_MODE.to_string())]);
    assert_eq!(offenses(b"# rubocop:Disable Style/Foo\n"), vec![(1, 0, UNKNOWN_MODE.to_string())]);
}

#[test]
fn missing_cop_name_reported() {
    assert_eq!(offenses(b"# rubocop:disable\n"), vec![(1, 0, MISSING_COP.to_string())]);
    assert_eq!(offenses(b"# rubocop:enable   \n"), vec![(1, 0, MISSING_COP.to_string())]);
}

#[test]
fn cop_names_without_commas_reported() {
    assert_eq!(offenses(b"# rubocop:disable Style/Foo Lint/Bar\n"), vec![(1, 0, MALFORMED.to_string())]);
    assert_eq!(offenses(b"# rubocop:disable Style/Foo because reasons\n"), vec![(1, 0, MALFORMED.to_string())]);
    assert_eq!(
        offenses(b"# rubocop:disable Style/Foo # rubocop:enable Lint/Bar\n"),
        vec![(1, 0, MALFORMED.to_string())]
    );
}

#[test]
fn commented_out_and_quoted_directives_ignored() {
    assert!(offenses(b"# # rubocop:disable\n").is_empty());
    assert!(offenses(b"# note: see # rubocop:disable\n").is_empty());
    assert!(offenses(b"puts \"# rubocop:disable\"\n").is_empty());
}

#[test]
fn directive_inside_string_ignored() {
    let src = b"x = <<~T\n# rubocop:disable\nT\n";
    let mut map = CodeMap::all_code(src.len());
    map.string = vec![false; src.len()];
    for i in 9..27 {
        map.string[i] = true;
    }
    assert!(CopDirectiveSyntax.check_source(src, &map).is_empty());
    assert_eq!(offenses(src), vec![(2, 0, MISSING_COP.to_string())]);
}

#[test]
fn non_utf8_line_skipped() {
    assert!(offenses(b"# rubocop:\xff\n").is_empty());
    assert_eq!(offenses(b"# rubocop:\xff\n# rubocop:\n"), vec![(2, 0, MISSING_MODE.to_string())]);
}

#[test]
fn directive_start_found() {
    assert_eq!(find_directive_start(b"foo # rubocop:disable A"), Some(4));
    assert_eq!(find_directive_start(b"foo # bar"), None);
    assert_eq!(find_directive_start(b"# # rubocop:disable A"), None);
    assert_eq!(find_directive_start(b"x = '# rubocop:disable A' # rubocop:enable B"), None);
    assert_eq!(find_directive_start(b"no hash here"), None);
}

#[test]
fn cop_list_shapes() {
    assert!(!is_malformed_cop_list(b"Style/Foo, Lint/Bar"));
    assert!(!is_malformed_cop_list(b"-- just a comment"));
    assert!(!is_malformed_cop_list(b"Style/Foo -- a long comment here"));
    assert!(is_malformed_cop_list(b"Style/Foo Lint/Bar -- comment"));
    assert!(is_malformed_cop_list(b"Style/Foo,#rubocop:enable"));
    assert!(!is_malformed_cop_list(b"Style/Foo,\xc2\xa0Lint/Bar"));
    assert!(is_malformed_cop_list(b"Style/Foo\xc2\xa0Lint/Bar"));
}
