use nitrocop::code_map::CodeMap;
use nitrocop::cop::layout::space_around_keyword::{
    accepted_after, accepted_before, is_accept_left_bracket, is_accept_left_paren, is_method_call,
    is_symbol_literal, is_word_before, is_word_end, preceded_by_def, SpaceAroundKeyword,
};
use nitrocop::diagnostic::{apply_corrections, Diagnostic};

fn run(input: &[u8], skip: &[usize]) -> (Vec<Diagnostic>, Vec<u8>) {
    let map = CodeMap::all_code(input.len());
    let (diags, corrections) = SpaceAroundKeyword.check_source(input, &map, skip, true);
    let corrected = apply_corrections(input, &corrections);
    (diags, corrected)
}

fn messages(diags: &[Diagnostic]) -> Vec<String> {
    diags.iter().map(|d| String::from_utf8(d.message.clone()).unwrap()).collect()
}

#[test]
fn autocorrect_insert_space() {
    let input = b"if(x)\n  y\nend\n";
    let map = CodeMap::all_code(input.len());
    let (_diags, corrections) = SpaceAroundKeyword.check_source(input, &map, &[3, 8], true);
    assert!(!corrections.is_empty());
    let corrected = apply_corrections(input, &corrections);
    assert_eq!(corrected, b"if (x)\n  y\nend\n");
}

#[test]
fn ternary_colon_super_no_space_detected() {
    let input = b"x = a==[]?self[m.to_s]:super\n";
    let (diags, _) = run(input, &[4, 10, 15, 17]);
    let super_diags: Vec<_> = messages(&diags).into_iter().filter(|m| m.contains("super")).collect();
    assert_eq!(super_diags.len(), 1, "Expected 1 super offense but got {}: {:?}", super_diags.len(), super_diags);
}

#[test]
fn keyword_messages_and_locations() {
    let (diags, corrected) = run(b"x = 1if y\n", &[]);
    assert_eq!(messages(&diags), vec!["Space before keyword `if` is missing.".to_string()]);
    assert_eq!(diags[0].location.line, 1);
    assert_eq!(diags[0].location.column, 5);
    assert_eq!(corrected, b"x = 1 if y\n");
}

#[test]
fn keyword_like_identifiers_are_not_keywords() {
    let (diags, _) = run(b"ifdef = @case + ft2in + :end + foo.end + def if(x)\n", &[]);
    assert!(diags.is_empty(), "{:?}", messages(&diags));
}

#[test]
fn skipped_positions_are_not_checked() {
    let (diags, _) = run(b"foo(if: 1)\n", &[4]);
    assert!(diags.is_empty());
    let (diags, _) = run(b"foo(if: 1)\n", &[]);
    assert_eq!(diags.len(), 1);
}

#[test]
fn end_is_only_checked_before() {
    let (diags, _) = run(b"begin; x;end.foo\n", &[]);
    assert!(diags.is_empty(), "{:?}", messages(&diags));
}

#[test]
fn keyword_helpers() {
    assert!(accepted_before(b"a(if", 2));
    assert!(!accepted_before(b"->do", 2));
    assert!(accepted_before(b"!yield", 1));
    assert!(!accepted_before(b"chop!until", 5));
    assert!(accepted_after(b'.'));
    assert!(!accepted_after(b'('));
    assert!(is_word_end(b"defined?x", b"defined?", 8));
    assert!(!is_word_end(b"ifdef", b"if", 2));
    assert!(is_word_before(b"ft2in", 3));
    assert!(!is_word_before(b"1and", 1));
    assert!(is_word_before(b"@case", 1));
    let map = CodeMap::all_code(10);
    assert!(is_method_call(b"a.\n  end", 5, &map));
    assert!(is_method_call(b"Foo::next", 5, &map));
    assert!(!is_method_call(b"a end", 2, &map));
    assert!(preceded_by_def(b"def end", 4));
    assert!(is_symbol_literal(b":end", 1));
    assert!(!is_symbol_literal(b"]:super", 2));
    assert!(!is_symbol_literal(b"A::end", 3));
    assert!(is_accept_left_paren(b"defined?"));
    assert!(!is_accept_left_paren(b"return"));
    assert!(is_accept_left_bracket(b"yield"));
    assert!(!is_accept_left_bracket(b"next"));
}
