use nitrocop::cop::layout::space_around_keyword::{skip_offset, SkipSite};
use nitrocop::cop::layout::space_around_operators::{
    bytes_to_char_col, char_col_to_bytes, has_operator_character, is_operator_site,
};
use nitrocop::cop::layout::space_before_comma::multiline_closing;

#[test]
fn binary_calls_with_a_receiver_are_operator_sites() {
    assert!(is_operator_site(b"+", true, false, true));
    assert!(is_operator_site(b"<=>", true, false, true));
    assert!(!is_operator_site(b"+", false, false, true));
    assert!(!is_operator_site(b"+", true, true, true));
    assert!(!is_operator_site(b"+", true, false, false));
    assert!(!is_operator_site(b"foo", true, false, true));
    assert!(!is_operator_site(b"==", true, false, true));
}

#[test]
fn match_operators_need_no_arguments() {
    assert!(is_operator_site(b"=~", true, false, false));
    assert!(is_operator_site(b"!~", true, false, false));
    assert!(is_operator_site(b"===", true, false, false));
    assert!(!is_operator_site(b"===", false, false, false));
}

#[test]
fn operator_characters_in_method_names() {
    assert!(has_operator_character(b"=="));
    assert!(has_operator_character(b"name="));
    assert!(has_operator_character(b"~"));
    assert!(!has_operator_character(b"name?"));
    assert!(!has_operator_character(b""));
}

#[test]
fn skip_offsets_of_tree_sites() {
    assert_eq!(skip_offset(&SkipSite::DefinitionEnd { end_start: Some(7) }), Some(7));
    assert_eq!(skip_offset(&SkipSite::DefinitionEnd { end_start: None }), None);
    assert_eq!(skip_offset(&SkipSite::Pair { has_operator: false, symbol_key: Some((3, false)) }), Some(3));
    assert_eq!(skip_offset(&SkipSite::Pair { has_operator: true, symbol_key: Some((3, false)) }), None);
    assert_eq!(skip_offset(&SkipSite::Pair { has_operator: false, symbol_key: Some((3, true)) }), None);
    assert_eq!(skip_offset(&SkipSite::Pair { has_operator: false, symbol_key: None }), None);
    assert_eq!(skip_offset(&SkipSite::When { then_start: Some(9) }), Some(9));
    assert_eq!(skip_offset(&SkipSite::Call { message_start: Some(2) }), Some(2));
    assert_eq!(skip_offset(&SkipSite::KeywordParameter { name_start: 5 }), Some(5));
    assert_eq!(skip_offset(&SkipSite::Loop { begin_modifier: true, keyword_start: 11 }), Some(11));
    assert_eq!(skip_offset(&SkipSite::Loop { begin_modifier: false, keyword_start: 11 }), None);
    assert_eq!(skip_offset(&SkipSite::Other), None);
}

#[test]
fn closings_of_strings_over_three_lines() {
    let source = b"x = \"a\nb\nc\"\n";
    // The string runs from offset 4 to 11, its closing quote at 10.
    assert_eq!(multiline_closing(source, 4, 11, Some((4, 5)), Some((10, 11))), Some(10));
    let two = b"x = \"a\nb\"\n";
    assert_eq!(multiline_closing(two, 4, 9, Some((4, 5)), Some((8, 9))), None);
    let heredoc = b"x = <<A\na\nb\nA\n";
    assert_eq!(multiline_closing(heredoc, 4, 14, Some((4, 7)), Some((12, 14))), None);
    assert_eq!(multiline_closing(source, 4, 11, None, Some((10, 11))), None);
}

#[test]
fn char_columns_round_trip_on_multibyte_lines() {
    let line = "aé　b = 1".as_bytes();
    for b in [0usize, 1, 3, 6, 7, 8, 9, 10, 11] {
        assert_eq!(char_col_to_bytes(line, bytes_to_char_col(line, b)), Some(b));
    }
    assert_eq!(bytes_to_char_col(line, line.len()), 8);
    assert_eq!(char_col_to_bytes(line, 8), Some(line.len()));
    assert_eq!(char_col_to_bytes(line, 9), None);
}
