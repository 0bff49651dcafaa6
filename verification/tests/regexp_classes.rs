use nitrocop::cop::lint::duplicate_regexp_character_class_element::{
    escape_sequence_len, find_char_class_end, is_extended_regex, regexp_content, DuplicateRegexpCharacterClassElement,
    RegexpPart,
};

fn text(s: &str, start: usize) -> RegexpPart {
    RegexpPart::Text { chars: s.chars().collect(), start }
}

fn columns(src: &[u8], parts: Vec<RegexpPart>, extended: bool) -> Vec<usize> {
    let (chars, offsets) = regexp_content(&parts);
    DuplicateRegexpCharacterClassElement
        .check_node(src, &chars, &offsets, extended)
        .iter()
        .map(|d| d.location.column)
        .collect()
}

#[test]
fn duplicate_single_characters() {
    let src = b"/[xyx]/\n";
    let (chars, offsets) = regexp_content(&vec![text("[xyx]", 1)]);
    let diags = DuplicateRegexpCharacterClassElement.check_node(src, &chars, &offsets, false);
    assert_eq!(diags.len(), 1);
    assert_eq!((diags[0].location.line, diags[0].location.column), (1, 4));
    assert_eq!(String::from_utf8(diags[0].message.clone()).unwrap(), "Duplicate element inside regexp character class");
}

#[test]
fn duplicate_ranges_and_degenerate_range() {
    assert_eq!(columns(b"/[a-za-z]/\n", vec![text("[a-za-z]", 1)], false), vec![5]);
    assert_eq!(columns(b"/[A-Aa-z]/\n", vec![text("[A-Aa-z]", 1)], false), vec![4]);
    assert_eq!(columns(b"/[a-z0-9]/\n", vec![text("[a-z0-9]", 1)], false), Vec::<usize>::new());
}

#[test]
fn posix_and_nested_classes() {
    assert_eq!(columns(b"/[[:alpha:][:alpha:]]/\n", vec![text("[[:alpha:][:alpha:]]", 1)], false), vec![11]);
    assert_eq!(columns(b"/[[a][a]]/\n", vec![text("[[a][a]]", 1)], false), vec![5]);
    assert_eq!(columns(b"/[[a-c][x-z]]/\n", vec![text("[[a-c][x-z]]", 1)], false), Vec::<usize>::new());
}

#[test]
fn escapes_intersections_and_comments() {
    assert_eq!(columns(b"/\\[xx]/\n", vec![text("\\[xx]", 1)], false), Vec::<usize>::new());
    assert_eq!(columns(b"/[\\d\\d]/\n", vec![text("[\\d\\d]", 1)], false), vec![4]);
    assert_eq!(columns(b"/[x&&x]/\n", vec![text("[x&&x]", 1)], false), Vec::<usize>::new());
    let src = b"/# [xx]\n/x\n";
    assert_eq!(columns(src, vec![text("# [xx]\n", 1)], true), Vec::<usize>::new());
    assert_eq!(columns(src, vec![text("# [xx]\n", 1)], false), vec![5]);
    assert!(is_extended_regex(b"/x"));
    assert!(!is_extended_regex(b"/i"));
}

#[test]
fn interpolation_is_skipped_inside_a_class() {
    let src = b"/[a#{b}a]/\n";
    let parts = vec![text("[a", 1), RegexpPart::Interpolation, text("a]", 7)];
    assert_eq!(columns(src, parts, false), vec![7]);
}

#[test]
fn escape_lengths_and_class_ends() {
    let c = |s: &str| s.chars().collect::<Vec<char>>();
    assert_eq!(escape_sequence_len(&c("\\x41"), 0), 4);
    assert_eq!(escape_sequence_len(&c("\\u{1F600}x"), 0), 9);
    assert_eq!(escape_sequence_len(&c("\\u00e9"), 0), 6);
    assert_eq!(escape_sequence_len(&c("\\cA"), 0), 3);
    assert_eq!(escape_sequence_len(&c("\\012"), 0), 4);
    assert_eq!(escape_sequence_len(&c("\\n"), 0), 2);
    assert_eq!(escape_sequence_len(&c("\\"), 0), 1);
    assert_eq!(find_char_class_end(&c("[]a]"), 0), Some(3));
    assert_eq!(find_char_class_end(&c("[^]]"), 0), Some(3));
    assert_eq!(find_char_class_end(&c("[a\\]b]"), 0), Some(5));
    assert_eq!(find_char_class_end(&c("[[:alpha:]]"), 0), Some(10));
    assert_eq!(find_char_class_end(&c("[ab"), 0), None);
}

#[test]
fn offsets_follow_utf8_widths() {
    let (chars, offsets) = regexp_content(&vec![text("é[xx]", 10)]);
    assert_eq!(chars.len(), 5);
    assert_eq!(offsets, vec![Some(10), Some(12), Some(13), Some(14), Some(15)]);
}

#[test]
fn control_and_meta_escapes_have_their_full_length() {
    let c = |s: &str| s.chars().collect::<Vec<char>>();
    assert_eq!(escape_sequence_len(&c("\\C-a"), 0), 4);
    assert_eq!(escape_sequence_len(&c("\\M-a]"), 0), 4);
    assert_eq!(escape_sequence_len(&c("\\M-\\C-a"), 0), 6);
    assert_eq!(escape_sequence_len(&c("\\C-"), 0), 3);
    assert_eq!(escape_sequence_len(&c("\\M-\\C-"), 0), 6);
    assert_eq!(escape_sequence_len(&c("\\Cx"), 0), 2);
}
