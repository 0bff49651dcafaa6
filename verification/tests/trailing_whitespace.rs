use nitrocop::cop::layout::trailing_whitespace::TrailingWhitespace;
use nitrocop::diagnostic::{apply_corrections, Diagnostic};

fn check(source: &[u8], allow_in_heredoc: bool) -> Vec<Diagnostic> {
    TrailingWhitespace.check_lines(source, allow_in_heredoc, false).0
}

fn autocorrect(source: &[u8]) -> (Vec<Diagnostic>, Vec<u8>) {
    let (diags, corrections) = TrailingWhitespace.check_lines(source, false, true);
    let corrected = apply_corrections(source, &corrections);
    (diags, corrected)
}

#[test]
fn detects_non_breaking_space_at_line_end() {
    let diags = check(b"nbsp = :a\xc2\xa0\n", false);
    assert_eq!(diags.len(), 1);
    assert_eq!(diags[0].location.line, 1);
    assert_eq!(diags[0].location.column, 9);
}

#[test]
fn no_offense_after_end_marker() {
    let diags = check(b"x = 1\n__END__\ndata with trailing spaces   \nmore data   \n", false);
    assert!(diags.is_empty(), "Should not flag trailing whitespace after __END__");
}

#[test]
fn all_whitespace_line() {
    let diags = check(b"x = 1\n   \ny = 2\n", false);
    assert_eq!(diags.len(), 1);
    assert_eq!(diags[0].location.line, 2);
    assert_eq!(diags[0].location.column, 0);
}

#[test]
fn trailing_tab() {
    let diags = check(b"x = 1\t\n", false);
    assert_eq!(diags.len(), 1);
    assert_eq!(diags[0].location.line, 1);
    assert_eq!(diags[0].location.column, 5);
}

#[test]
fn no_trailing_newline() {
    let diags = check(b"x = 1  ", false);
    assert_eq!(diags.len(), 1);
    assert_eq!(diags[0].location.line, 1);
    assert_eq!(diags[0].location.column, 5);
}

#[test]
fn allow_in_heredoc_skips_heredoc_whitespace() {
    let diags = check(b"x = <<~TEXT\n  hello  \n  world  \nTEXT\n", true);
    assert!(diags.is_empty(), "AllowInHeredoc should skip trailing whitespace inside heredocs");
}

#[test]
fn default_flags_heredoc_whitespace() {
    let diags = check(b"x = <<~TEXT\n  hello  \nTEXT\n", false);
    assert_eq!(diags.len(), 1, "Default should flag trailing whitespace inside heredocs");
}

#[test]
fn autocorrect_trailing_spaces() {
    let (diags, corrected) = autocorrect(b"x = 1   \ny = 2\n");
    assert_eq!(diags.len(), 1);
    assert!(diags[0].corrected);
    assert_eq!(corrected, b"x = 1\ny = 2\n");
}

#[test]
fn autocorrect_all_whitespace_line() {
    let (diags, corrected) = autocorrect(b"x = 1\n   \ny = 2\n");
    assert_eq!(diags.len(), 1);
    assert!(diags[0].corrected);
    assert_eq!(corrected, b"x = 1\n\ny = 2\n");
}

#[test]
fn autocorrect_multiple_lines() {
    let (diags, corrected) = autocorrect(b"x = 1  \ny = 2  \nz = 3\n");
    assert_eq!(diags.len(), 2);
    assert!(diags.iter().all(|d| d.corrected));
    assert_eq!(corrected, b"x = 1\ny = 2\nz = 3\n");
}

#[test]
fn autocorrect_no_trailing_newline() {
    let (diags, corrected) = autocorrect(b"x = 1  ");
    assert_eq!(diags.len(), 1);
    assert!(diags[0].corrected);
    assert_eq!(corrected, b"x = 1");
}

#[test]
fn no_offense_after_end_marker_crlf() {
    let diags = check(b"x = 1\r\n__END__\r\ndata with trailing spaces   \r\nmore data   \r\n", false);
    assert!(
        diags.is_empty(),
        "Should not flag trailing whitespace after __END__ in CRLF files, got {:?}",
        diags.iter().map(|d| d.location.line).collect::<Vec<_>>()
    );
}

#[test]
fn shift_operator_not_heredoc() {
    let diags = check(b"array << \"item\"\nnext_line   \n", true);
    assert_eq!(diags.len(), 1, "Should flag trailing whitespace on next_line even after << operator");
    assert_eq!(diags[0].location.line, 2);
}

#[test]
fn heredoc_containing_end_marker() {
    let diags = check(b"x = <<~HEREDOC\n__END__\nHEREDOC\ny = 1   \n", false);
    assert_eq!(diags.len(), 1, "Should flag trailing whitespace after heredoc containing __END__");
    assert_eq!(diags[0].location.line, 4);
}

#[test]
fn shift_operator_no_space_not_heredoc() {
    let diags = check(b"items <<value\n# comment with trailing spaces   \ny = 2\n", true);
    assert_eq!(diags.len(), 1, "Should flag trailing whitespace on comment line after << shift operator");
    assert_eq!(diags[0].location.line, 2);
}

#[test]
fn multiple_heredocs_on_one_line() {
    let diags = check(b"method(<<~A, <<~B)\ncontent_a   \nA\ncontent_b   \nB\ny = 1\n", true);
    assert!(
        diags.is_empty(),
        "AllowInHeredoc should skip trailing whitespace in both heredocs, got {} diag(s) at lines {:?}",
        diags.len(),
        diags.iter().map(|d| d.location.line).collect::<Vec<_>>()
    );
}

#[test]
fn bit_shift_not_heredoc() {
    let diags = check(b"flags = 1<<SHIFT_AMOUNT\nnext_line   \n", true);
    assert_eq!(diags.len(), 1, "Should flag trailing whitespace after bit shift operator");
    assert_eq!(diags[0].location.line, 2);
}

#[test]
fn leading_end_marker_does_not_stop_scanning() {
    let diags = check(b"__END__\nx = 1   \n", false);
    assert_eq!(diags.len(), 1);
    assert_eq!(diags[0].location.line, 2);
}

#[test]
fn blank_line_before_end_marker_does_not_start_data_section() {
    let diags = check(b"\n__END__\nx = 1   \n", false);
    assert_eq!(diags.len(), 1);
    assert_eq!(diags[0].location.line, 3);
}

#[test]
fn comment_before_end_marker_still_starts_data_section() {
    let diags = check(b"# comment\n__END__\nx = 1   \n", false);
    assert!(diags.is_empty(), "Comment before __END__ should still start the data section");
}

#[test]
fn method_receiver_heredoc_keeps_inner_end_marker_from_stopping_scan() {
    let diags = check(b"file = StringIO.new <<-RUBY\n__END__\nRUBY\nafter = 1   \n", false);
    assert_eq!(diags.len(), 1);
    assert_eq!(diags[0].location.line, 4);
}

#[test]
fn message_and_ideographic_space() {
    let diags = check("x = 1\u{3000}\n".as_bytes(), false);
    assert_eq!(diags.len(), 1);
    assert_eq!(diags[0].location.column, 5);
    assert_eq!(diags[0].message, b"Trailing whitespace detected.".to_vec());
}

#[test]
fn heredoc_terminator_with_quotes_and_crlf() {
    let diags = check(b"x = <<~'EOS'\r\n  a  \r\nEOS\r\ny = 1 \r\n", true);
    assert_eq!(diags.len(), 1);
    assert_eq!(diags[0].location.line, 4);
    assert_eq!(diags[0].location.column, 5);
}

#[test]
fn data_section_ends_the_scan_after_any_nonblank_line() {
    assert!(check(b"# comment\n__END__\nx = 1   \n", false).is_empty());
    assert!(check(b"x = 1\r\n__END__\r\ndata   \r\n", false).is_empty());
    let before = check(b"y = 2   \n__END__\nx = 1   \n", false);
    assert_eq!(before.len(), 1);
    assert_eq!(before[0].location.line, 1);
    let blank_first = check(b"\n__END__\nx = 1   \n", false);
    assert_eq!(blank_first.len(), 1);
    assert_eq!(blank_first[0].location.line, 3);
}

#[test]
fn end_marker_inside_heredoc_is_text() {
    let diags = check(b"x = <<A\n__END__\nA\ny = 1   \n", false);
    assert_eq!(diags.len(), 1);
    assert_eq!(diags[0].location.line, 4);
}
