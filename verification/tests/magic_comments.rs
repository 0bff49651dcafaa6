use nitrocop::cop::lint::duplicate_magic_comment::{magic_comment_key, DuplicateMagicComment};
use nitrocop::diagnostic::apply_corrections;

#[test]
fn autocorrect_remove_duplicate() {
    let input = b"# frozen_string_literal: true\n# frozen_string_literal: true\nx = 1\n";
    let (_diags, corrections) = DuplicateMagicComment.check_lines(input, true);
    assert!(!corrections.is_empty());
    let corrected = apply_corrections(input, &corrections);
    assert_eq!(corrected, b"# frozen_string_literal: true\nx = 1\n");
}

#[test]
fn coding_and_encoding_are_the_same_key() {
    let input = b"# encoding: utf-8\n# coding: utf-8\n";
    let (diags, _) = DuplicateMagicComment.check_lines(input, false);
    assert_eq!(diags.len(), 1);
    assert_eq!(diags[0].location.line, 2);
    assert_eq!(diags[0].location.column, 0);
    assert_eq!(
        String::from_utf8(diags[0].message.clone()).unwrap(),
        "Duplicate magic comment detected."
    );
}

#[test]
fn emacs_style_key_is_read_between_markers() {
    let input = b"# -*- coding: utf-8 -*-\n# encoding: utf-8\n";
    let (diags, _) = DuplicateMagicComment.check_lines(input, false);
    assert_eq!(diags.len(), 1);
}

#[test]
fn scan_stops_at_first_code_line() {
    let input = b"# typed: true\nx = 1\n# typed: true\n";
    let (diags, _) = DuplicateMagicComment.check_lines(input, false);
    assert!(diags.is_empty());
}

#[test]
fn coding_without_space_after_colon_is_no_magic_comment() {
    let input = b"# encoding: utf-8\n#coding:utf-8\n";
    let (diags, _) = DuplicateMagicComment.check_lines(input, false);
    assert!(diags.is_empty());
}

#[test]
fn magic_comment_keys() {
    assert_eq!(magic_comment_key(b"# Frozen-String-Literal: true"), Some(Some(b"frozen_string_literal".to_vec())));
    assert_eq!(magic_comment_key(b"#!/usr/bin/env ruby"), Some(None));
    assert_eq!(magic_comment_key(b"  "), Some(None));
    assert_eq!(magic_comment_key(b"# just a note: here"), Some(None));
    assert_eq!(magic_comment_key(b"puts 1"), None);
}
