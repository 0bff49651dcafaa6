use nitrocop::cop::layout::space_around_block_parameters::{BlockInfo, SpaceAroundBlockParameters};
use nitrocop::cop::layout::space_inside_block_braces::{BraceBlock, BraceStyle, SpaceInsideBlockBraces};
use nitrocop::diagnostic::{apply_corrections, Diagnostic};

fn default_style() -> BraceStyle {
    BraceStyle { enforced: b"space".to_vec(), empty_style: b"no_space".to_vec(), space_before_params: true }
}

fn braces(src: &[u8], open: usize, close: usize, body_empty: bool, params_start: Option<usize>, style: &BraceStyle) -> Vec<Diagnostic> {
    let block = BraceBlock { open_start: open, open_end: open + 1, close_start: close, body_empty, params_start };
    SpaceInsideBlockBraces.check_node(src, &block, style, false).0
}

fn msg(d: &Diagnostic) -> String {
    String::from_utf8(d.message.clone()).unwrap()
}

#[test]
fn empty_braces_space_style_flags_no_space() {
    let src = b"items.each {}\n";
    let style = BraceStyle { empty_style: b"space".to_vec(), ..default_style() };
    let diags = braces(src, 11, 12, true, None, &style);
    assert_eq!(diags.len(), 1, "space style for empty braces should flag braces");
    assert!(msg(&diags[0]).contains("missing"));
}

#[test]
fn space_before_block_params_false_flags_space() {
    let src = b"items.each { |x| puts x }\n";
    let style = BraceStyle { space_before_params: false, ..default_style() };
    let diags = braces(src, 11, 24, false, Some(13), &style);
    assert!(
        diags.iter().any(|d| msg(d).contains("{ and |")),
        "SpaceBeforeBlockParameters:false should flag space between {{ and |"
    );
}

#[test]
fn multiline_block_with_params_missing_space() {
    let src = b"items.each {|x|\n  puts x\n}\n";
    let diags = braces(src, 11, 25, false, Some(12), &default_style());
    assert_eq!(diags.len(), 1, "should flag missing space between {{ and |");
    assert!(msg(&diags[0]).contains("{ and |"));
}

#[test]
fn multiline_block_with_params_has_space() {
    let src = b"items.each { |x|\n  puts x\n}\n";
    let diags = braces(src, 11, 26, false, Some(13), &default_style());
    assert!(diags.is_empty(), "should not flag multiline block with space before params");
}

#[test]
fn multiline_empty_block_no_offense() {
    let src = b"items.each {\n}\n";
    let diags = braces(src, 11, 13, true, None, &default_style());
    assert!(diags.is_empty(), "should not flag multiline empty blocks");
}

#[test]
fn multiline_empty_block_with_params_no_offense() {
    let src = b"proc {|x|\n}\n";
    let diags = braces(src, 5, 10, true, Some(6), &default_style());
    assert!(diags.is_empty(), "should not flag multiline empty blocks with parameters");
}

#[test]
fn empty_lambda_with_params_no_offense() {
    let src = b"handler = ->(x) {}\n";
    let diags = braces(src, 16, 17, true, Some(12), &default_style());
    assert!(diags.is_empty(), "should not flag empty lambdas with params before braces");
}

#[test]
fn empty_braces_multiple_spaces() {
    let src = b"items.each {   }\n";
    let diags = braces(src, 11, 15, true, None, &default_style());
    assert_eq!(diags.len(), 1, "should flag empty braces with multiple spaces");
    assert!(msg(&diags[0]).contains("empty braces detected"));
}

#[test]
fn single_line_block_without_spaces_is_corrected() {
    let src = b"a.map {x}\n";
    let block = BraceBlock { open_start: 6, open_end: 7, close_start: 8, body_empty: false, params_start: None };
    let (diags, corrections) = SpaceInsideBlockBraces.check_node(src, &block, &default_style(), true);
    assert_eq!(diags.len(), 2);
    assert_eq!(msg(&diags[0]), "Space missing inside {.");
    assert_eq!(msg(&diags[1]), "Space missing inside }.");
    assert_eq!(apply_corrections(src, &corrections), b"a.map { x }\n");
}

#[test]
fn do_end_blocks_are_ignored() {
    let src = b"a.map do x end\n";
    let block = BraceBlock { open_start: 6, open_end: 8, close_start: 11, body_empty: false, params_start: None };
    assert!(SpaceInsideBlockBraces.check_node(src, &block, &default_style(), false).0.is_empty());
}

fn block_params(src: &[u8], info: &BlockInfo, style: &[u8]) -> (Vec<Diagnostic>, Vec<u8>) {
    let (diags, mut corrections) = SpaceAroundBlockParameters.check_node(src, info, style, true);
    corrections.sort_by_key(|c| c.start);
    (diags, apply_corrections(src, &corrections))
}

fn pipe_info(inner_start: usize, inner_end: usize, body_start: Option<usize>, params: Vec<(usize, usize)>) -> BlockInfo {
    BlockInfo {
        inner_start,
        inner_end,
        closing_end_offset: inner_end + 1,
        closing_start_offset: inner_end,
        body_start,
        is_pipe_delimited: true,
        param_locations: params,
        first_local_start: None,
        last_local_end: None,
    }
}

#[test]
fn block_parameters_no_space_style() {
    let src = b"a { | x,   y | x }\n";
    let info = pipe_info(5, 13, Some(15), vec![(6, 7), (11, 12)]);
    let (diags, corrected) = block_params(src, &info, b"no_space");
    let msgs: Vec<String> = diags.iter().map(msg).collect();
    assert_eq!(
        msgs,
        vec![
            "Space before first block parameter detected.".to_string(),
            "Space after last block parameter detected.".to_string(),
            "Extra space before block parameter detected.".to_string(),
        ]
    );
    assert_eq!(corrected, b"a { |x, y| x }\n");
}

#[test]
fn block_parameters_space_style() {
    let src = b"a { |x|x }\n";
    let info = pipe_info(5, 6, Some(7), vec![(5, 6)]);
    let (diags, corrected) = block_params(src, &info, b"space");
    assert_eq!(diags.len(), 3);
    assert_eq!(msg(&diags[2]), "Space after closing `|` missing.");
    assert_eq!(corrected, b"a { | x | x }\n");
}
