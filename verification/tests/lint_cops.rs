use nitrocop::cop::lint::duplicate_branch::{is_word_byte, normalize_source, normalize_whitespace, strip_comments};
use nitrocop::cop::lint::ambiguous_operator_precedence::{
    precedence_level, AmbiguousOperatorPrecedence, PrecedenceChild, PrecedenceNode,
};
use nitrocop::cop::lint::boolean_symbol::{boolean_symbol_name, BooleanSymbol, BooleanSymbolNode};
use nitrocop::cop::lint::debugger::{prev_non_space, DebugNode, Debugger};
use nitrocop::cop::lint::duplicate_hash_key::is_literal_binary_operator;
use nitrocop::diagnostic::Diagnostic;

fn msg(d: &Diagnostic) -> String {
    String::from_utf8(d.message.clone()).unwrap()
}

fn call(name: &str, receiver: Option<DebugNode>, has_arguments: bool, start: usize, end: usize) -> DebugNode {
    DebugNode::Call {
        name: name.as_bytes().to_vec(),
        receiver: receiver.map(Box::new),
        has_arguments,
        has_block: false,
        sole_string_argument: None,
        start,
        end,
    }
}

fn require(arg: &str, end: usize) -> DebugNode {
    DebugNode::Call {
        name: b"require".to_vec(),
        receiver: None,
        has_arguments: true,
        has_block: false,
        sole_string_argument: Some(arg.as_bytes().to_vec()),
        start: 0,
        end,
    }
}

fn debug_diags(source: &[u8], nodes: &[DebugNode], methods: Option<&Vec<Vec<u8>>>, requires: Option<&Vec<Vec<u8>>>) -> Vec<Diagnostic> {
    nodes.iter().filter_map(|n| Debugger.check_node(source, n, methods, requires)).collect()
}

#[test]
fn save_page_detected() {
    let source = b"save_page(path)\n";
    let nodes = vec![call("save_page", None, true, 0, 15), call("path", None, false, 10, 14)];
    let diags = debug_diags(source, &nodes, None, None);
    assert_eq!(diags.len(), 1, "save_page should be detected: {:?}", diags);
    assert!(msg(&diags[0]).contains("save_page"));
    assert_eq!(msg(&diags[0]), "Remove debugger entry point `save_page(path)`.");
}

#[test]
fn binding_console_detected() {
    let source = b"binding.console\n";
    let nodes = vec![
        call("console", Some(call("binding", None, false, 0, 7)), false, 0, 15),
        call("binding", None, false, 0, 7),
    ];
    let diags = debug_diags(source, &nodes, None, None);
    assert_eq!(diags.len(), 1, "binding.console should be detected: {:?}", diags);
}

#[test]
fn page_save_page_detected() {
    let source = b"page.save_page\n";
    let nodes = vec![
        call("save_page", Some(call("page", None, false, 0, 4)), false, 0, 14),
        call("page", None, false, 0, 4),
    ];
    let diags = debug_diags(source, &nodes, None, None);
    assert_eq!(diags.len(), 1, "page.save_page should be detected: {:?}", diags);
}

#[test]
fn config_debugger_requires() {
    let source = b"require 'debug/start'\n";
    let requires = vec![b"debug/start".to_vec(), b"pry".to_vec()];
    let diags = debug_diags(source, &[require("debug/start", 21)], None, Some(&requires));
    assert_eq!(diags.len(), 1);
    assert!(msg(&diags[0]).contains("debugger entry point"));
}

#[test]
fn config_debugger_requires_no_match() {
    let source = b"require 'json'\n";
    let requires = vec![b"pry".to_vec()];
    let diags = debug_diags(source, &[require("json", 14)], None, Some(&requires));
    assert!(diags.is_empty());
}

#[test]
fn debugger_methods_hash_config_with_known_leaf() {
    let source = b"pry\n";
    let methods = vec![b"pry".to_vec()];
    let diags = debug_diags(source, &[call("pry", None, false, 0, 3)], Some(&methods), None);
    assert_eq!(diags.len(), 1, "custom debugger method with known leaf should be detected");
}

#[test]
fn default_debugger_requires_are_flagged() {
    let source = b"require 'debug/open'\n";
    let diags = debug_diags(source, &[require("debug/open", 20)], None, None);
    assert_eq!(diags.len(), 1);
    assert_eq!(msg(&diags[0]), "Remove debugger entry point `require 'debug/open'`.");
}

#[test]
fn bare_debugger_used_as_value_is_skipped() {
    let source = b"foo(pry)\n";
    let diags = debug_diags(source, &[call("pry", None, false, 4, 7)], None, None);
    assert!(diags.is_empty());
    let source = b"pry.foo\n";
    let diags = debug_diags(source, &[call("pry", None, false, 0, 3)], None, None);
    assert!(diags.is_empty());
}

#[test]
fn kernel_binding_chain_is_matched() {
    let source = b"Kernel.binding.pry\n";
    let kernel = DebugNode::ConstantRead { name: b"Kernel".to_vec() };
    let binding = call("binding", Some(kernel), false, 0, 14);
    let diags = debug_diags(source, &[call("pry", Some(binding), false, 0, 18)], None, None);
    assert_eq!(diags.len(), 1);
    let other = call("pry", Some(call("foo", None, false, 0, 3)), false, 0, 7);
    assert!(debug_diags(b"foo.pry\n", &[other], None, None).is_empty());
}

#[test]
fn prev_non_space_skips_blanks() {
    assert_eq!(prev_non_space(b"(  x", 3), Some(b'('));
    assert_eq!(prev_non_space(b"  x", 2), None);
}

#[test]
fn boolean_symbols() {
    assert_eq!(boolean_symbol_name(b"true"), Some("true"));
    assert_eq!(boolean_symbol_name(b"false"), Some("false"));
    assert_eq!(boolean_symbol_name(b"nil"), None);
    let source = b"x = :true\n";
    let node = BooleanSymbolNode::Symbol { opening: Some(b":".to_vec()), unescaped: b"true".to_vec(), start: 4 };
    let d = BooleanSymbol.check_node(source, &node).unwrap();
    assert_eq!(msg(&d), "Symbol with a boolean name - you probably meant to use `true`.");
    assert_eq!(d.location.column, 4);
    let in_percent_array = BooleanSymbolNode::Symbol { opening: None, unescaped: b"true".to_vec(), start: 4 };
    assert!(BooleanSymbol.check_node(source, &in_percent_array).is_none());
    let label = BooleanSymbolNode::Assoc { has_operator: false, symbol_key: Some((b"false".to_vec(), 2)) };
    assert!(BooleanSymbol.check_node(b"{ false: 1 }\n", &label).is_some());
    let rocket = BooleanSymbolNode::Assoc { has_operator: true, symbol_key: Some((b"false".to_vec(), 2)) };
    assert!(BooleanSymbol.check_node(b"{ :false => 1 }\n", &rocket).is_none());
}

#[test]
fn operator_precedence_levels() {
    assert_eq!(precedence_level(b"**"), Some(0));
    assert_eq!(precedence_level(b"%"), Some(1));
    assert_eq!(precedence_level(b"-"), Some(2));
    assert_eq!(precedence_level(b">>"), Some(3));
    assert_eq!(precedence_level(b"&"), Some(4));
    assert_eq!(precedence_level(b"^"), Some(5));
    assert_eq!(precedence_level(b"=="), None);
}

#[test]
fn ambiguous_precedence_is_reported() {
    let source = b"a + b * c\n";
    let node = PrecedenceNode::Call {
        name: b"+".to_vec(),
        arguments: vec![PrecedenceChild::Call { name: b"*".to_vec(), has_call_operator: false, start: 4 }],
        receiver: Some(PrecedenceChild::Other),
    };
    let mut diags = Vec::new();
    AmbiguousOperatorPrecedence.check_node(source, &node, &mut diags);
    assert_eq!(diags.len(), 1);
    assert_eq!(diags[0].location.column, 4);
    let source = b"a || b && c\n";
    let node = PrecedenceNode::Or {
        symbolic: true,
        left: PrecedenceChild::Other,
        right: PrecedenceChild::And { start: 5 },
    };
    let mut diags = Vec::new();
    AmbiguousOperatorPrecedence.check_node(source, &node, &mut diags);
    assert_eq!(diags.len(), 1);
    let node = PrecedenceNode::And {
        symbolic: false,
        left: PrecedenceChild::Call { name: b"+".to_vec(), has_call_operator: false, start: 0 },
        right: PrecedenceChild::Other,
    };
    let mut diags = Vec::new();
    AmbiguousOperatorPrecedence.check_node(b"a + b and c\n", &node, &mut diags);
    assert!(diags.is_empty());
}

#[test]
fn literal_binary_operators() {
    assert!(is_literal_binary_operator(b"<=>"));
    assert!(is_literal_binary_operator(b"*"));
    assert!(!is_literal_binary_operator(b"+"));
}

#[test]
fn whitespace_normalization() {
    assert_eq!(normalize_whitespace(b"foo(x)  .bar  {|y| baz(y)}"), b"foo(x).bar{|y|baz(y)}");
    assert_eq!(
        normalize_whitespace(b"each_child(node).all? {|child| check(child)}"),
        normalize_whitespace(b"each_child(node).all? {|child| check(child) }"),
    );
    assert_eq!(normalize_whitespace(b"report(e)\n  false"), normalize_whitespace(b"report(e)\n\n  false"));
    assert_eq!(normalize_whitespace(b"return []"), b"return[]");
    assert_eq!(normalize_whitespace(b"foo bar baz"), b"foo bar baz");
}

#[test]
fn comments_are_stripped_before_comparison() {
    assert_eq!(strip_comments(b"a # note\nb"), b"a \nb");
    assert_eq!(normalize_source(b"foo # x\n  bar"), b"foo bar");
    assert!(is_word_byte(b'_'));
    assert!(!is_word_byte(b'?'));
}

#[test]
fn normalizing_twice_changes_nothing() {
    assert_eq!(normalize_source(b"foo(x) # a\n  bar"), b"foo(x)bar");
    assert_eq!(normalize_source(b"foo(x)\nbar # b"), b"foo(x)bar");
    for s in [&b"a  b\t# c\n d"[..], b"x = \"#y\"\n  z", b"  \n\t", b"if a\n  b\nend"] {
        let once = normalize_source(s);
        assert_eq!(normalize_source(&once), once);
    }
}
