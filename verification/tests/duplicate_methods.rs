use nitrocop::cop::lint::duplicate_methods::{humanize_scope, DuplicateMethods, Node};
use nitrocop::diagnostic::Location;

// Builders for the syntax trees of the Ruby snippets below.

fn bx(n: Node) -> Box<Node> {
    Box::new(n)
}

fn stmts(children: Vec<Node>) -> Node {
    Node::Other { children }
}

fn cref(name: &str) -> Node {
    Node::ConstantRead { name: name.as_bytes().to_vec() }
}

fn cpath(parent: Node, name: &str) -> Node {
    Node::ConstantPath { parent: Some(bx(parent)), name: name.as_bytes().to_vec() }
}

fn class(constant: Node, body: Vec<Node>) -> Node {
    Node::Class { constant_path: bx(constant), body: Some(bx(stmts(body))) }
}

fn module(constant: Node, body: Vec<Node>) -> Node {
    Node::Module { constant_path: bx(constant), body: Some(bx(stmts(body))) }
}

fn sclass(expression: Node, body: Vec<Node>) -> Node {
    Node::SingletonClass { expression: bx(expression), body: Some(bx(stmts(body))) }
}

fn def_full(name: &str, receiver: Option<Node>, body: Option<Node>, line: usize, source: &str) -> Node {
    Node::Def {
        name: name.as_bytes().to_vec(),
        receiver: receiver.map(bx),
        body: body.map(bx),
        line,
        keyword: Location { line, column: 2 },
        source: source.as_bytes().to_vec(),
    }
}

/// `def name; ...; end` with a trivial body.
fn def(name: &str, line: usize) -> Node {
    def_full(name, None, Some(stmts(vec![stmts(vec![])])), line, "")
}

fn def_body(name: &str, line: usize, body: Node) -> Node {
    def_full(name, None, Some(body), line, "")
}

fn call(name: &str, receiver: Option<Node>, args: Option<Vec<Node>>, block: Option<Vec<Node>>, line: usize) -> Node {
    Node::Call {
        name: name.as_bytes().to_vec(),
        receiver: receiver.map(bx),
        arguments: args,
        block: block.map(|b| bx(stmts(vec![stmts(b)]))),
        line,
        location: Location { line, column: 2 },
    }
}

fn sym(s: &str) -> Node {
    Node::Symbol { unescaped: s.as_bytes().to_vec() }
}

fn string(s: &str) -> Node {
    Node::Str { unescaped: s.as_bytes().to_vec() }
}

fn kwhash(pairs: Vec<(&str, Node)>) -> Node {
    Node::KeywordHash {
        elements: pairs
            .into_iter()
            .map(|(k, v)| Node::Assoc { key: bx(sym(k)), value: bx(v) })
            .collect(),
    }
}

fn begin_rescue(body: Vec<Node>, rescue: Vec<Node>) -> Node {
    stmts(vec![stmts(body), Node::Rescue { children: vec![stmts(rescue)] }])
}

fn begin_ensure(body: Vec<Node>, ensure: Vec<Node>) -> Node {
    stmts(vec![stmts(body), Node::Ensure { children: vec![stmts(ensure)] }])
}

fn local_write(value: Node) -> Node {
    stmts(vec![value])
}

fn const_write(name: &str, value: Node) -> Node {
    Node::ConstantWrite { name: name.as_bytes().to_vec(), value: bx(value) }
}

fn count(program: Vec<Node>) -> usize {
    DuplicateMethods.check_source(&stmts(program), b"test.rb", false).len()
}

fn count_with_active_support(program: Vec<Node>) -> usize {
    DuplicateMethods.check_source(&stmts(program), b"test.rb", true).len()
}

#[test]
fn test_rescue_ensure_global_scope() {
    // class Foo\n  def bar; 1; end\n\n  def setup\n    def bar; 2; end\n  rescue\n    def bar; 3; end\n  end\nend\n
    let n = count(vec![class(cref("Foo"), vec![
        def("bar", 2),
        def_body("setup", 4, begin_rescue(vec![def("bar", 5)], vec![def("bar", 7)])),
    ])]);
    assert_eq!(n, 0, "rescue should forgive first redefinition");
}

#[test]
fn test_struct_new_not_scope() {
    // A = Struct.new(:x) do\n  def foo; 1; end\n  def foo; 2; end\nend\n
    let n = count(vec![const_write("A", call("new", Some(cref("Struct")), Some(vec![sym("x")]), Some(vec![def("foo", 2), def("foo", 3)]), 1))]);
    assert_eq!(n, 0, "Struct.new blocks should be ignored (no scope)");
}

#[test]
fn test_class_eval_with_string() {
    // class Foo\n  def bar; 1; end\nend\nFoo.class_eval("def baz; end")\n
    let n = count(vec![
        class(cref("Foo"), vec![def("bar", 2)]),
        call("class_eval", Some(cref("Foo")), Some(vec![string("def baz; end")]), None, 4),
    ]);
    assert_eq!(n, 0, "class_eval with string should not create scope");
}

#[test]
fn test_module_eval_not_scope() {
    // Foo.module_eval do\n  def bar; 1; end\n  def bar; 2; end\nend\n
    let n = count(vec![call("module_eval", Some(cref("Foo")), None, Some(vec![def("bar", 2), def("bar", 3)]), 1)]);
    assert_eq!(n, 0, "module_eval blocks should be ignored (not scope-creating)");
}

#[test]
fn test_class_open_constant_path() {
    // class A::B\n  def foo; 1; end\n  def foo; 2; end\nend\n
    let n = count(vec![class(cpath(cref("A"), "B"), vec![def("foo", 2), def("foo", 3)])]);
    assert_eq!(n, 1, "class with constant path should detect duplicates");
}

#[test]
fn test_dup_inside_class_with_block() {
    // class Foo\n  included do\n    def bar; 1; end\n    def bar; 2; end\n  end\nend\n
    let n = count(vec![class(cref("Foo"), vec![call("included", None, None, Some(vec![def("bar", 3), def("bar", 4)]), 2)])]);
    assert_eq!(n, 0, "methods in DSL blocks should be ignored");
}

#[test]
fn test_sclass_inside_sclass() {
    // class Foo\n  class << self\n    def bar; 1; end\n\n    class B\n      def bar; 2; end\n    end\n  end\nend\n
    let n = count(vec![class(cref("Foo"), vec![sclass(Node::SelfNode, vec![
        def("bar", 3),
        class(cref("B"), vec![def("bar", 6)]),
    ])])]);
    assert_eq!(n, 0, "different scopes should not conflict");
}

#[test]
fn test_rescue_ensure_rubocop_behavior() {
    // module FooTest
    //   def make_save_always_fail
    //     Foo.class_eval do
    //       def failed_save
    //         raise
    //       end
    //       alias_method :original_save, :save
    //       alias_method :save, :failed_save
    //     end
    //
    //     yield
    //   ensure
    //     Foo.class_eval do
    //       alias_method :save, :original_save
    //     end
    //   end
    // end
    let first_eval = call("class_eval", Some(cref("Foo")), None, Some(vec![
        def_body("failed_save", 4, stmts(vec![call("raise", None, None, None, 5)])),
        call("alias_method", None, Some(vec![sym("original_save"), sym("save")]), None, 7),
        call("alias_method", None, Some(vec![sym("save"), sym("failed_save")]), None, 8),
    ]), 3);
    let second_eval = call("class_eval", Some(cref("Foo")), None, Some(vec![
        call("alias_method", None, Some(vec![sym("save"), sym("original_save")]), None, 14),
    ]), 13);
    let n = count(vec![module(cref("FooTest"), vec![def_body(
        "make_save_always_fail",
        2,
        begin_ensure(vec![first_eval, stmts(vec![])], vec![second_eval]),
    )])]);
    assert_eq!(n, 0, "ensure scope should forgive first redefinition");
}

#[test]
fn test_rescue_global_type_scope() {
    // class Foo\n  def bar; 1; end\n\n  def test1\n    def bar; 2; end\n  rescue\n    def bar; 3; end\n  end\n\n  def test2\n    x = 1\n  rescue\n    def bar; 4; end\n  end\nend\n
    let n = count(vec![class(cref("Foo"), vec![
        def("bar", 2),
        def_body("test1", 4, begin_rescue(vec![def("bar", 5)], vec![def("bar", 7)])),
        def_body("test2", 10, begin_rescue(vec![local_write(stmts(vec![]))], vec![def("bar", 13)])),
    ])]);
    assert_eq!(n, 0, "different enclosing methods create different keys");
}

#[test]
fn test_multiple_rescue_same_method() {
    // class Foo\n  def bar; 1; end\n\n  begin\n    x = 1\n  rescue\n    def bar; 2; end\n  end\n\n  begin\n    y = 1\n  rescue\n    def bar; 3; end\n  end\nend\n
    let n = count(vec![class(cref("Foo"), vec![
        def("bar", 2),
        begin_rescue(vec![local_write(stmts(vec![]))], vec![def("bar", 7)]),
        begin_rescue(vec![local_write(stmts(vec![]))], vec![def("bar", 13)]),
    ])]);
    assert_eq!(n, 1, "second rescue should report offense (global type scope)");
}

#[test]
fn test_constant_path_class_name() {
    // class A::B::C\n  def foo; 1; end\n  def foo; 2; end\nend\n
    let n = count(vec![class(cpath(cpath(cref("A"), "B"), "C"), vec![def("foo", 2), def("foo", 3)])]);
    assert_eq!(n, 1, "class with deep constant path should detect duplicates");
}

#[test]
fn test_local_var_struct_new_isolated() {
    // a = Struct.new(:x) do\n  def foo; 1; end\nend\nb = Struct.new(:x) do\n  def foo; 2; end\nend\n
    let n = count(vec![
        local_write(call("new", Some(cref("Struct")), Some(vec![sym("x")]), Some(vec![def("foo", 2)]), 1)),
        local_write(call("new", Some(cref("Struct")), Some(vec![sym("x")]), Some(vec![def("foo", 5)]), 4)),
    ]);
    assert_eq!(n, 0, "local var Struct.new should isolate scopes");
}

#[test]
fn test_constant_write_struct_new_separate() {
    // A = Struct.new(:x) do\n  def foo; 1; end\nend\nB = Struct.new(:y) do\n  def foo; 2; end\nend\n
    let n = count(vec![
        const_write("A", call("new", Some(cref("Struct")), Some(vec![sym("x")]), Some(vec![def("foo", 2)]), 1)),
        const_write("B", call("new", Some(cref("Struct")), Some(vec![sym("y")]), Some(vec![def("foo", 5)]), 4)),
    ]);
    assert_eq!(n, 0, "separate Struct.new constants have separate scopes");
}

#[test]
fn test_reopened_struct_new_no_scope() {
    // A = Struct.new(:x) do\n  def foo; 1; end\nend\nA = Struct.new(:y) do\n  def foo; 2; end\nend\n
    let n = count(vec![
        const_write("A", call("new", Some(cref("Struct")), Some(vec![sym("x")]), Some(vec![def("foo", 2)]), 1)),
        const_write("A", call("new", Some(cref("Struct")), Some(vec![sym("y")]), Some(vec![def("foo", 5)]), 4)),
    ]);
    assert_eq!(n, 0, "Struct.new blocks are not scope-creating");
}

#[test]
fn test_case_does_not_suppress() {
    // class Foo\n  case RUBY_VERSION\n  when '3.0'\n    def bar; 1; end\n  when '2.7'\n    def bar; 2; end\n  end\nend\n
    let case = stmts(vec![
        cref("RUBY_VERSION"),
        stmts(vec![string("3.0"), stmts(vec![def("bar", 4)])]),
        stmts(vec![string("2.7"), stmts(vec![def("bar", 6)])]),
    ]);
    let n = count(vec![class(cref("Foo"), vec![case])]);
    assert_eq!(n, 1, "case/when should NOT suppress duplicate detection");
}

#[test]
fn test_implicit_class_eval_transparent() {
    // module A\n  class_eval do\n    def foo; 1; end\n    def foo; 2; end\n  end\nend\n
    let n = count(vec![module(cref("A"), vec![call("class_eval", None, None, Some(vec![def("foo", 3), def("foo", 4)]), 2)])]);
    assert_eq!(n, 1, "implicit class_eval should use enclosing scope");
}

#[test]
fn test_def_inside_for_loop() {
    // class Foo\n  def bar; 1; end\n  for x in items\n    def bar; 2; end\n  end\nend\n
    let for_loop = stmts(vec![stmts(vec![]), call("items", None, None, None, 3), stmts(vec![def("bar", 4)])]);
    let n = count(vec![class(cref("Foo"), vec![def("bar", 2), for_loop])]);
    assert_eq!(n, 1, "for loop should not suppress duplicate detection");
}

#[test]
fn test_class_eval_constant_path() {
    // A::B.class_eval do\n  def foo; 1; end\n  def foo; 2; end\nend\n
    let n = count(vec![call("class_eval", Some(cpath(cref("A"), "B")), None, Some(vec![def("foo", 2), def("foo", 3)]), 1)]);
    assert_eq!(n, 1, "class_eval with constant path should detect duplicates");
}

#[test]
fn test_constant_write_with_non_new_method() {
    // A = SomeThing.build do\n  def foo; 1; end\n  def foo; 2; end\nend\n
    let n = count(vec![const_write("A", call("build", Some(cref("SomeThing")), None, Some(vec![def("foo", 2), def("foo", 3)]), 1))]);
    assert_eq!(n, 0, "non-new method blocks should be ignored");
}

#[test]
fn test_class_reopened_with_sclass() {
    // class A\n  class << self\n    def foo; 1; end\n  end\nend\nclass A\n  class << self\n    def foo; 2; end\n  end\nend\n
    let n = count(vec![
        class(cref("A"), vec![sclass(Node::SelfNode, vec![def("foo", 3)])]),
        class(cref("A"), vec![sclass(Node::SelfNode, vec![def("foo", 8)])]),
    ]);
    assert_eq!(n, 1, "reopened class with sclass should detect dups");
}

#[test]
fn test_mixed_def_self_and_sclass() {
    // class A\n  def self.foo; 1; end\n  class << self\n    def foo; 2; end\n  end\nend\n
    let n = count(vec![class(cref("A"), vec![
        def_full("foo", Some(Node::SelfNode), None, 2, "def self.foo; 1; end"),
        sclass(Node::SelfNode, vec![def("foo", 4)]),
    ])]);
    assert_eq!(n, 1, "def self.foo and sclass def foo should be same scope");
}

#[test]
fn test_def_const_outer_scope() {
    // module M\n  class A\n    def M.foo; 1; end\n    def M.foo; 2; end\n  end\nend\n
    let n = count(vec![module(cref("M"), vec![class(cref("A"), vec![
        def_full("foo", Some(cref("M")), None, 3, "def M.foo; 1; end"),
        def_full("foo", Some(cref("M")), None, 4, "def M.foo; 2; end"),
    ])])]);
    assert_eq!(n, 1, "def M.foo should resolve M to outer scope");
}

#[test]
fn test_def_const_and_self_same_class() {
    // class A\n  def A.foo; 1; end\n  def self.foo; 2; end\nend\n
    let n = count(vec![class(cref("A"), vec![
        def_full("foo", Some(cref("A")), None, 2, "def A.foo; 1; end"),
        def_full("foo", Some(Node::SelfNode), None, 3, "def self.foo; 2; end"),
    ])]);
    assert_eq!(n, 1, "def A.foo and def self.foo should be same");
}

#[test]
fn test_alias_method_string_args_not_tracked() {
    // class Foo\n  alias_method :process, :other\n  alias_method "process", "other"\nend\n
    let n = count(vec![class(cref("Foo"), vec![
        call("alias_method", None, Some(vec![sym("process"), sym("other")]), None, 2),
        call("alias_method", None, Some(vec![string("process"), string("other")]), None, 3),
    ])]);
    assert_eq!(n, 0, "alias_method with string args should not be tracked");
}

fn delegate(names: &[&str], options: Vec<(&str, Node)>, line: usize) -> Node {
    let mut args: Vec<Node> = names.iter().map(|n| sym(n)).collect();
    args.push(kwhash(options));
    call("delegate", None, Some(args), None, line)
}

#[test]
fn test_delegate_with_active_support() {
    // class Foo\n  delegate :process, to: :target\n  def process; end\nend\n
    let n = count_with_active_support(vec![class(cref("Foo"), vec![
        delegate(&["process"], vec![("to", sym("target"))], 2),
        def_full("process", None, None, 3, "def process; end"),
    ])]);
    assert_eq!(n, 1, "delegate + def should be offense with ActiveSupport");
}

#[test]
fn test_delegate_without_active_support() {
    // class Foo\n  delegate :process, to: :target\n  def process; end\nend\n
    let n = count(vec![class(cref("Foo"), vec![
        delegate(&["process"], vec![("to", sym("target"))], 2),
        def_full("process", None, None, 3, "def process; end"),
    ])]);
    assert_eq!(n, 0, "delegate should not be tracked without ActiveSupport");
}

#[test]
fn test_delegate_duplicate_in_same_call() {
    // class Foo\n  delegate :bar, :bar, to: :target\nend\n
    let n = count_with_active_support(vec![class(cref("Foo"), vec![delegate(&["bar", "bar"], vec![("to", sym("target"))], 2)])]);
    assert_eq!(n, 1, "duplicate symbol in same delegate call");
}

#[test]
fn test_delegate_multiple_calls_same_method() {
    // class Foo\n  delegate :bar, to: :target1\n  delegate :bar, to: :target2\nend\n
    let n = count_with_active_support(vec![class(cref("Foo"), vec![
        delegate(&["bar"], vec![("to", sym("target1"))], 2),
        delegate(&["bar"], vec![("to", sym("target2"))], 3),
    ])]);
    assert_eq!(n, 1, "same method in two delegate calls");
}

#[test]
fn test_delegate_with_prefix_true() {
    // class Foo\n  delegate :name, to: :target, prefix: true\n  def target_name; end\nend\n
    let n = count_with_active_support(vec![class(cref("Foo"), vec![
        delegate(&["name"], vec![("to", sym("target")), ("prefix", Node::True)], 2),
        def_full("target_name", None, None, 3, "def target_name; end"),
    ])]);
    assert_eq!(n, 1, "delegate with prefix: true should prepend target_");
}

#[test]
fn test_delegate_with_prefix_symbol() {
    // class Foo\n  delegate :name, to: :target, prefix: :custom\n  def custom_name; end\nend\n
    let n = count_with_active_support(vec![class(cref("Foo"), vec![
        delegate(&["name"], vec![("to", sym("target")), ("prefix", sym("custom"))], 2),
        def_full("custom_name", None, None, 3, "def custom_name; end"),
    ])]);
    assert_eq!(n, 1, "delegate with prefix: :custom should prepend custom_");
}

#[test]
fn test_delegate_inside_condition() {
    // class Foo\n  def process; end\n  if cond\n    delegate :process, to: :bar\n  end\nend\n
    let n = count_with_active_support(vec![class(cref("Foo"), vec![
        def_full("process", None, None, 2, "def process; end"),
        Node::If { children: vec![call("cond", None, None, None, 3), stmts(vec![delegate(&["process"], vec![("to", sym("bar"))], 4)])] },
    ])]);
    assert_eq!(n, 0, "delegate inside condition should be ignored");
}

#[test]
fn test_delegate_no_to_key() {
    // class Foo\n  delegate :process\n  def process; end\nend\n
    let n = count_with_active_support(vec![class(cref("Foo"), vec![
        call("delegate", None, Some(vec![sym("process")]), None, 2),
        def_full("process", None, None, 3, "def process; end"),
    ])]);
    assert_eq!(n, 0, "delegate without :to should be ignored");
}

#[test]
fn test_sclass_constant_path_detects_dups() {
    // class << Multiton::ClassMethods\n  def extended; 1; end\n  def extended; 2; end\nend\n
    let n = count(vec![sclass(cpath(cref("Multiton"), "ClassMethods"), vec![def("extended", 2), def("extended", 3)])]);
    assert_eq!(n, 1, "class << A::B should detect duplicate defs");
}

#[test]
fn test_sclass_constant_path_reopened_detects_dups() {
    // class << Multiton::ClassMethods\n  def extended; 1; end\nend\nclass << Multiton::ClassMethods\n  def extended; 2; end\nend\n
    let n = count(vec![
        sclass(cpath(cref("Multiton"), "ClassMethods"), vec![def("extended", 2)]),
        sclass(cpath(cref("Multiton"), "ClassMethods"), vec![def("extended", 5)]),
    ]);
    assert_eq!(n, 1, "reopened class << A::B should detect dups");
}

#[test]
fn test_sclass_const_nested_class_no_fp() {
    // class << Multiton\n  class Nested\n    def init; end\n  end\nend\nmodule Multiton\n  class << self\n    class Nested\n      def init; end\n    end\n  end\nend\n
    let n = count(vec![
        sclass(cref("Multiton"), vec![class(cref("Nested"), vec![def_full("init", None, None, 3, "def init; end")])]),
        module(cref("Multiton"), vec![sclass(Node::SelfNode, vec![class(cref("Nested"), vec![def_full("init", None, None, 9, "def init; end")])])]),
    ]);
    assert_eq!(n, 0, "nested class in sclass const vs sclass self should not conflict");
}

#[test]
fn test_sclass_const_cross_ref_with_def_self() {
    // module Container\n  def self.helper; 1; end\nend\nclass << Container\n  def helper; 2; end\nend\n
    let n = count(vec![
        module(cref("Container"), vec![def_full("helper", Some(Node::SelfNode), None, 2, "def self.helper; 1; end")]),
        sclass(cref("Container"), vec![def("helper", 5)]),
    ]);
    assert_eq!(n, 1, "class << Const should cross-reference with def self.method");
}

#[test]
fn test_def_const_method_inside_block_with_scope() {
    // module M\n  def self.foo; 1; end\n  dsl_block do\n    def M.foo; 2; end\n  end\nend\n
    let n = count(vec![module(cref("M"), vec![
        def_full("foo", Some(Node::SelfNode), None, 2, "def self.foo; 1; end"),
        call("dsl_block", None, None, Some(vec![def_full("foo", Some(cref("M")), None, 4, "def M.foo; 2; end")]), 3),
    ])]);
    assert_eq!(n, 1, "def ConstName.method inside block within same module should detect dup");
}

#[test]
fn test_def_const_method_inside_nested_blocks() {
    // class Base\n  class << self\n    def all; []; end\n    namespace do\n      task do\n        def Base.all; 1; end\n      end\n    end\n  end\nend\n
    let n = count(vec![class(cref("Base"), vec![sclass(Node::SelfNode, vec![
        def("all", 3),
        call("namespace", None, None, Some(vec![
            call("task", None, None, Some(vec![def_full("all", Some(cref("Base")), None, 6, "def Base.all; 1; end")]), 5),
        ]), 4),
    ])])]);
    assert_eq!(n, 1, "def ConstName.method inside nested blocks should detect dup");
}

#[test]
fn test_def_self_method_inside_block_ignored() {
    // class Foo\n  def self.bar; 1; end\nend\ndsl_block do\n  def self.bar; 2; end\nend\n
    let n = count(vec![
        class(cref("Foo"), vec![def_full("bar", Some(Node::SelfNode), None, 2, "def self.bar; 1; end")]),
        call("dsl_block", None, None, Some(vec![def_full("bar", Some(Node::SelfNode), None, 5, "def self.bar; 2; end")]), 4),
    ]);
    assert_eq!(n, 0, "def self.method inside block should be ignored");
}

#[test]
fn test_delegate_then_def_with_active_support() {
    // class Foo\n  delegate :run, to: :target\n  def run; end\nend\n
    let n = count_with_active_support(vec![class(cref("Foo"), vec![
        delegate(&["run"], vec![("to", sym("target"))], 2),
        def_full("run", None, None, 3, "def run; end"),
    ])]);
    assert_eq!(n, 1, "delegate then def should be offense");
}

#[test]
fn test_delegate_then_delegate_same_method() {
    // class Foo\n  delegate :status, to: :adapter\n  delegate :status, to: :model\nend\n
    let n = count_with_active_support(vec![class(cref("Foo"), vec![
        delegate(&["status"], vec![("to", sym("adapter"))], 2),
        delegate(&["status"], vec![("to", sym("model"))], 3),
    ])]);
    assert_eq!(n, 1, "two delegates defining same method should be offense");
}

#[test]
fn test_attr_accessor_then_delegate_same_method() {
    // class Foo\n  attr_accessor :changes, :errors\n  delegate :changes, :errors, to: :@value\nend\n
    let n = count_with_active_support(vec![class(cref("Foo"), vec![
        call("attr_accessor", None, Some(vec![sym("changes"), sym("errors")]), None, 2),
        delegate(&["changes", "errors"], vec![("to", sym("@value"))], 3),
    ])]);
    assert_eq!(n, 2, "attr_accessor then delegate same methods should be offense");
}

#[test]
fn test_delegate_inside_sclass_self() {
    // class Foo\n  class << self\n    delegate :all, :find, to: :resource\n    def all; []; end\n  end\nend\n
    let n = count_with_active_support(vec![class(cref("Foo"), vec![sclass(Node::SelfNode, vec![
        delegate(&["all", "find"], vec![("to", sym("resource"))], 3),
        def("all", 4),
    ])])]);
    assert_eq!(n, 1, "delegate then def inside class << self should detect dup");
}

#[test]
fn duplicate_message_names_both_lines() {
    // class Foo\n  def bar; end\n  def bar; end\nend\n
    let diags = DuplicateMethods.check_source(
        &stmts(vec![class(cref("Foo"), vec![def("bar", 2), def("bar", 3)])]),
        b"app/foo.rb",
        false,
    );
    assert_eq!(diags.len(), 1);
    assert_eq!(diags[0].location, Location { line: 3, column: 2 });
    assert_eq!(
        String::from_utf8(diags[0].message.clone()).unwrap(),
        "Method `Foo#bar` is defined at both app/foo.rb:2 and app/foo.rb:3."
    );
}

#[test]
fn sclass_const_message_is_humanized() {
    // class << Container\n  def helper; end\n  def helper; end\nend\n
    let diags = DuplicateMethods.check_source(
        &stmts(vec![sclass(cref("Container"), vec![def("helper", 2), def("helper", 3)])]),
        b"t.rb",
        false,
    );
    assert_eq!(diags.len(), 1);
    assert_eq!(
        String::from_utf8(diags[0].message.clone()).unwrap(),
        "Method `Container.helper` is defined at both t.rb:2 and t.rb:3."
    );
}

#[test]
fn humanized_scopes_keep_nested_classes_apart() {
    let h = |s: &str| String::from_utf8(humanize_scope(s.as_bytes())).unwrap();
    assert_eq!(h("#<Class:Foo>"), "Foo.");
    assert_eq!(h("Foo::#<Class:Foo>"), "Foo.");
    assert_eq!(h("#<Class:Foo>::Bar"), "Foo.Bar");
    assert_eq!(h("X::#<Class:X>::Nested"), "X.::Nested");
    assert_ne!(h("X::#<Class:X>::Nested"), h("#<Class:X>::Nested"));
    assert_eq!(h("A::B"), "A::B");
}
