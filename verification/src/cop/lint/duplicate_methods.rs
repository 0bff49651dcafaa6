//! Lint/DuplicateMethods: a method defined twice in the same scope.
//!
//! The cop walks a Ruby syntax tree given as [`Node`] values, tracking the
//! enclosing class, module and singleton-class scopes, and reports every
//! definition (`def`, `alias`, `alias_method`, `attr_*`, `def_delegator*`,
//! and `delegate` when ActiveSupport extensions are on) whose qualified
//! name was already defined.
use vstd::prelude::*;
use vstd::string::StringSliceAdditionalSpecFns;
use crate::bytes::{
    append, bytes_eq_range, concat, decimal, find_from, find_from_exec, join_with, lemma_find_from,
    lemma_find_from_suffix, push_decimal, split_has_part, split_on, starts_with, ends_with,
};
use crate::diagnostic::{Diagnostic, Location};
use crate::text::{bytes_eq, contains_bytes, views};

verus! {

/// The part of a Ruby syntax tree that the cop reads. Children that the
/// cop only walks through are kept in `Other`, in source order.
pub enum Node {
    /// `class <constant_path> ... end`
    Class { constant_path: Box<Node>, body: Option<Box<Node>> },
    /// `module <constant_path> ... end`
    Module { constant_path: Box<Node>, body: Option<Box<Node>> },
    /// `class << <expression> ... end`
    SingletonClass { expression: Box<Node>, body: Option<Box<Node>> },
    /// `def [receiver.]name ... end`; `line` is the line where the
    /// definition starts, `keyword` where its `def` keyword is, and `source`
    /// its whole text.
    Def {
        name: Vec<u8>,
        receiver: Option<Box<Node>>,
        body: Option<Box<Node>>,
        line: usize,
        keyword: Location,
        source: Vec<u8>,
    },
    /// `alias new_name old_name`
    AliasMethod { new_name: Box<Node>, old_name: Box<Node>, line: usize, location: Location },
    /// A method call with its receiver, arguments and block.
    Call {
        name: Vec<u8>,
        receiver: Option<Box<Node>>,
        arguments: Option<Vec<Node>>,
        block: Option<Box<Node>>,
        line: usize,
        location: Location,
    },
    /// `Name = value`
    ConstantWrite { name: Vec<u8>, value: Box<Node> },
    /// `Name`
    ConstantRead { name: Vec<u8> },
    /// `parent::Name`, or `::Name` without a parent.
    ConstantPath { parent: Option<Box<Node>>, name: Vec<u8> },
    /// `self`
    SelfNode,
    /// `true`
    True,
    /// A symbol with its unescaped text.
    Symbol { unescaped: Vec<u8> },
    /// A plain string with its unescaped text.
    Str { unescaped: Vec<u8> },
    /// `key: value, ...` as the last argument of a call.
    KeywordHash { elements: Vec<Node> },
    /// `key => value` or `key: value`
    Assoc { key: Box<Node>, value: Box<Node> },
    /// `if`, with its condition and branches.
    If { children: Vec<Node> },
    /// `unless`, with its condition and branches.
    Unless { children: Vec<Node> },
    /// A `rescue` clause, with everything below it.
    Rescue { children: Vec<Node> },
    /// An `ensure` clause, with everything below it.
    Ensure { children: Vec<Node> },
    /// Any other node, with its children.
    Other { children: Vec<Node> },
}

#[derive(Clone, Copy, PartialEq, Eq, Structural)]
pub enum RescueEnsureType {
    Rescue,
    Ensure,
}

/// One enclosing scope: its name, and whether definitions in it are
/// singleton methods (inside `class << self`).
pub struct ScopeEntry {
    pub name: Vec<u8>,
    pub is_singleton: bool,
}

/// The state of the walk, as mathematical values.
#[verifier::ext_equal]
pub struct VState {
    /// Qualified method key -> line of its first definition.
    pub defs: Seq<(Seq<u8>, usize)>,
    pub scopes: Seq<(Seq<u8>, bool)>,
    pub def_stack: Seq<Seq<u8>>,
    pub in_if: bool,
    pub in_plain_block: bool,
    pub in_rescue_or_ensure: bool,
    pub rescue_forgiven: Seq<Seq<u8>>,
    pub ensure_forgiven: Seq<Seq<u8>>,
    pub types: Seq<RescueEnsureType>,
    pub active_support: bool,
    pub path: Seq<u8>,
    /// Offenses so far: location, message, and whether an edit fixes it.
    pub diags: Seq<(Location, Seq<u8>, bool)>,
}

pub const DOT: u8 = 0x2e;
pub const HASH_SIGN: u8 = 0x23;
pub const GREATER_THAN: u8 = 0x3e;
pub const COLON: u8 = 0x3a;
pub const EQUALS: u8 = 0x3d;
pub const UNDERSCORE_BYTE: u8 = 0x5f;

/// The bytes of a string literal.
pub open spec fn lit(s: &str) -> Seq<u8> {
    s.spec_bytes()
}

/// Whether a byte string equals a literal.
pub fn eq_lit(a: &[u8], s: &str) -> (r: bool)
    ensures
        r == (a@ == lit(s)),
{
    bytes_eq(a, s.as_bytes())
}

// ---------------------------------------------------------------------
// Names and keys.
// ---------------------------------------------------------------------

pub open spec fn scope_names(scopes: Seq<(Seq<u8>, bool)>) -> Seq<Seq<u8>> {
    scopes.map_values(|e: (Seq<u8>, bool)| e.0)
}

/// `Object` at the top level, else the scope names joined with `::`.
pub open spec fn spec_current_scope_name(scopes: Seq<(Seq<u8>, bool)>) -> Seq<u8> {
    if scopes.len() == 0 {
        lit("Object")
    } else {
        join_with(scope_names(scopes), lit("::"))
    }
}

/// RuboCop's rewriting of a scope name that holds `#<Class:Name>`:
/// `Name::#<Class:Name>` and `#<Class:Name>` both become `Name.`. What
/// follows the `>` is kept after the dot: as written after
/// `Name::#<Class:Name>` (so `X::#<Class:X>::Nested` is `X.::Nested`), and
/// without its leading `::` after a bare `#<Class:Name>` (so
/// `#<Class:X>::Nested` is `X.Nested`); the two stay distinct.
#[verifier::opaque]
pub open spec fn spec_humanize_scope(scope: Seq<u8>) -> Seq<u8> {
    match find_from(scope, lit("#<Class:"), 0) {
        None => scope,
        Some(class_start) => {
            let before = scope.subrange(0, class_start);
            let after_class = scope.subrange(class_start + lit("#<Class:").len(), scope.len() as int);
            match find_from(after_class, seq![GREATER_THAN], 0) {
                None => scope,
                Some(close_pos) => {
                    let class_name = after_class.subrange(0, close_pos);
                    let remainder0 = after_class.subrange(close_pos + 1, after_class.len() as int);
                    let remainder = if starts_with(remainder0, lit("::")) {
                        remainder0.subrange(2, remainder0.len() as int)
                    } else {
                        remainder0
                    };
                    if ends_with(before, lit("::")) && before.subrange(0, before.len() - 2)
                        == class_name {
                        let stripped = before.subrange(0, before.len() - 2);
                        if ends_with(stripped + seq![DOT] + remainder0, seq![DOT])
                            || remainder0.len() == 0 {
                            stripped + seq![DOT]
                        } else {
                            stripped + seq![DOT] + remainder0
                        }
                    } else if before.len() == 0 {
                        class_name + seq![DOT] + remainder
                    } else {
                        scope
                    }
                },
            }
        },
    }
}

/// `Scope#name` for an instance method, `Scope.name` for a singleton
/// method, over the humanized scope name.
#[verifier::opaque]
pub open spec fn spec_qualified_method_name(scopes: Seq<(Seq<u8>, bool)>, name: Seq<u8>, is_singleton: bool) -> Seq<u8> {
    let h = spec_humanize_scope(spec_current_scope_name(scopes));
    if ends_with(h, seq![DOT]) {
        h + name
    } else {
        h + seq![
            if is_singleton {
                DOT
            } else {
                HASH_SIGN
            },
        ] + name
    }
}

/// The key under which a definition is remembered: prefixed by the
/// enclosing method's name for a definition nested in a method.
pub open spec fn spec_method_key(def_stack: Seq<Seq<u8>>, qualified: Seq<u8>) -> Seq<u8> {
    if def_stack.len() > 0 {
        def_stack.last() + seq![DOT] + qualified
    } else {
        qualified
    }
}

pub open spec fn spec_in_singleton_scope(scopes: Seq<(Seq<u8>, bool)>) -> bool {
    scopes.len() > 0 && scopes.last().1
}

/// The innermost scope at or below index `i` that has `name` among its
/// `::`-separated parts, as the scope names up to it joined with `::`.
pub open spec fn lookup_from(scopes: Seq<(Seq<u8>, bool)>, name: Seq<u8>, i: int) -> Option<Seq<u8>>
    decreases i + 1,
{
    if i < 0 || i >= scopes.len() {
        None
    } else if split_on(scopes[i].0, lit("::")).contains(name) {
        Some(join_with(scope_names(scopes).subrange(0, i + 1), lit("::")))
    } else {
        lookup_from(scopes, name, i - 1)
    }
}

#[verifier::opaque]
pub open spec fn spec_lookup_constant(scopes: Seq<(Seq<u8>, bool)>, name: Seq<u8>) -> Option<Seq<u8>> {
    lookup_from(scopes, name, scopes.len() - 1)
}

/// The line stored for `key`, if any.
pub open spec fn assoc_get(defs: Seq<(Seq<u8>, usize)>, key: Seq<u8>) -> Option<usize>
    decreases defs.len(),
{
    if defs.len() == 0 {
        None
    } else if defs[0].0 == key {
        Some(defs[0].1)
    } else {
        assoc_get(defs.drop_first(), key)
    }
}

/// `defs` with `key` set to `line`.
pub open spec fn assoc_put(defs: Seq<(Seq<u8>, usize)>, key: Seq<u8>, line: usize) -> Seq<(Seq<u8>, usize)>
    decreases defs.len(),
{
    if defs.len() == 0 {
        seq![(key, line)]
    } else if defs[0].0 == key {
        defs.update(0, (key, line))
    } else {
        seq![defs[0]] + assoc_put(defs.drop_first(), key, line)
    }
}

/// The message of an offense.
#[verifier::opaque]
pub open spec fn duplicate_message(qualified: Seq<u8>, path: Seq<u8>, first_line: usize, line: usize) -> Seq<u8> {
    lit("Method `") + qualified + lit("` is defined at both ") + path + seq![COLON] + decimal(
        first_line as nat,
    ) + lit(" and ") + path + seq![COLON] + decimal(line as nat) + lit(".")
}

/// Records a definition found under `key` (reported as `qualified`): the
/// first redefinition inside a rescue (or ensure) clause of each key is
/// forgiven; any other definition of a known key is an offense.
pub open spec fn spec_record(st: VState, key: Seq<u8>, qualified: Seq<u8>, def_line: usize, loc: Location, forgiving: bool) -> VState {
    let known = assoc_get(st.defs, key);
    if forgiving && st.in_rescue_or_ensure && known is Some && st.types.len() > 0 && !(if st.types.last()
        == RescueEnsureType::Rescue {
        st.rescue_forgiven
    } else {
        st.ensure_forgiven
    }).contains(key) {
        if st.types.last() == RescueEnsureType::Rescue {
            VState { defs: assoc_put(st.defs, key, def_line), rescue_forgiven: st.rescue_forgiven.push(key), ..st }
        } else {
            VState { defs: assoc_put(st.defs, key, def_line), ensure_forgiven: st.ensure_forgiven.push(key), ..st }
        }
    } else {
        match known {
            Some(first) => VState {
                diags: st.diags.push((loc, duplicate_message(qualified, st.path, first, loc.line), false)),
                ..st
            },
            None => VState { defs: assoc_put(st.defs, key, def_line), ..st },
        }
    }
}

/// A method named `name` is found in the current scope.
pub open spec fn spec_found_method(st: VState, name: Seq<u8>, is_singleton: bool, def_line: usize, loc: Location) -> VState {
    let q = spec_qualified_method_name(st.scopes, name, is_singleton);
    spec_record(st, spec_method_key(st.def_stack, q), q, def_line, loc, true)
}

} // verus!

verus! {

// ---------------------------------------------------------------------
// Reading nodes.
// ---------------------------------------------------------------------

/// The name of a constant path: `A::B::C` for nested constant paths whose
/// innermost parent is a plain constant; just the last name otherwise.
pub open spec fn spec_constant_path_name(node: Node) -> Seq<u8>
    decreases node,
{
    match node {
        Node::ConstantPath { parent, name } => match parent {
            Some(p) => match *p {
                Node::ConstantRead { name: pn } => pn@ + lit("::") + name@,
                Node::ConstantPath { .. } => spec_constant_path_name(*p) + lit("::") + name@,
                _ => name@,
            },
            None => name@,
        },
        _ => seq![],
    }
}

/// The name of a class or module from its constant path node.
pub open spec fn spec_class_name(node: Node) -> Seq<u8> {
    match node {
        Node::ConstantRead { name } => name@,
        Node::ConstantPath { .. } => spec_constant_path_name(node),
        _ => seq![],
    }
}

pub open spec fn spec_symbol_only(node: Node) -> Option<Seq<u8>> {
    match node {
        Node::Symbol { unescaped } => Some(unescaped@),
        _ => None,
    }
}

pub open spec fn spec_symbol_or_string(node: Node) -> Option<Seq<u8>> {
    match node {
        Node::Symbol { unescaped } => Some(unescaped@),
        Node::Str { unescaped } => Some(unescaped@),
        _ => None,
    }
}

/// How a call with a block opens a scope.
pub enum ScopeCreation {
    /// `class_eval do` without a receiver: the enclosing scope is kept.
    Implicit,
    /// `Class.new do` / `Module.new do` not assigned to a constant: a fresh,
    /// isolated scope.
    Anonymous,
    /// `Const.class_eval do`: the named scope.
    Named(Seq<u8>),
}

pub open spec fn spec_is_class_or_module_const(node: Node) -> bool {
    match node {
        Node::ConstantRead { name } => name@ == lit("Class") || name@ == lit("Module"),
        _ => false,
    }
}

pub open spec fn spec_scope_creating(name: Seq<u8>, receiver: Option<Box<Node>>, has_block: bool) -> Option<ScopeCreation> {
    if name == lit("class_eval") && has_block && receiver is None {
        Some(ScopeCreation::Implicit)
    } else if name == lit("class_eval") && has_block && (match receiver {
        Some(r) => (*r is ConstantRead || *r is ConstantPath),
        None => false,
    }) {
        Some(ScopeCreation::Named(spec_class_name(*receiver.unwrap())))
    } else if name == lit("new") && has_block && (match receiver {
        Some(r) => spec_is_class_or_module_const(*r),
        None => false,
    }) {
        Some(ScopeCreation::Anonymous)
    } else {
        None
    }
}

// ---------------------------------------------------------------------
// What each kind of definition records.
// ---------------------------------------------------------------------

/// `def name`, `def self.name` or `def Const.name`.
pub open spec fn spec_process_def(st: VState, name: Seq<u8>, receiver: Option<Box<Node>>, line: usize, keyword: Location, source: Seq<u8>) -> VState {
    if st.in_if {
        st
    } else {
        match receiver {
            Some(r) => match *r {
                Node::SelfNode => if st.in_plain_block {
                    st
                } else {
                    spec_found_method(st, name, true, line, keyword)
                },
                Node::ConstantRead { name: c } => match spec_lookup_constant(st.scopes, c@) {
                    Some(q) => {
                        let st2 = spec_found_method(
                            VState { scopes: seq![(q, true)], ..st },
                            name,
                            true,
                            line,
                            keyword,
                        );
                        VState { scopes: st.scopes, ..st2 }
                    },
                    None => spec_record(
                        st,
                        spec_method_key(st.def_stack, source + seq![DOT] + name),
                        c@ + seq![DOT] + name,
                        line,
                        keyword,
                        false,
                    ),
                },
                _ => st,
            },
            None => if st.in_plain_block {
                st
            } else {
                spec_found_method(st, name, spec_in_singleton_scope(st.scopes), line, keyword)
            },
        }
    }
}

/// `alias new old`.
pub open spec fn spec_process_alias(st: VState, new_name: Node, old_name: Node, line: usize, loc: Location) -> VState {
    if st.in_if || st.in_plain_block {
        st
    } else {
        match spec_symbol_only(new_name) {
            None => st,
            Some(n) => if spec_symbol_only(old_name) == Some(n) {
                st
            } else {
                spec_found_method(st, n, spec_in_singleton_scope(st.scopes), line, loc)
            },
        }
    }
}

/// `attr_reader`, `attr_writer` and `attr_accessor` over `args[i..]`.
pub open spec fn spec_attrs(st: VState, args: Seq<Node>, i: int, readable: bool, writable: bool, single: bool, line: usize, loc: Location) -> VState
    decreases args.len() - i,
{
    if i < 0 || i >= args.len() {
        st
    } else {
        let st1 = match spec_symbol_or_string(args[i]) {
            Some(n) => {
                let a = if readable {
                    spec_found_method(st, n, single, line, loc)
                } else {
                    st
                };
                if writable {
                    spec_found_method(a, n + seq![EQUALS], single, line, loc)
                } else {
                    a
                }
            },
            None => st,
        };
        spec_attrs(st1, args, i + 1, readable, writable, single, line, loc)
    }
}

/// The methods that `args[i..]` name, each with `prefix` and `_` in front
/// when there is a prefix.
pub open spec fn spec_found_names(st: VState, args: Seq<Node>, i: int, end: int, prefix: Option<Seq<u8>>, single: bool, line: usize, loc: Location) -> VState
    decreases end - i,
{
    if i < 0 || i >= end || end > args.len() {
        st
    } else {
        let st1 = match spec_symbol_or_string(args[i]) {
            Some(n) => spec_found_method(
                st,
                match prefix {
                    Some(p) => p + seq![UNDERSCORE_BYTE] + n,
                    None => n,
                },
                single,
                line,
                loc,
            ),
            None => st,
        };
        spec_found_names(st1, args, i + 1, end, prefix, single, line, loc)
    }
}

/// The `to:` target, whether `prefix: true` was given, and an explicit
/// `prefix:` name, read from the pairs `elements[..i]`.
pub open spec fn spec_delegate_options(elements: Seq<Node>, i: int) -> (Option<Seq<u8>>, bool, Option<Seq<u8>>)
    decreases i,
{
    if i <= 0 || i > elements.len() {
        (None, false, None)
    } else {
        let prev = spec_delegate_options(elements, i - 1);
        match elements[i - 1] {
            Node::Assoc { key, value } => match *key {
                Node::Symbol { unescaped } => if unescaped@ == lit("to") {
                    (spec_symbol_or_string(*value), prev.1, prev.2)
                } else if unescaped@ == lit("prefix") {
                    if *value is True {
                        (prev.0, true, prev.2)
                    } else {
                        (prev.0, prev.1, spec_symbol_or_string(*value))
                    }
                } else {
                    prev
                },
                _ => prev,
            },
            _ => prev,
        }
    }
}

/// `delegate :a, :b, to: :target` (with ActiveSupport extensions).
pub open spec fn spec_process_delegate(st: VState, args: Seq<Node>, single: bool, line: usize, loc: Location) -> VState {
    if args.len() == 0 {
        st
    } else {
        match args.last() {
            Node::KeywordHash { elements } => {
                let opts = spec_delegate_options(elements@, elements@.len() as int);
                match opts.0 {
                    None => st,
                    Some(to) => {
                        let prefix = match opts.2 {
                            Some(e) => Some(e),
                            None => if opts.1 {
                                Some(to)
                            } else {
                                None
                            },
                        };
                        spec_found_names(st, args, 0, args.len() - 1, prefix, single, line, loc)
                    },
                }
            },
            _ => st,
        }
    }
}

/// `alias_method :new, :old`.
pub open spec fn spec_process_alias_method(st: VState, args: Seq<Node>, single: bool, line: usize, loc: Location) -> VState {
    if args.len() < 2 {
        st
    } else {
        match (spec_symbol_only(args[0]), spec_symbol_only(args[1])) {
            (Some(a), Some(b)) => if a == b {
                st
            } else {
                spec_found_method(st, a, single, line, loc)
            },
            _ => st,
        }
    }
}

/// `attr :name` or `attr :name, true`.
pub open spec fn spec_process_attr_legacy(st: VState, args: Seq<Node>, single: bool, line: usize, loc: Location) -> VState {
    if args.len() == 0 {
        st
    } else {
        match spec_symbol_or_string(args[0]) {
            None => st,
            Some(n) => {
                let st1 = spec_found_method(st, n, single, line, loc);
                if args.len() == 2 && args[1] is True {
                    spec_found_method(st1, n + seq![EQUALS], single, line, loc)
                } else {
                    st1
                }
            },
        }
    }
}

/// `def_delegator :target, :method [, :alias]`.
pub open spec fn spec_process_def_delegator(st: VState, args: Seq<Node>, single: bool, line: usize, loc: Location) -> VState {
    if args.len() < 2 || spec_symbol_or_string(args[0]) is None {
        st
    } else {
        let target = if args.len() >= 3 {
            args[2]
        } else {
            args[1]
        };
        match spec_symbol_or_string(target) {
            Some(n) => spec_found_method(st, n, single, line, loc),
            None => st,
        }
    }
}

/// A receiverless call that defines methods: `alias_method`, `attr_*`,
/// `def_delegator*` and `delegate`.
pub open spec fn spec_process_call(st: VState, name: Seq<u8>, receiver: Option<Box<Node>>, arguments: Option<Vec<Node>>, line: usize, loc: Location) -> VState {
    if st.in_if || st.in_plain_block || receiver is Some || arguments is None {
        st
    } else {
        let args = arguments.unwrap()@;
        let single = spec_in_singleton_scope(st.scopes);
        if name == lit("alias_method") {
            spec_process_alias_method(st, args, single, line, loc)
        } else if name == lit("attr_reader") {
            spec_attrs(st, args, 0, true, false, single, line, loc)
        } else if name == lit("attr_writer") {
            spec_attrs(st, args, 0, false, true, single, line, loc)
        } else if name == lit("attr_accessor") {
            spec_attrs(st, args, 0, true, true, single, line, loc)
        } else if name == lit("attr") {
            spec_process_attr_legacy(st, args, single, line, loc)
        } else if name == lit("def_delegator") || name == lit("def_instance_delegator") {
            spec_process_def_delegator(st, args, single, line, loc)
        } else if name == lit("def_delegators") || name == lit("def_instance_delegators") {
            if args.len() < 2 || spec_symbol_or_string(args[0]) is None {
                st
            } else {
                spec_found_names(st, args, 1, args.len() as int, None, single, line, loc)
            }
        } else if name == lit("delegate") && st.active_support {
            spec_process_delegate(st, args, single, line, loc)
        } else {
            st
        }
    }
}

} // verus!

verus! {

// ---------------------------------------------------------------------
// The walk.
// ---------------------------------------------------------------------

/// Whether a call is `private def ...`, `protected def ...` or
/// `public def ...`.
pub open spec fn spec_is_visibility_def(name: Seq<u8>, arguments: Option<Vec<Node>>) -> bool {
    (name == lit("private") || name == lit("protected") || name == lit("public")) && match arguments {
        Some(args) => args@.len() == 1 && args@[0] is Def,
        None => false,
    }
}

/// The definitions found inside the expression of `class << expr` (not
/// inside the bodies of nested definitions), recorded in the current scope.
pub open spec fn spec_collect(node: Node, st: VState) -> VState
    decreases node,
{
    match node {
        Node::Def { name, receiver, line, keyword, .. } => if receiver is None {
            spec_found_method(st, name@, spec_in_singleton_scope(st.scopes), line, keyword)
        } else {
            st
        },
        Node::Class { constant_path, body } => spec_collect_opt(body, spec_collect(*constant_path, st)),
        Node::Module { constant_path, body } => spec_collect_opt(body, spec_collect(*constant_path, st)),
        Node::SingletonClass { expression, body } => spec_collect_opt(body, spec_collect(*expression, st)),
        Node::AliasMethod { new_name, old_name, .. } => spec_collect(*old_name, spec_collect(*new_name, st)),
        Node::Call { receiver, arguments, block, .. } => {
            let st1 = spec_collect_opt(receiver, st);
            let st2 = match arguments {
                Some(args) => spec_collect_seq(args@, 0, st1),
                None => st1,
            };
            spec_collect_opt(block, st2)
        },
        Node::ConstantWrite { value, .. } => spec_collect(*value, st),
        Node::ConstantPath { parent, .. } => spec_collect_opt(parent, st),
        Node::KeywordHash { elements } => spec_collect_seq(elements@, 0, st),
        Node::Assoc { key, value } => spec_collect(*value, spec_collect(*key, st)),
        Node::If { children } => spec_collect_seq(children@, 0, st),
        Node::Unless { children } => spec_collect_seq(children@, 0, st),
        Node::Rescue { children } => spec_collect_seq(children@, 0, st),
        Node::Ensure { children } => spec_collect_seq(children@, 0, st),
        Node::Other { children } => spec_collect_seq(children@, 0, st),
        _ => st,
    }
}

pub open spec fn spec_collect_opt(node: Option<Box<Node>>, st: VState) -> VState
    decreases node,
{
    match node {
        Some(n) => spec_collect(*n, st),
        None => st,
    }
}

pub open spec fn spec_collect_seq(nodes: Seq<Node>, i: int, st: VState) -> VState
    decreases nodes, nodes.len() - i,
{
    if 0 <= i < nodes.len() {
        spec_collect_seq(nodes, i + 1, spec_collect(nodes[i], st))
    } else {
        st
    }
}

/// Visiting a `def`: record it, then walk its body with its name as the
/// enclosing method.
pub open spec fn spec_visit_def(node: Node, st: VState) -> VState
    decreases node, 0int,
{
    match node {
        Node::Def { name, receiver, body, line, keyword, source } => {
            let st1 = spec_process_def(st, name@, receiver, line, keyword, source@);
            let st2 = spec_visit_opt(body, VState { def_stack: st1.def_stack.push(name@), ..st1 });
            VState { def_stack: st2.def_stack.drop_last(), ..st2 }
        },
        _ => st,
    }
}

/// Visiting `class << expr`.
pub open spec fn spec_visit_sclass(node: Node, st: VState) -> VState
    decreases node, 0int,
{
    match node {
        Node::SingletonClass { expression, body } => match *expression {
            Node::SelfNode => if st.scopes.len() > 0 {
                let d = st.scopes.len() - 1;
                let was = st.scopes[d].1;
                let st1 = VState { scopes: st.scopes.update(d, (st.scopes[d].0, true)), ..st };
                let st2 = spec_visit_opt(body, st1);
                VState { scopes: st2.scopes.update(d, (st2.scopes[d].0, was)), ..st2 }
            } else {
                let st1 = VState { scopes: st.scopes.push((lit("Object"), true)), ..st };
                let st2 = spec_visit_opt(body, st1);
                VState { scopes: st2.scopes.drop_last(), ..st2 }
            },
            Node::ConstantRead { .. } => {
                let st1 = VState {
                    scopes: seq![(lit("#<Class:") + spec_class_name(*expression) + seq![GREATER_THAN], false)],
                    ..st
                };
                let st2 = spec_visit_opt(body, st1);
                VState { scopes: st.scopes, ..st2 }
            },
            Node::ConstantPath { .. } => {
                let st1 = VState {
                    scopes: seq![(lit("#<Class:") + spec_class_name(*expression) + seq![GREATER_THAN], false)],
                    ..st
                };
                let st2 = spec_visit_opt(body, st1);
                VState { scopes: st.scopes, ..st2 }
            },
            Node::Call { name, .. } => {
                let st1 = VState { scopes: seq![(name@, true)], ..st };
                let st2 = spec_visit_opt(body, st1);
                let st3 = spec_collect(*expression, st2);
                VState { scopes: st.scopes, ..st3 }
            },
            _ => {
                let st1 = VState { in_plain_block: true, ..st };
                let st2 = spec_visit_opt(body, st1);
                VState { in_plain_block: st.in_plain_block, ..st2 }
            },
        },
        _ => st,
    }
}

/// Visiting a call: `private def`, scope-creating blocks, and calls that
/// define methods.
pub open spec fn spec_visit_call(node: Node, st: VState) -> VState
    decreases node, 0int,
{
    match node {
        Node::Call { name, receiver, arguments, block, line, location } => {
            if spec_is_visibility_def(name@, arguments) {
                spec_visit_def(arguments.unwrap()@[0], st)
            } else {
                match spec_scope_creating(name@, receiver, block is Some) {
                    Some(ScopeCreation::Implicit) => spec_visit_opt(block, st),
                    Some(ScopeCreation::Anonymous) => {
                        let st1 = VState { defs: seq![], scopes: seq![(lit("__anonymous__"), false)], ..st };
                        let st2 = spec_visit_opt(block, st1);
                        VState { defs: st.defs, scopes: st.scopes, ..st2 }
                    },
                    Some(ScopeCreation::Named(n)) => {
                        let st1 = VState { scopes: st.scopes.push((n, false)), ..st };
                        let st2 = spec_visit_opt(block, st1);
                        VState { scopes: st2.scopes.drop_last(), ..st2 }
                    },
                    None => {
                        let st1 = spec_process_call(st, name@, receiver, arguments, line, location);
                        let st2 = spec_visit_opt(receiver, st1);
                        let st3 = match arguments {
                            Some(args) => spec_visit_seq(args@, 0, st2),
                            None => st2,
                        };
                        match block {
                            Some(b) => {
                                let st4 = spec_visit(*b, VState { in_plain_block: true, ..st3 });
                                VState { in_plain_block: st3.in_plain_block, ..st4 }
                            },
                            None => st3,
                        }
                    },
                }
            }
        },
        _ => st,
    }
}

/// The state after walking `node`.
pub open spec fn spec_visit(node: Node, st: VState) -> VState
    decreases node, 1int,
{
    match node {
        Node::Class { constant_path, body } => {
            let st1 = VState { scopes: st.scopes.push((spec_class_name(*constant_path), false)), ..st };
            let st2 = spec_visit_opt(body, st1);
            VState { scopes: st2.scopes.drop_last(), ..st2 }
        },
        Node::Module { constant_path, body } => {
            let st1 = VState { scopes: st.scopes.push((spec_class_name(*constant_path), false)), ..st };
            let st2 = spec_visit_opt(body, st1);
            VState { scopes: st2.scopes.drop_last(), ..st2 }
        },
        Node::SingletonClass { .. } => spec_visit_sclass(node, st),
        Node::Def { .. } => spec_visit_def(node, st),
        Node::AliasMethod { new_name, old_name, line, location } => spec_process_alias(
            st,
            *new_name,
            *old_name,
            line,
            location,
        ),
        Node::Call { .. } => spec_visit_call(node, st),
        Node::ConstantWrite { name, value } => match *value {
            Node::Call { name: call_name, receiver, block, .. } => if call_name@ == lit("new")
                && block is Some && match receiver {
                Some(r) => spec_is_class_or_module_const(*r),
                None => false,
            } {
                let st1 = VState { scopes: st.scopes.push((name@, false)), ..st };
                let st2 = spec_visit_opt(block, st1);
                VState { scopes: st2.scopes.drop_last(), ..st2 }
            } else {
                spec_visit(*value, st)
            },
            _ => spec_visit(*value, st),
        },
        Node::ConstantPath { parent, .. } => spec_visit_opt(parent, st),
        Node::KeywordHash { elements } => spec_visit_seq(elements@, 0, st),
        Node::Assoc { key, value } => spec_visit(*value, spec_visit(*key, st)),
        Node::If { children } => {
            let st2 = spec_visit_seq(children@, 0, VState { in_if: true, ..st });
            VState { in_if: st.in_if, ..st2 }
        },
        Node::Unless { children } => {
            let st2 = spec_visit_seq(children@, 0, VState { in_if: true, ..st });
            VState { in_if: st.in_if, ..st2 }
        },
        Node::Rescue { children } => {
            let st2 = spec_visit_seq(
                children@,
                0,
                VState {
                    in_rescue_or_ensure: true,
                    types: st.types.push(RescueEnsureType::Rescue),
                    ..st
                },
            );
            VState { in_rescue_or_ensure: st.in_rescue_or_ensure, types: st2.types.drop_last(), ..st2 }
        },
        Node::Ensure { children } => {
            let st2 = spec_visit_seq(
                children@,
                0,
                VState {
                    in_rescue_or_ensure: true,
                    types: st.types.push(RescueEnsureType::Ensure),
                    ..st
                },
            );
            VState { in_rescue_or_ensure: st.in_rescue_or_ensure, types: st2.types.drop_last(), ..st2 }
        },
        Node::Other { children } => spec_visit_seq(children@, 0, st),
        _ => st,
    }
}

pub open spec fn spec_visit_opt(node: Option<Box<Node>>, st: VState) -> VState
    decreases node, 2int,
{
    match node {
        Some(n) => spec_visit(*n, st),
        None => st,
    }
}

pub open spec fn spec_visit_seq(nodes: Seq<Node>, i: int, st: VState) -> VState
    decreases nodes, nodes.len() - i,
{
    if 0 <= i < nodes.len() {
        spec_visit_seq(nodes, i + 1, spec_visit(nodes[i], st))
    } else {
        st
    }
}

} // verus!

verus! {

// ---------------------------------------------------------------------
// The walk keeps its context.
// ---------------------------------------------------------------------

/// Two states with the same walking context: scopes, enclosing methods,
/// conditional / block / rescue flags, configuration and path.
pub open spec fn same_context(a: VState, b: VState) -> bool {
    &&& a.scopes == b.scopes
    &&& a.def_stack == b.def_stack
    &&& a.in_if == b.in_if
    &&& a.in_plain_block == b.in_plain_block
    &&& a.in_rescue_or_ensure == b.in_rescue_or_ensure
    &&& a.types == b.types
    &&& a.active_support == b.active_support
    &&& a.path == b.path
}

pub proof fn lemma_record_context(st: VState, key: Seq<u8>, q: Seq<u8>, line: usize, loc: Location, forgiving: bool)
    ensures
        same_context(spec_record(st, key, q, line, loc, forgiving), st),
{
}

pub proof fn lemma_found_context(st: VState, name: Seq<u8>, single: bool, line: usize, loc: Location)
    ensures
        same_context(spec_found_method(st, name, single, line, loc), st),
{
}

pub proof fn lemma_attrs_context(st: VState, args: Seq<Node>, i: int, r: bool, w: bool, single: bool, line: usize, loc: Location)
    ensures
        same_context(spec_attrs(st, args, i, r, w, single, line, loc), st),
    decreases args.len() - i,
{
    if !(i < 0 || i >= args.len()) {
        let st1 = match spec_symbol_or_string(args[i]) {
            Some(n) => {
                let a = if r {
                    spec_found_method(st, n, single, line, loc)
                } else {
                    st
                };
                if w {
                    spec_found_method(a, n + seq![EQUALS], single, line, loc)
                } else {
                    a
                }
            },
            None => st,
        };
        lemma_attrs_context(st1, args, i + 1, r, w, single, line, loc);
    }
}

pub proof fn lemma_found_names_context(st: VState, args: Seq<Node>, i: int, end: int, prefix: Option<Seq<u8>>, single: bool, line: usize, loc: Location)
    ensures
        same_context(spec_found_names(st, args, i, end, prefix, single, line, loc), st),
    decreases end - i,
{
    if !(i < 0 || i >= end || end > args.len()) {
        let st1 = match spec_symbol_or_string(args[i]) {
            Some(n) => spec_found_method(
                st,
                match prefix {
                    Some(p) => p + seq![UNDERSCORE_BYTE] + n,
                    None => n,
                },
                single,
                line,
                loc,
            ),
            None => st,
        };
        lemma_found_names_context(st1, args, i + 1, end, prefix, single, line, loc);
    }
}

pub proof fn lemma_process_call_context(st: VState, name: Seq<u8>, receiver: Option<Box<Node>>, arguments: Option<Vec<Node>>, line: usize, loc: Location)
    ensures
        same_context(spec_process_call(st, name, receiver, arguments, line, loc), st),
{
    if !(st.in_if || st.in_plain_block || receiver is Some || arguments is None) {
        let args = arguments.unwrap()@;
        let single = spec_in_singleton_scope(st.scopes);
        lemma_attrs_context(st, args, 0, true, false, single, line, loc);
        lemma_attrs_context(st, args, 0, false, true, single, line, loc);
        lemma_attrs_context(st, args, 0, true, true, single, line, loc);
        lemma_found_names_context(st, args, 1, args.len() as int, None, single, line, loc);
        lemma_delegate_context(st, args, single, line, loc);
    }
}

pub proof fn lemma_delegate_context(st: VState, args: Seq<Node>, single: bool, line: usize, loc: Location)
    ensures
        same_context(spec_process_delegate(st, args, single, line, loc), st),
{
    {
        if args.len() > 0 {
            match args.last() {
                Node::KeywordHash { elements } => {
                    let opts = spec_delegate_options(elements@, elements@.len() as int);
                    if let Some(to) = opts.0 {
                        let prefix = match opts.2 {
                            Some(e) => Some(e),
                            None => if opts.1 {
                                Some(to)
                            } else {
                                None
                            },
                        };
                        lemma_found_names_context(st, args, 0, args.len() - 1, prefix, single, line, loc);
                    }
                },
                _ => {},
            }
        }
    }
}

pub proof fn lemma_collect_context(node: Node, st: VState)
    ensures
        same_context(spec_collect(node, st), st),
    decreases node,
{
    match node {
        Node::Class { constant_path, body } => {
            lemma_collect_context(*constant_path, st);
            lemma_collect_opt_context(body, spec_collect(*constant_path, st));
        },
        Node::Module { constant_path, body } => {
            lemma_collect_context(*constant_path, st);
            lemma_collect_opt_context(body, spec_collect(*constant_path, st));
        },
        Node::SingletonClass { expression, body } => {
            lemma_collect_context(*expression, st);
            lemma_collect_opt_context(body, spec_collect(*expression, st));
        },
        Node::AliasMethod { new_name, old_name, .. } => {
            lemma_collect_context(*new_name, st);
            lemma_collect_context(*old_name, spec_collect(*new_name, st));
        },
        Node::Call { receiver, arguments, block, .. } => {
            lemma_collect_opt_context(receiver, st);
            let st1 = spec_collect_opt(receiver, st);
            let st2 = match arguments {
                Some(args) => {
                    lemma_collect_seq_context(args@, 0, st1);
                    spec_collect_seq(args@, 0, st1)
                },
                None => st1,
            };
            lemma_collect_opt_context(block, st2);
        },
        Node::ConstantWrite { value, .. } => lemma_collect_context(*value, st),
        Node::ConstantPath { parent, .. } => lemma_collect_opt_context(parent, st),
        Node::KeywordHash { elements } => lemma_collect_seq_context(elements@, 0, st),
        Node::Assoc { key, value } => {
            lemma_collect_context(*key, st);
            lemma_collect_context(*value, spec_collect(*key, st));
        },
        Node::If { children } => lemma_collect_seq_context(children@, 0, st),
        Node::Unless { children } => lemma_collect_seq_context(children@, 0, st),
        Node::Rescue { children } => lemma_collect_seq_context(children@, 0, st),
        Node::Ensure { children } => lemma_collect_seq_context(children@, 0, st),
        Node::Other { children } => lemma_collect_seq_context(children@, 0, st),
        _ => {},
    }
}

pub proof fn lemma_collect_opt_context(node: Option<Box<Node>>, st: VState)
    ensures
        same_context(spec_collect_opt(node, st), st),
    decreases node,
{
    if let Some(n) = node {
        lemma_collect_context(*n, st);
    }
}

pub proof fn lemma_collect_seq_context(nodes: Seq<Node>, i: int, st: VState)
    ensures
        same_context(spec_collect_seq(nodes, i, st), st),
    decreases nodes, nodes.len() - i,
{
    if 0 <= i < nodes.len() {
        lemma_collect_context(nodes[i], st);
        lemma_collect_seq_context(nodes, i + 1, spec_collect(nodes[i], st));
    }
}

pub proof fn lemma_visit_def_context(node: Node, st: VState)
    ensures
        same_context(spec_visit_def(node, st), st),
    decreases node, 0int,
{
    match node {
        Node::Def { name, receiver, body, line, keyword, source } => {
            let st1 = spec_process_def(st, name@, receiver, line, keyword, source@);
            let st1b = VState { def_stack: st1.def_stack.push(name@), ..st1 };
            lemma_visit_opt_context(body, st1b);
            assert(spec_visit_opt(body, st1b).def_stack.drop_last() =~= st.def_stack);
        },
        _ => {},
    }
}

pub proof fn lemma_visit_sclass_context(node: Node, st: VState)
    ensures
        same_context(spec_visit_sclass(node, st), st),
    decreases node, 0int,
{
    match node {
        Node::SingletonClass { expression, body } => match *expression {
            Node::SelfNode => if st.scopes.len() > 0 {
                let d = st.scopes.len() - 1;
                let st1 = VState { scopes: st.scopes.update(d, (st.scopes[d].0, true)), ..st };
                lemma_visit_opt_context(body, st1);
                let st2 = spec_visit_opt(body, st1);
                assert(st2.scopes.update(d, (st2.scopes[d].0, st.scopes[d].1)) =~= st.scopes);
            } else {
                let st1 = VState { scopes: st.scopes.push((lit("Object"), true)), ..st };
                lemma_visit_opt_context(body, st1);
                assert(spec_visit_opt(body, st1).scopes.drop_last() =~= st.scopes);
            },
            Node::ConstantRead { .. } => {
                let st1 = VState {
                    scopes: seq![(lit("#<Class:") + spec_class_name(*expression) + seq![GREATER_THAN], false)],
                    ..st
                };
                lemma_visit_opt_context(body, st1);
            },
            Node::ConstantPath { .. } => {
                let st1 = VState {
                    scopes: seq![(lit("#<Class:") + spec_class_name(*expression) + seq![GREATER_THAN], false)],
                    ..st
                };
                lemma_visit_opt_context(body, st1);
            },
            Node::Call { name, .. } => {
                let st1 = VState { scopes: seq![(name@, true)], ..st };
                lemma_visit_opt_context(body, st1);
                lemma_collect_context(*expression, spec_visit_opt(body, st1));
            },
            _ => {
                let st1 = VState { in_plain_block: true, ..st };
                lemma_visit_opt_context(body, st1);
            },
        },
        _ => {},
    }
}

pub proof fn lemma_visit_call_context(node: Node, st: VState)
    ensures
        same_context(spec_visit_call(node, st), st),
    decreases node, 0int,
{
    match node {
        Node::Call { name, receiver, arguments, block, line, location } => {
            if spec_is_visibility_def(name@, arguments) {
                lemma_visit_def_context(arguments.unwrap()@[0], st);
            } else {
                match spec_scope_creating(name@, receiver, block is Some) {
                    Some(ScopeCreation::Implicit) => lemma_visit_opt_context(block, st),
                    Some(ScopeCreation::Anonymous) => {
                        let st1 = VState { defs: seq![], scopes: seq![(lit("__anonymous__"), false)], ..st };
                        lemma_visit_opt_context(block, st1);
                    },
                    Some(ScopeCreation::Named(n)) => {
                        let st1 = VState { scopes: st.scopes.push((n, false)), ..st };
                        lemma_visit_opt_context(block, st1);
                        assert(spec_visit_opt(block, st1).scopes.drop_last() =~= st.scopes);
                    },
                    None => {
                        lemma_process_call_context(st, name@, receiver, arguments, line, location);
                        let st1 = spec_process_call(st, name@, receiver, arguments, line, location);
                        lemma_visit_opt_context(receiver, st1);
                        let st2 = spec_visit_opt(receiver, st1);
                        let st3 = match arguments {
                            Some(args) => {
                                lemma_visit_seq_context(args@, 0, st2);
                                spec_visit_seq(args@, 0, st2)
                            },
                            None => st2,
                        };
                        if let Some(b) = block {
                            lemma_visit_context(*b, VState { in_plain_block: true, ..st3 });
                        }
                    },
                }
            }
        },
        _ => {},
    }
}

/// Walking a node leaves the walking context (scopes, enclosing methods,
/// flags) as it found it; only the definitions, the forgiven keys and the
/// offenses change.
pub proof fn lemma_visit_context(node: Node, st: VState)
    ensures
        same_context(spec_visit(node, st), st),
    decreases node, 1int,
{
    match node {
        Node::Class { constant_path, body } => {
            let st1 = VState { scopes: st.scopes.push((spec_class_name(*constant_path), false)), ..st };
            lemma_visit_opt_context(body, st1);
            assert(spec_visit_opt(body, st1).scopes.drop_last() =~= st.scopes);
        },
        Node::Module { constant_path, body } => {
            let st1 = VState { scopes: st.scopes.push((spec_class_name(*constant_path), false)), ..st };
            lemma_visit_opt_context(body, st1);
            assert(spec_visit_opt(body, st1).scopes.drop_last() =~= st.scopes);
        },
        Node::SingletonClass { .. } => lemma_visit_sclass_context(node, st),
        Node::Def { .. } => lemma_visit_def_context(node, st),
        Node::AliasMethod { .. } => {},
        Node::Call { .. } => lemma_visit_call_context(node, st),
        Node::ConstantWrite { name, value } => {
            lemma_visit_context(*value, st);
            match *value {
                Node::Call { block, .. } => {
                    let st1 = VState { scopes: st.scopes.push((name@, false)), ..st };
                    lemma_visit_opt_context(block, st1);
                    assert(spec_visit_opt(block, st1).scopes.drop_last() =~= st.scopes);
                },
                _ => {},
            }
        },
        Node::ConstantPath { parent, .. } => lemma_visit_opt_context(parent, st),
        Node::KeywordHash { elements } => lemma_visit_seq_context(elements@, 0, st),
        Node::Assoc { key, value } => {
            lemma_visit_context(*key, st);
            lemma_visit_context(*value, spec_visit(*key, st));
        },
        Node::If { children } => lemma_visit_seq_context(children@, 0, VState { in_if: true, ..st }),
        Node::Unless { children } => lemma_visit_seq_context(children@, 0, VState { in_if: true, ..st }),
        Node::Rescue { children } => {
            let st1 = VState {
                in_rescue_or_ensure: true,
                types: st.types.push(RescueEnsureType::Rescue),
                ..st
            };
            lemma_visit_seq_context(children@, 0, st1);
            assert(spec_visit_seq(children@, 0, st1).types.drop_last() =~= st.types);
        },
        Node::Ensure { children } => {
            let st1 = VState {
                in_rescue_or_ensure: true,
                types: st.types.push(RescueEnsureType::Ensure),
                ..st
            };
            lemma_visit_seq_context(children@, 0, st1);
            assert(spec_visit_seq(children@, 0, st1).types.drop_last() =~= st.types);
        },
        Node::Other { children } => lemma_visit_seq_context(children@, 0, st),
        _ => {},
    }
}

pub proof fn lemma_visit_opt_context(node: Option<Box<Node>>, st: VState)
    ensures
        same_context(spec_visit_opt(node, st), st),
    decreases node, 2int,
{
    if let Some(n) = node {
        lemma_visit_context(*n, st);
    }
}

pub proof fn lemma_visit_seq_context(nodes: Seq<Node>, i: int, st: VState)
    ensures
        same_context(spec_visit_seq(nodes, i, st), st),
    decreases nodes, nodes.len() - i,
{
    if 0 <= i < nodes.len() {
        lemma_visit_context(nodes[i], st);
        lemma_visit_seq_context(nodes, i + 1, spec_visit(nodes[i], st));
    }
}

} // verus!

verus! {

// ---------------------------------------------------------------------
// The executable walk.
// ---------------------------------------------------------------------

/// The walker's state.
pub struct DupMethodVisitor {
    /// Qualified method key -> line of its first definition.
    pub definitions: Vec<(Vec<u8>, usize)>,
    /// The enclosing scopes, outermost first.
    pub scope_stack: Vec<ScopeEntry>,
    /// The names of the enclosing method definitions, outermost first.
    pub def_stack: Vec<Vec<u8>>,
    /// Inside an `if` or `unless`.
    pub in_if: bool,
    /// Inside a block that does not open a scope.
    pub in_plain_block: bool,
    /// Inside a `rescue` or `ensure` clause.
    pub in_rescue_or_ensure: bool,
    /// Keys whose redefinition inside a rescue clause was forgiven.
    pub rescue_forgiven: Vec<Vec<u8>>,
    /// Keys whose redefinition inside an ensure clause was forgiven.
    pub ensure_forgiven: Vec<Vec<u8>>,
    /// The kinds of the enclosing rescue / ensure clauses.
    pub rescue_ensure_type_stack: Vec<RescueEnsureType>,
    /// Whether `delegate` defines methods (ActiveSupport extensions).
    pub active_support_extensions: bool,
    /// The path of the file, for messages.
    pub path: Vec<u8>,
    pub diagnostics: Vec<Diagnostic>,
}

pub open spec fn defs_view(d: Seq<(Vec<u8>, usize)>) -> Seq<(Seq<u8>, usize)> {
    d.map_values(|p: (Vec<u8>, usize)| (p.0@, p.1))
}

pub open spec fn scopes_view(s: Seq<ScopeEntry>) -> Seq<(Seq<u8>, bool)> {
    s.map_values(|e: ScopeEntry| (e.name@, e.is_singleton))
}

pub open spec fn diags_view(d: Seq<Diagnostic>) -> Seq<(Location, Seq<u8>, bool)> {
    d.map_values(|x: Diagnostic| (x.location, x.message@, x.corrected))
}

impl View for DupMethodVisitor {
    type V = VState;

    open spec fn view(&self) -> VState {
        VState {
            defs: defs_view(self.definitions@),
            scopes: scopes_view(self.scope_stack@),
            def_stack: views(self.def_stack@),
            in_if: self.in_if,
            in_plain_block: self.in_plain_block,
            in_rescue_or_ensure: self.in_rescue_or_ensure,
            rescue_forgiven: views(self.rescue_forgiven@),
            ensure_forgiven: views(self.ensure_forgiven@),
            types: self.rescue_ensure_type_stack@,
            active_support: self.active_support_extensions,
            path: self.path@,
            diags: diags_view(self.diagnostics@),
        }
    }
}

pub proof fn lemma_join_step(parts: Seq<Seq<u8>>, sep: Seq<u8>, k: int)
    requires
        1 <= k < parts.len(),
    ensures
        join_with(parts.subrange(0, k + 1), sep) == join_with(parts.subrange(0, k), sep) + sep
            + parts[k],
{
    assert(parts.subrange(0, k + 1).drop_last() =~= parts.subrange(0, k));
}

/// `Name::#<Class:Name>`-style scope names rewritten as RuboCop shows them.
pub fn humanize_scope(scope: &[u8]) -> (r: Vec<u8>)
    ensures
        r@ == spec_humanize_scope(scope@),
{
    reveal(spec_humanize_scope);
    let n = scope.len();
    let marker = "#<Class:".as_bytes();
    match find_from_exec(scope, marker, 0) {
        None => vstd::slice::slice_to_vec(scope),
        Some(class_start) => {
            proof {
                lemma_find_from(scope@, marker@, 0);
            }
            let after_start = class_start + marker.len();
            let after_class = &scope[after_start..scope.len()];
            let gt: [u8; 1] = [GREATER_THAN];
            match find_from_exec(after_class, gt.as_slice(), 0) {
                None => {
                    assert(gt@ =~= seq![GREATER_THAN]);
                    let r = vstd::slice::slice_to_vec(scope);
                    assert(r@ == spec_humanize_scope(scope@));
                    r
                },
                Some(close_pos) => {
                    proof {
                        lemma_find_from(after_class@, seq![GREATER_THAN], 0);
                    }
                    assert(gt@ =~= seq![GREATER_THAN]);
                    let class_name = &after_class[0..close_pos];
                    let rem0 = &after_class[close_pos + 1..after_class.len()];
                    let rem = if rem0.len() >= 2 && rem0[0] == COLON && rem0[1] == COLON {
                        &rem0[2..rem0.len()]
                    } else {
                        rem0
                    };
                    proof {
                        reveal_strlit("::");
                        assert(lit("::") =~= seq![COLON, COLON]) by {
                            vstd::string::is_ascii_spec_bytes("::");
                        }
                        assert(starts_with(rem0@, lit("::")) == (rem0@.len() >= 2 && rem0@[0]
                            == COLON && rem0@[1] == COLON)) by {
                            if rem0@.len() >= 2 && rem0@[0] == COLON && rem0@[1] == COLON {
                                assert(rem0@.subrange(0, 2) =~= seq![COLON, COLON]);
                            }
                        }
                    }
                    let before = &scope[0..class_start];
                    let bl = before.len();
                    let before_ends = bl >= 2 && before[bl - 2] == COLON && before[bl - 1] == COLON;
                    proof {
                        assert(ends_with(before@, lit("::")) == before_ends) by {
                            if before_ends {
                                assert(before@.subrange(bl - 2, bl as int) =~= seq![COLON, COLON]);
                            }
                        }
                    }
                    let ghost sc = scope@;
                    let ghost cs = class_start as int;
                    assert(before@ == sc.subrange(0, cs));
                    assert(after_class@ == sc.subrange(cs + lit("#<Class:").len(), sc.len() as int));
                    assert(class_name@ == after_class@.subrange(0, close_pos as int));
                    assert(rem0@ == after_class@.subrange(close_pos + 1, after_class@.len() as int));
                    if before_ends && bytes_eq(&before[0..bl - 2], class_name) {
                        let stripped = &before[0..bl - 2];
                        let mut out = vstd::slice::slice_to_vec(stripped);
                        out.push(DOT);
                        let ghost with_dot = out@;
                        let ends_dot = rem0.len() > 0 && rem0[rem0.len() - 1] == DOT;
                        proof {
                            let whole = stripped@ + seq![DOT] + rem0@;
                            assert(ends_with(whole, seq![DOT]) == (rem0@.len() == 0 || ends_dot)) by {
                                if rem0@.len() == 0 {
                                    assert(whole.subrange(whole.len() - 1, whole.len() as int) =~= seq![DOT]);
                                } else {
                                    assert(whole.last() == rem0@.last());
                                    if ends_dot {
                                        assert(whole.subrange(whole.len() - 1, whole.len() as int) =~= seq![DOT]);
                                    } else {
                                        assert(whole.subrange(whole.len() - 1, whole.len() as int)[0] != DOT);
                                    }
                                }
                            }
                        }
                        if !(ends_dot || rem0.len() == 0) {
                            append(&mut out, rem0);
                        }
                        assert(out@ == spec_humanize_scope(scope@));
                        out
                    } else if bl == 0 {
                        let mut out = vstd::slice::slice_to_vec(class_name);
                        out.push(DOT);
                        append(&mut out, rem);
                        assert(before@.len() == 0);
                        assert(!ends_with(before@, lit("::")));
                        assert(out@ == spec_humanize_scope(scope@));
                        out
                    } else {
                        let r = vstd::slice::slice_to_vec(scope);
                        assert(r@ == spec_humanize_scope(scope@));
                        r
                    }
                },
            }
        },
    }
}

impl DupMethodVisitor {
    /// The names of the outermost `n` scopes joined with `::`.
    fn join_scope_prefix(&self, n: usize) -> (r: Vec<u8>)
        requires
            1 <= n <= self.scope_stack@.len(),
        ensures
            r@ == join_with(scope_names(self@.scopes).subrange(0, n as int), lit("::")),
    {
        let ghost names = scope_names(self@.scopes);
        let mut out = vstd::slice::slice_to_vec(self.scope_stack[0].name.as_slice());
        assert(names.subrange(0, 1) =~= seq![names[0]]);
        let mut k: usize = 1;
        while k < n
            invariant
                1 <= k <= n <= self.scope_stack@.len(),
                names == scope_names(self@.scopes),
                out@ == join_with(names.subrange(0, k as int), lit("::")),
            decreases n - k,
        {
            append(&mut out, "::".as_bytes());
            append(&mut out, self.scope_stack[k].name.as_slice());
            proof {
                lemma_join_step(names, lit("::"), k as int);
            }
            k = k + 1;
        }
        out
    }

    /// `Object` at the top level, else the scope names joined with `::`.
    pub fn current_scope_name(&self) -> (r: Vec<u8>)
        ensures
            r@ == spec_current_scope_name(self@.scopes),
    {
        if self.scope_stack.len() == 0 {
            crate::diagnostic::message("Object")
        } else {
            let r = self.join_scope_prefix(self.scope_stack.len());
            assert(scope_names(self@.scopes).subrange(0, self.scope_stack@.len() as int) =~= scope_names(self@.scopes));
            r
        }
    }

    /// `Scope#name` or `Scope.name`.
    pub fn qualified_method_name(&self, method_name: &[u8], is_singleton: bool) -> (r: Vec<u8>)
        ensures
            r@ == spec_qualified_method_name(self@.scopes, method_name@, is_singleton),
    {
        reveal(spec_qualified_method_name);
        let scope = self.current_scope_name();
        let mut h = humanize_scope(scope.as_slice());
        let ends_dot = h.len() > 0 && h[h.len() - 1] == DOT;
        proof {
            assert(ends_with(h@, seq![DOT]) == ends_dot) by {
                if ends_dot {
                    assert(h@.subrange(h@.len() - 1, h@.len() as int) =~= seq![DOT]);
                } else if h@.len() > 0 {
                    assert(h@.subrange(h@.len() - 1, h@.len() as int)[0] != DOT);
                }
            }
        }
        if !ends_dot {
            h.push(if is_singleton { DOT } else { HASH_SIGN });
        }
        append(&mut h, method_name);
        h
    }

    /// The key of a definition: prefixed with the enclosing method's name.
    pub fn method_key(&self, qualified: &[u8]) -> (r: Vec<u8>)
        ensures
            r@ == spec_method_key(self@.def_stack, qualified@),
    {
        if self.def_stack.len() > 0 {
            let mut out = vstd::slice::slice_to_vec(self.def_stack[self.def_stack.len() - 1].as_slice());
            out.push(DOT);
            append(&mut out, qualified);
            out
        } else {
            vstd::slice::slice_to_vec(qualified)
        }
    }

    /// Whether definitions here are singleton methods.
    pub fn in_singleton_scope(&self) -> (r: bool)
        ensures
            r == spec_in_singleton_scope(self@.scopes),
    {
        self.scope_stack.len() > 0 && self.scope_stack[self.scope_stack.len() - 1].is_singleton
    }

    /// The scope a constant resolves to: the innermost scope having it among
    /// its `::`-separated parts, with all scopes outside it.
    pub fn lookup_constant(&self, const_name: &[u8]) -> (r: Option<Vec<u8>>)
        ensures
            match r {
                Some(q) => spec_lookup_constant(self@.scopes, const_name@) == Some(q@),
                None => spec_lookup_constant(self@.scopes, const_name@) is None,
            },
    {
        reveal(spec_lookup_constant);
        let mut i = self.scope_stack.len();
        while i > 0
            invariant
                i <= self.scope_stack@.len(),
                spec_lookup_constant(self@.scopes, const_name@) == lookup_from(self@.scopes, const_name@, i - 1),
            decreases i,
        {
            let ghost idx = i - 1;
            proof {
                reveal_strlit("::");
                assert(lit("::").len() > 0) by {
                    vstd::string::is_ascii_spec_bytes("::");
                }
            }
            if split_has_part(self.scope_stack[i - 1].name.as_slice(), "::".as_bytes(), const_name) {
                return Some(self.join_scope_prefix(i));
            }
            i = i - 1;
        }
        None
    }
}

} // verus!

verus! {

proof fn lemma_assoc_first(defs: Seq<(Seq<u8>, usize)>, key: Seq<u8>, j: int, v: usize)
    requires
        0 <= j < defs.len(),
        defs[j].0 == key,
        forall|i: int| 0 <= i < j ==> defs[i].0 != key,
    ensures
        assoc_get(defs, key) == Some(defs[j].1),
        assoc_put(defs, key, v) == defs.update(j, (key, v)),
    decreases j,
{
    if j > 0 {
        lemma_assoc_first(defs.drop_first(), key, j - 1, v);
        assert(seq![defs[0]] + defs.drop_first().update(j - 1, (key, v)) =~= defs.update(j, (key, v)));
    } else {
        assert(defs[0].0 == key);
    }
}

proof fn lemma_assoc_absent(defs: Seq<(Seq<u8>, usize)>, key: Seq<u8>, v: usize)
    requires
        forall|i: int| 0 <= i < defs.len() ==> defs[i].0 != key,
    ensures
        assoc_get(defs, key) is None,
        assoc_put(defs, key, v) == defs.push((key, v)),
    decreases defs.len(),
{
    if defs.len() > 0 {
        lemma_assoc_absent(defs.drop_first(), key, v);
        assert(seq![defs[0]] + defs.drop_first().push((key, v)) =~= defs.push((key, v)));
    }
}


/// The message of an offense.
fn build_message(qualified: &[u8], path: &[u8], first_line: usize, line: usize) -> (r: Vec<u8>)
    ensures
        r@ == duplicate_message(qualified@, path@, first_line, line),
{
    reveal(duplicate_message);
    let mut m = crate::diagnostic::message("Method `");
    append(&mut m, qualified);
    append(&mut m, "` is defined at both ".as_bytes());
    append(&mut m, path);
    m.push(COLON);
    push_decimal(&mut m, first_line);
    append(&mut m, " and ".as_bytes());
    append(&mut m, path);
    m.push(COLON);
    push_decimal(&mut m, line);
    append(&mut m, ".".as_bytes());
    m
}

impl DupMethodVisitor {
    /// The index of the definition stored under `key`.
    fn find_def(&self, key: &[u8]) -> (r: Option<usize>)
        ensures
            match r {
                Some(j) => j < self.definitions@.len() && self@.defs[j as int].0 == key@ && forall|i: int|
                    0 <= i < j ==> self@.defs[i].0 != key@,
                None => forall|i: int| 0 <= i < self@.defs.len() ==> self@.defs[i].0 != key@,
            },
    {
        let mut i: usize = 0;
        while i < self.definitions.len()
            invariant
                i <= self.definitions@.len(),
                forall|j: int| 0 <= j < i ==> self@.defs[j].0 != key@,
            decreases self.definitions@.len() - i,
        {
            if bytes_eq(self.definitions[i].0.as_slice(), key) {
                return Some(i);
            }
            i = i + 1;
        }
        None
    }

    /// Records a definition under `key`; see [`spec_record`].
    fn record(&mut self, key: &[u8], qualified: &[u8], def_line: usize, loc: Location, forgiving: bool)
        ensures
            final(self)@ == spec_record(old(self)@, key@, qualified@, def_line, loc, forgiving),
    {
        let ghost st = self@;
        let found = self.find_def(key);
        proof {
            match found {
                Some(j) => lemma_assoc_first(st.defs, key@, j as int, def_line),
                None => lemma_assoc_absent(st.defs, key@, def_line),
            }
        }
        if forgiving && self.in_rescue_or_ensure && found.is_some()
            && self.rescue_ensure_type_stack.len() > 0 {
            let t = self.rescue_ensure_type_stack[self.rescue_ensure_type_stack.len() - 1];
            let is_rescue = match t {
                RescueEnsureType::Rescue => true,
                RescueEnsureType::Ensure => false,
            };
            let already = if is_rescue {
                contains_bytes(&self.rescue_forgiven, key)
            } else {
                contains_bytes(&self.ensure_forgiven, key)
            };
            if !already {
                let j = found.unwrap();
                self.definitions.set(j, (vstd::slice::slice_to_vec(key), def_line));
                assert(defs_view(self.definitions@) =~= st.defs.update(j as int, (key@, def_line)));
                if is_rescue {
                    self.rescue_forgiven.push(vstd::slice::slice_to_vec(key));
                    assert(views(self.rescue_forgiven@) =~= st.rescue_forgiven.push(key@));
                } else {
                    self.ensure_forgiven.push(vstd::slice::slice_to_vec(key));
                    assert(views(self.ensure_forgiven@) =~= st.ensure_forgiven.push(key@));
                }
                assert(self@ =~= spec_record(st, key@, qualified@, def_line, loc, forgiving));
                return;
            }
        }
        match found {
            Some(j) => {
                let first = self.definitions[j].1;
                let msg = build_message(qualified, self.path.as_slice(), first, loc.line);
                self.diagnostics.push(Diagnostic { location: loc, message: msg, corrected: false });
                assert(diags_view(self.diagnostics@) =~= st.diags.push(
                    (loc, duplicate_message(qualified@, st.path, first, loc.line), false),
                ));
            },
            None => {
                self.definitions.push((vstd::slice::slice_to_vec(key), def_line));
                assert(defs_view(self.definitions@) =~= st.defs.push((key@, def_line)));
            },
        }
        assert(self@ =~= spec_record(st, key@, qualified@, def_line, loc, forgiving));
    }

    /// A method named `method_name` is defined here.
    pub fn found_method(&mut self, method_name: &[u8], is_singleton: bool, def_line: usize, loc: Location)
        ensures
            final(self)@ == spec_found_method(old(self)@, method_name@, is_singleton, def_line, loc),
    {
        let qualified = self.qualified_method_name(method_name, is_singleton);
        let key = self.method_key(qualified.as_slice());
        self.record(key.as_slice(), qualified.as_slice(), def_line, loc, true);
    }
}

} // verus!

verus! {

pub open spec fn opt_view(o: Option<Vec<u8>>) -> Option<Seq<u8>> {
    match o {
        Some(v) => Some(v@),
        None => None,
    }
}

/// The text of a symbol.
pub fn symbol_only(node: &Node) -> (r: Option<Vec<u8>>)
    ensures
        opt_view(r) == spec_symbol_only(*node),
{
    match node {
        Node::Symbol { unescaped } => Some(vstd::slice::slice_to_vec(unescaped.as_slice())),
        _ => None,
    }
}

/// The text of a symbol or a plain string.
pub fn symbol_or_string(node: &Node) -> (r: Option<Vec<u8>>)
    ensures
        opt_view(r) == spec_symbol_or_string(*node),
{
    match node {
        Node::Symbol { unescaped } => Some(vstd::slice::slice_to_vec(unescaped.as_slice())),
        Node::Str { unescaped } => Some(vstd::slice::slice_to_vec(unescaped.as_slice())),
        _ => None,
    }
}

/// The name of a constant path (see [`spec_constant_path_name`]).
pub fn constant_path_name(node: &Node) -> (r: Vec<u8>)
    ensures
        r@ == spec_constant_path_name(*node),
    decreases node,
{
    match node {
        Node::ConstantPath { parent, name } => match parent {
            Some(p) => match &**p {
                Node::ConstantRead { name: pn } => {
                    let mut out = vstd::slice::slice_to_vec(pn.as_slice());
                    append(&mut out, "::".as_bytes());
                    append(&mut out, name.as_slice());
                    out
                },
                Node::ConstantPath { .. } => {
                    let mut out = constant_path_name(&**p);
                    append(&mut out, "::".as_bytes());
                    append(&mut out, name.as_slice());
                    out
                },
                _ => vstd::slice::slice_to_vec(name.as_slice()),
            },
            None => vstd::slice::slice_to_vec(name.as_slice()),
        },
        _ => Vec::new(),
    }
}

/// The name of a class or module from its constant path.
pub fn class_or_module_name_from_constant(node: &Node) -> (r: Vec<u8>)
    ensures
        r@ == spec_class_name(*node),
{
    match node {
        Node::ConstantRead { name } => vstd::slice::slice_to_vec(name.as_slice()),
        Node::ConstantPath { .. } => constant_path_name(node),
        _ => Vec::new(),
    }
}

fn is_class_or_module_const(node: &Option<Box<Node>>) -> (r: bool)
    ensures
        r == match *node {
            Some(n) => spec_is_class_or_module_const(*n),
            None => false,
        },
{
    match node {
        Some(n) => match &**n {
            Node::ConstantRead { name } => eq_lit(name.as_slice(), "Class") || eq_lit(name.as_slice(), "Module"),
            _ => false,
        },
        None => false,
    }
}

impl DupMethodVisitor {
    /// Replaces the scope stack, returning the old one.
    fn swap_scopes(&mut self, scopes: Vec<ScopeEntry>) -> (r: Vec<ScopeEntry>)
        ensures
            r@ == old(self).scope_stack@,
            final(self)@ == (VState { scopes: scopes_view(scopes@), ..old(self)@ }),
    {
        let mut other = scopes;
        std::mem::swap(&mut self.scope_stack, &mut other);
        other
    }

    /// `def name`, `def self.name` or `def Const.name`.
    fn process_def(&mut self, name: &[u8], receiver: &Option<Box<Node>>, line: usize, keyword: Location, source: &[u8])
        ensures
            final(self)@ == spec_process_def(old(self)@, name@, *receiver, line, keyword, source@),
    {
        if self.in_if {
            return;
        }
        match receiver {
            Some(r) => match &**r {
                Node::SelfNode => {
                    if self.in_plain_block {
                        return;
                    }
                    self.found_method(name, true, line, keyword);
                },
                Node::ConstantRead { name: c } => match self.lookup_constant(c.as_slice()) {
                    Some(q) => {
                        let mut scopes: Vec<ScopeEntry> = Vec::new();
                        scopes.push(ScopeEntry { name: q, is_singleton: true });
                        assert(scopes_view(scopes@) =~= seq![(q@, true)]);
                        let saved = self.swap_scopes(scopes);
                        self.found_method(name, true, line, keyword);
                        let _ = self.swap_scopes(saved);
                    },
                    None => {
                        let mut qualified = vstd::slice::slice_to_vec(c.as_slice());
                        qualified.push(DOT);
                        append(&mut qualified, name);
                        assert(qualified@ =~= c@ + seq![DOT] + name@);
                        let mut def_key = vstd::slice::slice_to_vec(source);
                        def_key.push(DOT);
                        append(&mut def_key, name);
                        assert(def_key@ =~= source@ + seq![DOT] + name@);
                        let key = self.method_key(def_key.as_slice());
                        self.record(key.as_slice(), qualified.as_slice(), line, keyword, false);
                    },
                },
                _ => {},
            },
            None => {
                if self.in_plain_block {
                    return;
                }
                let single = self.in_singleton_scope();
                self.found_method(name, single, line, keyword);
            },
        }
    }

    /// `alias new old`.
    fn process_alias(&mut self, new_name: &Node, old_name: &Node, line: usize, loc: Location)
        ensures
            final(self)@ == spec_process_alias(old(self)@, *new_name, *old_name, line, loc),
    {
        if self.in_if || self.in_plain_block {
            return;
        }
        match symbol_only(new_name) {
            None => {},
            Some(n) => {
                let same = match symbol_only(old_name) {
                    Some(o) => bytes_eq(o.as_slice(), n.as_slice()),
                    None => false,
                };
                if !same {
                    let single = self.in_singleton_scope();
                    self.found_method(n.as_slice(), single, line, loc);
                }
            },
        }
    }

    /// `attr_reader` / `attr_writer` / `attr_accessor`.
    fn process_attrs(&mut self, args: &Vec<Node>, readable: bool, writable: bool, single: bool, line: usize, loc: Location)
        ensures
            final(self)@ == spec_attrs(old(self)@, args@, 0, readable, writable, single, line, loc),
    {
        let ghost start = self@;
        let mut i: usize = 0;
        while i < args.len()
            invariant
                i <= args@.len(),
                spec_attrs(self@, args@, i as int, readable, writable, single, line, loc) == spec_attrs(start, args@, 0, readable, writable, single, line, loc),
            decreases args@.len() - i,
        {
            match symbol_or_string(&args[i]) {
                Some(n) => {
                    if readable {
                        self.found_method(n.as_slice(), single, line, loc);
                    }
                    if writable {
                        let ghost nv = n@;
                        let mut setter = n;
                        setter.push(EQUALS);
                        assert(setter@ =~= nv + seq![EQUALS]);
                        self.found_method(setter.as_slice(), single, line, loc);
                    }
                },
                None => {},
            }
            i = i + 1;
        }
    }

    /// Every method that `args[start..end]` names, with a prefix.
    fn found_names(&mut self, args: &Vec<Node>, start: usize, end: usize, prefix: &Option<Vec<u8>>, single: bool, line: usize, loc: Location)
        requires
            start <= end <= args@.len(),
        ensures
            final(self)@ == spec_found_names(old(self)@, args@, start as int, end as int, opt_view(*prefix), single, line, loc),
    {
        let ghost st0 = self@;
        let mut i = start;
        while i < end
            invariant
                start <= i <= end <= args@.len(),
                spec_found_names(self@, args@, i as int, end as int, opt_view(*prefix), single, line, loc) == spec_found_names(st0, args@, start as int, end as int, opt_view(*prefix), single, line, loc),
            decreases end - i,
        {
            match symbol_or_string(&args[i]) {
                Some(n) => {
                    let full = match prefix {
                        Some(p) => {
                            let mut f = vstd::slice::slice_to_vec(p.as_slice());
                            f.push(UNDERSCORE_BYTE);
                            append(&mut f, n.as_slice());
                            assert(f@ =~= p@ + seq![UNDERSCORE_BYTE] + n@);
                            f
                        },
                        None => n,
                    };
                    self.found_method(full.as_slice(), single, line, loc);
                },
                None => {},
            }
            i = i + 1;
        }
    }

    /// `delegate :a, :b, to: :target [, prefix: ...]`.
    fn process_delegate(&mut self, args: &Vec<Node>, single: bool, line: usize, loc: Location)
        ensures
            final(self)@ == spec_process_delegate(old(self)@, args@, single, line, loc),
    {
        if args.len() == 0 {
            return;
        }
        match &args[args.len() - 1] {
            Node::KeywordHash { elements } => {
                let mut to_target: Option<Vec<u8>> = None;
                let mut prefix_is_true = false;
                let mut explicit_prefix: Option<Vec<u8>> = None;
                let mut i: usize = 0;
                while i < elements.len()
                    invariant
                        i <= elements@.len(),
                        spec_delegate_options(elements@, i as int) == (opt_view(to_target), prefix_is_true, opt_view(explicit_prefix)),
                    decreases elements@.len() - i,
                {
                    match &elements[i] {
                        Node::Assoc { key, value } => match &**key {
                            Node::Symbol { unescaped } => {
                                if eq_lit(unescaped.as_slice(), "to") {
                                    to_target = symbol_or_string(&**value);
                                } else if eq_lit(unescaped.as_slice(), "prefix") {
                                    match &**value {
                                        Node::True => {
                                            prefix_is_true = true;
                                        },
                                        _ => {
                                            explicit_prefix = symbol_or_string(&**value);
                                        },
                                    }
                                }
                            },
                            _ => {},
                        },
                        _ => {},
                    }
                    i = i + 1;
                }
                match to_target {
                    None => {},
                    Some(to) => {
                        let prefix = match explicit_prefix {
                            Some(e) => Some(e),
                            None => if prefix_is_true {
                                Some(to)
                            } else {
                                None
                            },
                        };
                        self.found_names(args, 0, args.len() - 1, &prefix, single, line, loc);
                    },
                }
            },
            _ => {},
        }
    }

    /// A receiverless call that defines methods.
    fn process_call(&mut self, name: &[u8], receiver: &Option<Box<Node>>, arguments: &Option<Vec<Node>>, line: usize, loc: Location)
        ensures
            final(self)@ == spec_process_call(old(self)@, name@, *receiver, *arguments, line, loc),
    {
        if self.in_if || self.in_plain_block || receiver.is_some() {
            return;
        }
        let args = match arguments {
            Some(a) => a,
            None => {
                return;
            },
        };
        let single = self.in_singleton_scope();
        if eq_lit(name, "alias_method") {
            if args.len() < 2 {
                return;
            }
            match (symbol_only(&args[0]), symbol_only(&args[1])) {
                (Some(a), Some(b)) => {
                    if !bytes_eq(a.as_slice(), b.as_slice()) {
                        self.found_method(a.as_slice(), single, line, loc);
                    }
                },
                _ => {},
            }
        } else if eq_lit(name, "attr_reader") {
            self.process_attrs(args, true, false, single, line, loc);
        } else if eq_lit(name, "attr_writer") {
            self.process_attrs(args, false, true, single, line, loc);
        } else if eq_lit(name, "attr_accessor") {
            self.process_attrs(args, true, true, single, line, loc);
        } else if eq_lit(name, "attr") {
            if args.len() == 0 {
                return;
            }
            match symbol_or_string(&args[0]) {
                None => {},
                Some(n) => {
                    self.found_method(n.as_slice(), single, line, loc);
                    let writable = args.len() == 2 && match &args[1] {
                        Node::True => true,
                        _ => false,
                    };
                    if writable {
                        let ghost nv = n@;
                        let mut setter = n;
                        setter.push(EQUALS);
                        assert(setter@ =~= nv + seq![EQUALS]);
                        self.found_method(setter.as_slice(), single, line, loc);
                    }
                },
            }
        } else if eq_lit(name, "def_delegator") || eq_lit(name, "def_instance_delegator") {
            if args.len() < 2 || symbol_or_string(&args[0]).is_none() {
                return;
            }
            let target = if args.len() >= 3 {
                &args[2]
            } else {
                &args[1]
            };
            match symbol_or_string(target) {
                Some(n) => self.found_method(n.as_slice(), single, line, loc),
                None => {},
            }
        } else if eq_lit(name, "def_delegators") || eq_lit(name, "def_instance_delegators") {
            if args.len() < 2 || symbol_or_string(&args[0]).is_none() {
                return;
            }
            self.found_names(args, 1, args.len(), &None, single, line, loc);
        } else if eq_lit(name, "delegate") && self.active_support_extensions {
            self.process_delegate(args, single, line, loc);
        }
    }
}

} // verus!

verus! {

impl DupMethodVisitor {
    /// Records the definitions inside the expression of `class << expr`.
    fn collect_defs_from_sclass_expr(&mut self, node: &Node)
        ensures
            final(self)@ == spec_collect(*node, old(self)@),
        decreases node, 1int,
    {
        match node {
            Node::Def { name, receiver, line, keyword, .. } => {
                if receiver.is_none() {
                    let single = self.in_singleton_scope();
                    self.found_method(name.as_slice(), single, *line, *keyword);
                }
            },
            Node::Class { constant_path, body } => {
                self.collect_defs_from_sclass_expr(&**constant_path);
                self.collect_opt(body);
            },
            Node::Module { constant_path, body } => {
                self.collect_defs_from_sclass_expr(&**constant_path);
                self.collect_opt(body);
            },
            Node::SingletonClass { expression, body } => {
                self.collect_defs_from_sclass_expr(&**expression);
                self.collect_opt(body);
            },
            Node::AliasMethod { new_name, old_name, .. } => {
                self.collect_defs_from_sclass_expr(&**new_name);
                self.collect_defs_from_sclass_expr(&**old_name);
            },
            Node::Call { receiver, arguments, block, .. } => {
                self.collect_opt(receiver);
                match arguments {
                    Some(args) => self.collect_seq(args),
                    None => {},
                }
                self.collect_opt(block);
            },
            Node::ConstantWrite { value, .. } => self.collect_defs_from_sclass_expr(&**value),
            Node::ConstantPath { parent, .. } => self.collect_opt(parent),
            Node::KeywordHash { elements } => self.collect_seq(elements),
            Node::Assoc { key, value } => {
                self.collect_defs_from_sclass_expr(&**key);
                self.collect_defs_from_sclass_expr(&**value);
            },
            Node::If { children } => self.collect_seq(children),
            Node::Unless { children } => self.collect_seq(children),
            Node::Rescue { children } => self.collect_seq(children),
            Node::Ensure { children } => self.collect_seq(children),
            Node::Other { children } => self.collect_seq(children),
            _ => {},
        }
    }

    fn collect_opt(&mut self, node: &Option<Box<Node>>)
        ensures
            final(self)@ == spec_collect_opt(*node, old(self)@),
        decreases node, 2int,
    {
        match node {
            Some(n) => self.collect_defs_from_sclass_expr(&**n),
            None => {},
        }
    }

    fn collect_seq(&mut self, nodes: &Vec<Node>)
        ensures
            final(self)@ == spec_collect_seq(nodes@, 0, old(self)@),
        decreases nodes, 0int,
    {
        let ghost st0 = self@;
        let mut i: usize = 0;
        while i < nodes.len()
            invariant
                i <= nodes@.len(),
                spec_collect_seq(nodes@, i as int, self@) == spec_collect_seq(nodes@, 0, st0),
            decreases nodes@.len() - i,
        {
            self.collect_defs_from_sclass_expr(&nodes[i]);
            i = i + 1;
        }
    }
}

} // verus!

verus! {

/// How a call with a block opens a scope (executable form).
pub enum ScopeKind {
    Implicit,
    Anonymous,
    Named(Vec<u8>),
}

pub open spec fn scope_kind_view(k: Option<ScopeKind>) -> Option<ScopeCreation> {
    match k {
        Some(ScopeKind::Implicit) => Some(ScopeCreation::Implicit),
        Some(ScopeKind::Anonymous) => Some(ScopeCreation::Anonymous),
        Some(ScopeKind::Named(n)) => Some(ScopeCreation::Named(n@)),
        None => None,
    }
}

/// Whether a call with a block creates a scope: `class_eval` (with a
/// constant receiver, or none) and `Class.new` / `Module.new`.
pub fn scope_creating_call_name(name: &[u8], receiver: &Option<Box<Node>>, has_block: bool) -> (r: Option<ScopeKind>)
    ensures
        scope_kind_view(r) == spec_scope_creating(name@, *receiver, has_block),
{
    let class_eval = eq_lit(name, "class_eval");
    if class_eval && has_block && receiver.is_none() {
        return Some(ScopeKind::Implicit);
    }
    if class_eval && has_block {
        match receiver {
            Some(r) => match &**r {
                Node::ConstantRead { .. } => {
                    return Some(ScopeKind::Named(class_or_module_name_from_constant(&**r)));
                },
                Node::ConstantPath { .. } => {
                    return Some(ScopeKind::Named(class_or_module_name_from_constant(&**r)));
                },
                _ => {},
            },
            None => {},
        }
    }
    if eq_lit(name, "new") && has_block && is_class_or_module_const(receiver) {
        return Some(ScopeKind::Anonymous);
    }
    None
}

fn is_visibility_def(name: &[u8], arguments: &Option<Vec<Node>>) -> (r: bool)
    ensures
        r == spec_is_visibility_def(name@, *arguments),
{
    if eq_lit(name, "private") || eq_lit(name, "protected") || eq_lit(name, "public") {
        match arguments {
            Some(args) => args.len() == 1 && match &args[0] {
                Node::Def { .. } => true,
                _ => false,
            },
            None => false,
        }
    } else {
        false
    }
}

impl DupMethodVisitor {
    fn push_scope(&mut self, name: Vec<u8>, is_singleton: bool)
        ensures
            final(self)@ == (VState { scopes: old(self)@.scopes.push((name@, is_singleton)), ..old(self)@ }),
    {
        let ghost st = self@;
        self.scope_stack.push(ScopeEntry { name, is_singleton });
        assert(scopes_view(self.scope_stack@) =~= st.scopes.push((name@, is_singleton)));
    }

    fn pop_scope(&mut self)
        requires
            old(self)@.scopes.len() > 0,
        ensures
            final(self)@ == (VState { scopes: old(self)@.scopes.drop_last(), ..old(self)@ }),
    {
        let ghost st = self@;
        let _ = self.scope_stack.pop();
        assert(scopes_view(self.scope_stack@) =~= st.scopes.drop_last());
    }

    /// Sets whether the innermost scope is a singleton scope.
    fn set_top_singleton(&mut self, is_singleton: bool)
        requires
            old(self)@.scopes.len() > 0,
        ensures
            final(self)@ == (VState {
                scopes: old(self)@.scopes.update(
                    old(self)@.scopes.len() - 1,
                    (old(self)@.scopes.last().0, is_singleton),
                ),
                ..old(self)@
            }),
    {
        let ghost st = self@;
        let mut e = self.scope_stack.pop().unwrap();
        e.is_singleton = is_singleton;
        self.scope_stack.push(e);
        assert(scopes_view(self.scope_stack@) =~= st.scopes.update(
            st.scopes.len() - 1,
            (st.scopes.last().0, is_singleton),
        ));
    }

    fn visit_def(&mut self, node: &Node)
        ensures
            final(self)@ == spec_visit_def(*node, old(self)@),
        decreases node, 0int,
    {
        match node {
            Node::Def { name, receiver, body, line, keyword, source } => {
                self.process_def(name.as_slice(), receiver, *line, *keyword, source.as_slice());
                let ghost st1 = self@;
                self.def_stack.push(vstd::slice::slice_to_vec(name.as_slice()));
                assert(views(self.def_stack@) =~= st1.def_stack.push(name@));
                let ghost st1b = self@;
                self.visit_opt(body);
                proof {
                    lemma_visit_opt_context(*body, st1b);
                }
                let ghost st2 = self@;
                let _ = self.def_stack.pop();
                assert(views(self.def_stack@) =~= st2.def_stack.drop_last());
            },
            _ => {},
        }
    }

    fn visit_sclass(&mut self, node: &Node)
        ensures
            final(self)@ == spec_visit_sclass(*node, old(self)@),
        decreases node, 0int,
    {
        match node {
            Node::SingletonClass { expression, body } => match &**expression {
                Node::SelfNode => {
                    if self.scope_stack.len() > 0 {
                        let was = self.scope_stack[self.scope_stack.len() - 1].is_singleton;
                        self.set_top_singleton(true);
                        let ghost st1 = self@;
                        self.visit_opt(body);
                        proof {
                            lemma_visit_opt_context(*body, st1);
                        }
                        self.set_top_singleton(was);
                    } else {
                        self.push_scope(crate::diagnostic::message("Object"), true);
                        let ghost st1 = self@;
                        self.visit_opt(body);
                        proof {
                            lemma_visit_opt_context(*body, st1);
                        }
                        self.pop_scope();
                    }
                },
                Node::ConstantRead { .. } | Node::ConstantPath { .. } => {
                    let mut scope_name = crate::diagnostic::message("#<Class:");
                    let const_name = class_or_module_name_from_constant(&**expression);
                    append(&mut scope_name, const_name.as_slice());
                    scope_name.push(GREATER_THAN);
                    assert(scope_name@ =~= lit("#<Class:") + spec_class_name(*(*expression)) + seq![GREATER_THAN]);
                    let mut scopes: Vec<ScopeEntry> = Vec::new();
                    scopes.push(ScopeEntry { name: scope_name, is_singleton: false });
                    assert(scopes_view(scopes@) =~= seq![(lit("#<Class:") + spec_class_name(*(*expression)) + seq![GREATER_THAN], false)]);
                    let saved = self.swap_scopes(scopes);
                    self.visit_opt(body);
                    let _ = self.swap_scopes(saved);
                },
                Node::Call { name, .. } => {
                    let mut scopes: Vec<ScopeEntry> = Vec::new();
                    scopes.push(ScopeEntry { name: vstd::slice::slice_to_vec(name.as_slice()), is_singleton: true });
                    assert(scopes_view(scopes@) =~= seq![(name@, true)]);
                    let saved = self.swap_scopes(scopes);
                    self.visit_opt(body);
                    self.collect_defs_from_sclass_expr(&**expression);
                    let _ = self.swap_scopes(saved);
                },
                _ => {
                    let was = self.in_plain_block;
                    self.in_plain_block = true;
                    self.visit_opt(body);
                    self.in_plain_block = was;
                },
            },
            _ => {},
        }
    }

    fn visit_call(&mut self, node: &Node)
        ensures
            final(self)@ == spec_visit_call(*node, old(self)@),
        decreases node, 0int,
    {
        match node {
            Node::Call { name, receiver, arguments, block, line, location } => {
                if is_visibility_def(name.as_slice(), arguments) {
                    match arguments {
                        Some(args) => self.visit_def(&args[0]),
                        None => {},
                    }
                    return;
                }
                match scope_creating_call_name(name.as_slice(), receiver, block.is_some()) {
                    Some(ScopeKind::Implicit) => {
                        self.visit_opt(block);
                    },
                    Some(ScopeKind::Anonymous) => {
                        let ghost st = self@;
                        let mut saved_defs: Vec<(Vec<u8>, usize)> = Vec::new();
                        std::mem::swap(&mut self.definitions, &mut saved_defs);
                        let mut scopes: Vec<ScopeEntry> = Vec::new();
                        scopes.push(ScopeEntry { name: crate::diagnostic::message("__anonymous__"), is_singleton: false });
                        let saved_scopes = self.swap_scopes(scopes);
                        assert(self@ =~= VState { defs: seq![], scopes: seq![(lit("__anonymous__"), false)], ..st });
                        self.visit_opt(block);
                        std::mem::swap(&mut self.definitions, &mut saved_defs);
                        let _ = self.swap_scopes(saved_scopes);
                    },
                    Some(ScopeKind::Named(n)) => {
                        self.push_scope(n, false);
                        let ghost st1 = self@;
                        self.visit_opt(block);
                        proof {
                            lemma_visit_opt_context(*block, st1);
                        }
                        self.pop_scope();
                    },
                    None => {
                        self.process_call(name.as_slice(), receiver, arguments, *line, *location);
                        self.visit_opt(receiver);
                        match arguments {
                            Some(args) => self.visit_seq(args),
                            None => {},
                        }
                        match block {
                            Some(b) => {
                                let was = self.in_plain_block;
                                self.in_plain_block = true;
                                self.visit(&**b);
                                self.in_plain_block = was;
                            },
                            None => {},
                        }
                    },
                }
            },
            _ => {},
        }
    }

    /// Walks `node`, recording the definitions it holds.
    pub fn visit(&mut self, node: &Node)
        ensures
            final(self)@ == spec_visit(*node, old(self)@),
        decreases node, 1int,
    {
        match node {
            Node::Class { constant_path, body } | Node::Module { constant_path, body } => {
                let name = class_or_module_name_from_constant(&**constant_path);
                self.push_scope(name, false);
                let ghost st1 = self@;
                self.visit_opt(body);
                proof {
                    lemma_visit_opt_context(*body, st1);
                }
                self.pop_scope();
            },
            Node::SingletonClass { .. } => self.visit_sclass(node),
            Node::Def { .. } => self.visit_def(node),
            Node::AliasMethod { new_name, old_name, line, location } => {
                self.process_alias(&**new_name, &**old_name, *line, *location);
            },
            Node::Call { .. } => self.visit_call(node),
            Node::ConstantWrite { name, value } => {
                let opens = match &**value {
                    Node::Call { name: call_name, receiver, block, .. } => eq_lit(call_name.as_slice(), "new")
                        && block.is_some() && is_class_or_module_const(receiver),
                    _ => false,
                };
                if opens {
                    match &**value {
                        Node::Call { block, .. } => {
                            self.push_scope(vstd::slice::slice_to_vec(name.as_slice()), false);
                            let ghost st1 = self@;
                            self.visit_opt(block);
                            proof {
                                lemma_visit_opt_context(*block, st1);
                            }
                            self.pop_scope();
                        },
                        _ => {},
                    }
                } else {
                    self.visit(&**value);
                }
            },
            Node::ConstantPath { parent, .. } => self.visit_opt(parent),
            Node::KeywordHash { elements } => self.visit_seq(elements),
            Node::Assoc { key, value } => {
                self.visit(&**key);
                self.visit(&**value);
            },
            Node::If { children } | Node::Unless { children } => {
                let was = self.in_if;
                self.in_if = true;
                self.visit_seq(children);
                self.in_if = was;
            },
            Node::Rescue { children } => {
                self.enter_rescue_or_ensure(RescueEnsureType::Rescue, children);
            },
            Node::Ensure { children } => {
                self.enter_rescue_or_ensure(RescueEnsureType::Ensure, children);
            },
            Node::Other { children } => self.visit_seq(children),
            _ => {},
        }
    }

    fn enter_rescue_or_ensure(&mut self, t: RescueEnsureType, children: &Vec<Node>)
        ensures
            ({
                let st = old(self)@;
                let st2 = spec_visit_seq(
                    children@,
                    0,
                    VState { in_rescue_or_ensure: true, types: st.types.push(t), ..st },
                );
                final(self)@ == VState { in_rescue_or_ensure: st.in_rescue_or_ensure, types: st2.types.drop_last(), ..st2 }
            }),
        decreases children, 1int,
    {
        let was = self.in_rescue_or_ensure;
        self.in_rescue_or_ensure = true;
        self.rescue_ensure_type_stack.push(t);
        let ghost st1 = self@;
        self.visit_seq(children);
        proof {
            lemma_visit_seq_context(children@, 0, st1);
        }
        let _ = self.rescue_ensure_type_stack.pop();
        self.in_rescue_or_ensure = was;
    }

    fn visit_opt(&mut self, node: &Option<Box<Node>>)
        ensures
            final(self)@ == spec_visit_opt(*node, old(self)@),
        decreases node, 2int,
    {
        match node {
            Some(n) => self.visit(&**n),
            None => {},
        }
    }

    fn visit_seq(&mut self, nodes: &Vec<Node>)
        ensures
            final(self)@ == spec_visit_seq(nodes@, 0, old(self)@),
        decreases nodes, 0int,
    {
        let ghost st0 = self@;
        let mut i: usize = 0;
        while i < nodes.len()
            invariant
                i <= nodes@.len(),
                spec_visit_seq(nodes@, i as int, self@) == spec_visit_seq(nodes@, 0, st0),
            decreases nodes@.len() - i,
        {
            self.visit(&nodes[i]);
            i = i + 1;
        }
    }
}

} // verus!

verus! {

/// Reports duplicated method definitions.
pub struct DuplicateMethods;

/// The state before the walk.
pub open spec fn initial_state(path: Seq<u8>, active_support: bool) -> VState {
    VState {
        defs: seq![],
        scopes: seq![],
        def_stack: seq![],
        in_if: false,
        in_plain_block: false,
        in_rescue_or_ensure: false,
        rescue_forgiven: seq![],
        ensure_forgiven: seq![],
        types: seq![],
        active_support,
        path,
        diags: seq![],
    }
}

impl DuplicateMethods {
    pub fn name(&self) -> (r: &'static str)
        ensures
            r@ == "Lint/DuplicateMethods"@,
    {
        "Lint/DuplicateMethods"
    }

    /// Walks the program `root` of the file at `path` and reports each
    /// definition of a method that is already defined in the same scope.
    /// With `active_support_extensions`, `delegate` defines methods too.
    pub fn check_source(&self, root: &Node, path: &[u8], active_support_extensions: bool) -> (r: Vec<Diagnostic>)
        ensures
            diags_view(r@) == spec_visit(*root, initial_state(path@, active_support_extensions)).diags,
    {
        let mut visitor = DupMethodVisitor {
            definitions: Vec::new(),
            scope_stack: Vec::new(),
            def_stack: Vec::new(),
            in_if: false,
            in_plain_block: false,
            in_rescue_or_ensure: false,
            rescue_forgiven: Vec::new(),
            ensure_forgiven: Vec::new(),
            rescue_ensure_type_stack: Vec::new(),
            active_support_extensions,
            path: vstd::slice::slice_to_vec(path),
            diagnostics: Vec::new(),
        };
        assert(visitor@ =~= initial_state(path@, active_support_extensions));
        visitor.visit(root);
        visitor.diagnostics
    }
}

// ---------------------------------------------------------------------
// Laws.
// ---------------------------------------------------------------------

/// A method key met for the first time is remembered with its line and
/// reported nowhere.
pub proof fn lemma_first_definition_not_reported(st: VState, key: Seq<u8>, q: Seq<u8>, line: usize, loc: Location, forgiving: bool)
    requires
        assoc_get(st.defs, key) is None,
    ensures
        spec_record(st, key, q, line, loc, forgiving).diags == st.diags,
        assoc_get(spec_record(st, key, q, line, loc, forgiving).defs, key) == Some(line),
    decreases st.defs.len(),
{
    lemma_assoc_put_get(st.defs, key, line);
}

proof fn lemma_assoc_put_get(defs: Seq<(Seq<u8>, usize)>, key: Seq<u8>, v: usize)
    ensures
        assoc_get(assoc_put(defs, key, v), key) == Some(v),
    decreases defs.len(),
{
    if defs.len() > 0 && defs[0].0 != key {
        lemma_assoc_put_get(defs.drop_first(), key, v);
        assert(assoc_put(defs, key, v).drop_first() =~= assoc_put(defs.drop_first(), key, v));
    }
}

/// A second definition of a known key outside rescue and ensure clauses
/// is reported once, with a message naming the first line, and the first
/// line stays remembered.
pub proof fn lemma_redefinition_reported(st: VState, key: Seq<u8>, q: Seq<u8>, line: usize, loc: Location, first: usize)
    requires
        assoc_get(st.defs, key) == Some(first),
        !st.in_rescue_or_ensure,
    ensures
        spec_record(st, key, q, line, loc, true).diags == st.diags.push(
            (loc, duplicate_message(q, st.path, first, loc.line), false),
        ),
        spec_record(st, key, q, line, loc, true).defs == st.defs,
{
}

/// Outside rescue and ensure clauses, defining a method that the scope
/// does not know yet reports nothing, and defining it again in the same
/// scope reports it once, naming the line of the first definition, which
/// stays remembered.
pub proof fn law_method_defined_twice_reported(
    st: VState,
    name: Seq<u8>,
    is_singleton: bool,
    line1: usize,
    loc1: Location,
    line2: usize,
    loc2: Location,
)
    requires
        !st.in_rescue_or_ensure,
        assoc_get(
            st.defs,
            spec_method_key(st.def_stack, spec_qualified_method_name(st.scopes, name, is_singleton)),
        ) is None,
    ensures
        ({
            let q = spec_qualified_method_name(st.scopes, name, is_singleton);
            let key = spec_method_key(st.def_stack, q);
            let st1 = spec_found_method(st, name, is_singleton, line1, loc1);
            let st2 = spec_found_method(st1, name, is_singleton, line2, loc2);
            &&& st1.diags == st.diags
            &&& st2.diags == st.diags.push((loc2, duplicate_message(q, st.path, line1, loc2.line), false))
            &&& assoc_get(st2.defs, key) == Some(line1)
        }),
{
    let q = spec_qualified_method_name(st.scopes, name, is_singleton);
    let key = spec_method_key(st.def_stack, q);
    lemma_first_definition_not_reported(st, key, q, line1, loc1, true);
    let st1 = spec_found_method(st, name, is_singleton, line1, loc1);
    lemma_redefinition_reported(st1, key, q, line2, loc2, line1);
}

/// Inside rescue clauses, the first redefinition of each key is forgiven
/// (and remembered as the new definition); a later one, in any rescue
/// clause, is reported.
pub proof fn lemma_rescue_forgives_once(st: VState, key: Seq<u8>, q: Seq<u8>, line1: usize, loc1: Location, line2: usize, loc2: Location, first: usize)
    requires
        assoc_get(st.defs, key) == Some(first),
        st.in_rescue_or_ensure,
        st.types.len() > 0,
        st.types.last() == RescueEnsureType::Rescue,
        !st.rescue_forgiven.contains(key),
    ensures
        ({
            let st1 = spec_record(st, key, q, line1, loc1, true);
            let st2 = spec_record(st1, key, q, line2, loc2, true);
            &&& st1.diags == st.diags
            &&& st2.diags == st.diags.push(
                (loc2, duplicate_message(q, st.path, line1, loc2.line), false),
            )
        }),
{
    let st1 = spec_record(st, key, q, line1, loc1, true);
    lemma_assoc_put_get(st.defs, key, line1);
    assert(st1.rescue_forgiven.contains(key)) by {
        assert(st1.rescue_forgiven[st1.rescue_forgiven.len() - 1] == key);
    }
}


/// Outside conditionals and plain blocks, a receiverless `attr_reader :n`
/// defines the reader `n`, `attr_writer :n` the writer `n=`, and
/// `attr_accessor :n` both, each recorded in the current scope as a
/// `def` of that name would be.
pub proof fn law_attribute_macros_define_methods(st: VState, args: Vec<Node>, n: Seq<u8>, line: usize, loc: Location)
    requires
        !st.in_if,
        !st.in_plain_block,
        args@.len() == 1,
        args@[0] matches Node::Symbol { unescaped } && unescaped@ == n,
    ensures
        ({
            let single = spec_in_singleton_scope(st.scopes);
            let setter = n + "=".spec_bytes();
            &&& spec_process_call(st, "attr_reader".spec_bytes(), None, Some(args), line, loc)
                == spec_found_method(st, n, single, line, loc)
            &&& spec_process_call(st, "attr_writer".spec_bytes(), None, Some(args), line, loc)
                == spec_found_method(st, setter, single, line, loc)
            &&& spec_process_call(st, "attr_accessor".spec_bytes(), None, Some(args), line, loc)
                == spec_found_method(spec_found_method(st, n, single, line, loc), setter, single, line, loc)
        }),
{
    reveal_strlit("alias_method");
    vstd::string::is_ascii_spec_bytes("alias_method");
    reveal_strlit("attr_reader");
    vstd::string::is_ascii_spec_bytes("attr_reader");
    reveal_strlit("attr_writer");
    vstd::string::is_ascii_spec_bytes("attr_writer");
    reveal_strlit("attr_accessor");
    vstd::string::is_ascii_spec_bytes("attr_accessor");
    reveal_strlit("=");
    vstd::string::is_ascii_spec_bytes("=");
    assert("=".spec_bytes() =~= seq![EQUALS]);
    assert(lit("attr_reader") != lit("alias_method"));
    assert(lit("attr_writer") != lit("alias_method"));
    assert(lit("attr_writer")[5] != lit("attr_reader")[5]);
    assert(lit("attr_writer") != lit("attr_reader"));
    assert(lit("attr_accessor") != lit("alias_method"));
    assert(lit("attr_accessor") != lit("attr_reader"));
    assert(lit("attr_accessor") != lit("attr_writer"));
    let single = spec_in_singleton_scope(st.scopes);
    let setter = n + "=".spec_bytes();
    assert(spec_symbol_or_string(args@[0]) == Some(n));
    let r = spec_found_method(st, n, single, line, loc);
    let w = spec_found_method(st, setter, single, line, loc);
    let rw = spec_found_method(r, setter, single, line, loc);
    assert(spec_attrs(r, args@, 1, true, false, single, line, loc) == r);
    assert(spec_attrs(w, args@, 1, false, true, single, line, loc) == w);
    assert(spec_attrs(rw, args@, 1, true, true, single, line, loc) == rw);
    assert(spec_attrs(st, args@, 0, true, false, single, line, loc) == r);
    assert(spec_attrs(st, args@, 0, false, true, single, line, loc) == w);
    assert(spec_attrs(st, args@, 0, true, true, single, line, loc) == rw);
}

/// A method that `attr_reader :n` defined and a later `def n` defines
/// again in the same scope is reported once, at the `def`, naming the line
/// of the `attr_reader` as the first definition.
pub proof fn law_def_after_attr_reader_reported(
    st: VState,
    args: Vec<Node>,
    n: Seq<u8>,
    line1: usize,
    loc1: Location,
    line2: usize,
    keyword: Location,
    source: Seq<u8>,
)
    requires
        !st.in_if,
        !st.in_plain_block,
        !st.in_rescue_or_ensure,
        args@.len() == 1,
        args@[0] matches Node::Symbol { unescaped } && unescaped@ == n,
        assoc_get(
            st.defs,
            spec_method_key(st.def_stack, spec_qualified_method_name(st.scopes, n, spec_in_singleton_scope(st.scopes))),
        ) is None,
    ensures
        ({
            let q = spec_qualified_method_name(st.scopes, n, spec_in_singleton_scope(st.scopes));
            let st1 = spec_process_call(st, "attr_reader".spec_bytes(), None, Some(args), line1, loc1);
            let st2 = spec_process_def(st1, n, None, line2, keyword, source);
            &&& st1.diags == st.diags
            &&& st2.diags == st.diags.push((keyword, duplicate_message(q, st.path, line1, keyword.line), false))
        }),
{
    let single = spec_in_singleton_scope(st.scopes);
    law_attribute_macros_define_methods(st, args, n, line1, loc1);
    let q = spec_qualified_method_name(st.scopes, n, single);
    let key = spec_method_key(st.def_stack, q);
    lemma_record_context(st, key, q, line1, loc1, true);
    law_method_defined_twice_reported(st, n, single, line1, loc1, line2, keyword);
}


/// Outside conditionals and plain blocks, the receiverless calls that
/// define methods record them in the current scope as `def` would:
/// `alias_method :new, :old` the method `new` (when the names differ),
/// `attr :n` the reader `n`, `def_delegator :target, :m` (or
/// `def_instance_delegator`) the method `m`, and `def_delegators :target,
/// :m` (or `def_instance_delegators`) the method `m`.
pub proof fn law_method_defining_calls(st: VState, args: Vec<Node>, a: Seq<u8>, b: Seq<u8>, line: usize, loc: Location)
    requires
        !st.in_if,
        !st.in_plain_block,
    ensures
        ({
            let single = spec_in_singleton_scope(st.scopes);
            &&& args@.len() == 2 && (args@[0] matches Node::Symbol { unescaped } && unescaped@ == a)
                && (args@[1] matches Node::Symbol { unescaped } && unescaped@ == b) ==> {
                &&& a != b ==> spec_process_call(st, "alias_method".spec_bytes(), None, Some(args), line, loc)
                    == spec_found_method(st, a, single, line, loc)
                &&& spec_process_call(st, "def_delegator".spec_bytes(), None, Some(args), line, loc)
                    == spec_found_method(st, b, single, line, loc)
                &&& spec_process_call(st, "def_instance_delegator".spec_bytes(), None, Some(args), line, loc)
                    == spec_found_method(st, b, single, line, loc)
                &&& spec_process_call(st, "def_delegators".spec_bytes(), None, Some(args), line, loc)
                    == spec_found_method(st, b, single, line, loc)
                &&& spec_process_call(st, "def_instance_delegators".spec_bytes(), None, Some(args), line, loc)
                    == spec_found_method(st, b, single, line, loc)
            }
            &&& args@.len() == 1 && (args@[0] matches Node::Symbol { unescaped } && unescaped@ == a)
                ==> spec_process_call(st, "attr".spec_bytes(), None, Some(args), line, loc)
                == spec_found_method(st, a, single, line, loc)
        }),
{
    reveal_strlit("alias_method");
    vstd::string::is_ascii_spec_bytes("alias_method");
    reveal_strlit("attr_reader");
    vstd::string::is_ascii_spec_bytes("attr_reader");
    reveal_strlit("attr_writer");
    vstd::string::is_ascii_spec_bytes("attr_writer");
    reveal_strlit("attr_accessor");
    vstd::string::is_ascii_spec_bytes("attr_accessor");
    reveal_strlit("attr");
    vstd::string::is_ascii_spec_bytes("attr");
    reveal_strlit("def_delegator");
    vstd::string::is_ascii_spec_bytes("def_delegator");
    reveal_strlit("def_instance_delegator");
    vstd::string::is_ascii_spec_bytes("def_instance_delegator");
    reveal_strlit("def_delegators");
    vstd::string::is_ascii_spec_bytes("def_delegators");
    reveal_strlit("def_instance_delegators");
    vstd::string::is_ascii_spec_bytes("def_instance_delegators");
    reveal_strlit("delegate");
    vstd::string::is_ascii_spec_bytes("delegate");
    assert("attr_reader".spec_bytes()[5] != "attr_writer".spec_bytes()[5]);
    assert("attr_accessor".spec_bytes()[0] != "def_delegator".spec_bytes()[0]);
    let single = spec_in_singleton_scope(st.scopes);
    if args@.len() == 2 && (args@[0] matches Node::Symbol { unescaped } && unescaped@ == a)
        && (args@[1] matches Node::Symbol { unescaped } && unescaped@ == b) {
        let fb = spec_found_method(st, b, single, line, loc);
        assert(spec_symbol_or_string(args@[1]) == Some(b));
        assert(spec_found_names(fb, args@, 2, 2, None, single, line, loc) == fb);
        assert(spec_found_names(st, args@, 1, 2, None, single, line, loc) == fb);
    }
}


/// `private def ...`, `protected def ...` and `public def ...` (one
/// argument, a definition) define the method as `def` alone does; no other
/// call does.
pub proof fn law_visibility_defs(name: Seq<u8>, arguments: Option<Vec<Node>>)
    ensures
        spec_is_visibility_def(name, arguments) <==> ((name == "private".spec_bytes() || name == "protected".spec_bytes()
            || name == "public".spec_bytes()) && (arguments matches Some(args) && args@.len() == 1 && args@[0] is Def)),
{
}

/// A block passed to `class_eval` opens the scope of its receiver (or
/// the current one without receiver), and one passed to `new` on a class
/// or module constant opens an anonymous scope; other calls open none.
pub proof fn law_scope_creating_calls(name: Seq<u8>, receiver: Option<Box<Node>>, has_block: bool)
    ensures
        name == "class_eval".spec_bytes() && has_block && receiver is None
            ==> spec_scope_creating(name, receiver, has_block) == Some(ScopeCreation::Implicit),
        name == "new".spec_bytes() && has_block && (receiver matches Some(r) && spec_is_class_or_module_const(*r))
            ==> spec_scope_creating(name, receiver, has_block) == Some(ScopeCreation::Anonymous),
        !(name == "class_eval".spec_bytes() || name == "new".spec_bytes()) || !has_block
            ==> spec_scope_creating(name, receiver, has_block) is None,
{
    reveal_strlit("class_eval");
    vstd::string::is_ascii_spec_bytes("class_eval");
    reveal_strlit("new");
    vstd::string::is_ascii_spec_bytes("new");
}

} // verus!
