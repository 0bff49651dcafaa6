//! Lint/Debugger: calls that enter a debugger or dump a page, and
//! `require` of a debugger entry point.
use vstd::prelude::*;
use vstd::string::StringSliceAdditionalSpecFns;
use crate::ascii::{AMP, COLON, COMMA, DOT, EQUALS, LBRACKET, LPAREN};
use crate::bytes::append;
use crate::diagnostic::{message, Diagnostic, Location};
use crate::text::{bytes_eq, contains_bytes, is_utf8, offset_to_line_col, spec_is_blank, spec_line_col, utf8_valid, SPACE, TAB};

verus! {

pub struct Debugger;

/// What the cop reads of a node: calls with their receivers, and the
/// constants that can be receivers.
pub enum DebugNode {
    /// A method call: its name, its receiver, whether it has arguments or
    /// a block, the value of its argument when that is a single string
    /// literal, and its span.
    Call {
        name: Vec<u8>,
        receiver: Option<Box<DebugNode>>,
        has_arguments: bool,
        has_block: bool,
        sole_string_argument: Option<Vec<u8>>,
        start: usize,
        end: usize,
    },
    /// A constant such as `Kernel`.
    ConstantRead { name: Vec<u8> },
    /// A constant path such as `Foo::Kernel`, with its last name.
    ConstantPath { name: Option<Vec<u8>> },
    Other,
}

#[verifier::opaque]
pub open spec fn default_debugger_methods() -> Seq<Seq<u8>> {
    seq![
        "binding.irb".spec_bytes(), "Kernel.binding.irb".spec_bytes(), "byebug".spec_bytes(),
        "remote_byebug".spec_bytes(), "Kernel.byebug".spec_bytes(), "Kernel.remote_byebug".spec_bytes(),
        "page.save_and_open_page".spec_bytes(), "page.save_and_open_screenshot".spec_bytes(),
        "page.save_page".spec_bytes(), "page.save_screenshot".spec_bytes(), "save_and_open_page".spec_bytes(),
        "save_and_open_screenshot".spec_bytes(), "save_page".spec_bytes(), "save_screenshot".spec_bytes(),
        "binding.b".spec_bytes(), "binding.break".spec_bytes(), "Kernel.binding.b".spec_bytes(),
        "Kernel.binding.break".spec_bytes(), "binding.pry".spec_bytes(), "binding.remote_pry".spec_bytes(),
        "binding.pry_remote".spec_bytes(), "Kernel.binding.pry".spec_bytes(), "Kernel.binding.remote_pry".spec_bytes(),
        "Kernel.binding.pry_remote".spec_bytes(), "Pry.rescue".spec_bytes(), "pry".spec_bytes(),
        "debugger".spec_bytes(), "Kernel.debugger".spec_bytes(), "jard".spec_bytes(), "binding.console".spec_bytes()
    ]
}

pub open spec fn default_debugger_requires() -> Seq<Seq<u8>> {
    seq!["debug/open".spec_bytes(), "debug/start".spec_bytes()]
}

/// The last `.` among the first `n` bytes of `s`.
pub open spec fn last_dot_before(s: Seq<u8>, n: int) -> Option<int>
    decreases n,
{
    if n <= 0 {
        None
    } else if s[n - 1] == DOT {
        Some(n - 1)
    } else {
        last_dot_before(s, n - 1)
    }
}

pub open spec fn last_dot(s: Seq<u8>) -> Option<int> {
    last_dot_before(s, s.len() as int)
}

pub proof fn lemma_last_dot_before_bounds(s: Seq<u8>, n: int)
    ensures
        last_dot_before(s, n) matches Some(d) ==> 0 <= d < n,
    decreases n,
{
    if n > 0 && s[n - 1] != DOT {
        lemma_last_dot_before_bounds(s, n - 1);
    }
}

/// The method name a spec such as `Kernel.binding.irb` ends in.
pub open spec fn leaf(spec: Seq<u8>) -> Seq<u8> {
    match last_dot(spec) {
        Some(d) => spec.subrange(d + 1, spec.len() as int),
        None => spec,
    }
}

/// A receiver named `name`: a call without receiver, or a constant.
pub open spec fn single_name_match(recv: DebugNode, name: Seq<u8>) -> bool {
    match recv {
        DebugNode::Call { name: n, receiver, .. } => n@ == name && receiver is None,
        DebugNode::ConstantRead { name: n } => n@ == name,
        DebugNode::ConstantPath { name: n } => n matches Some(x) && x@ == name,
        DebugNode::Other => false,
    }
}

/// Whether a call matches a spec `a.b.c`: its name is `c` and its
/// receiver matches `a.b`; a spec without `.` asks for no receiver.
pub open spec fn matches_spec(node: DebugNode, spec: Seq<u8>) -> bool
    decreases spec.len(),
{
    match node {
        DebugNode::Call { name, receiver, .. } => match last_dot(spec) {
            None => name@ == spec && receiver is None,
            Some(d) => {
                proof {
                    lemma_last_dot_before_bounds(spec, spec.len() as int);
                }
                let rest = spec.subrange(0, d);
                name@ == spec.subrange(d + 1, spec.len() as int) && match receiver {
                    None => false,
                    Some(r) => if last_dot(rest) is None {
                        single_name_match(*r, rest)
                    } else {
                        (*r is Call) && matches_spec(*r, rest)
                    },
                }
            },
        },
        _ => false,
    }
}

/// The last byte before `offset` that is no space or tab.
pub open spec fn spec_prev_non_space(s: Seq<u8>, offset: int) -> Option<u8>
    decreases offset,
{
    if offset <= 0 {
        None
    } else if spec_is_blank(s[offset - 1]) {
        spec_prev_non_space(s, offset - 1)
    } else {
        Some(s[offset - 1])
    }
}

/// A bare call used as a value: a receiver, an argument or an element.
pub open spec fn assumed_usage_context(s: Seq<u8>, node: DebugNode) -> bool {
    match node {
        DebugNode::Call { has_arguments, has_block, start, end, .. } => {
            !(has_arguments || has_block) && ((end < s.len() && (s[end as int] == DOT || s[end as int] == AMP)) || match spec_prev_non_space(s, start as int) {
                Some(p) => p == LPAREN || p == COMMA || p == LBRACKET || p == EQUALS || p == COLON,
                None => false,
            })
        },
        _ => false,
    }
}

/// The index of the first spec whose leaf is the call's name and that the
/// call matches.
pub open spec fn first_spec_match(node: DebugNode, specs: Seq<Seq<u8>>, k: int) -> Option<int>
    decreases specs.len() - k,
{
    if k >= specs.len() || k < 0 {
        None
    } else if (node matches DebugNode::Call { name, .. } && leaf(specs[k]) == name@) && matches_spec(node, specs[k]) {
        Some(k)
    } else {
        first_spec_match(node, specs, k + 1)
    }
}

/// The source text of `[a, b)` when it is UTF-8, else `fallback`.
pub open spec fn text_or(s: Seq<u8>, a: int, b: int, fallback: Seq<u8>) -> Seq<u8> {
    if is_utf8(s.subrange(a, b)) {
        s.subrange(a, b)
    } else {
        fallback
    }
}

pub open spec fn debugger_message(text: Seq<u8>) -> Seq<u8> {
    "Remove debugger entry point `".spec_bytes() + text + "`.".spec_bytes()
}

/// Whether `name` is the leaf of one of the default debugger methods.
pub open spec fn is_default_leaf(name: Seq<u8>) -> bool {
    is_leaf_of_any(default_debugger_methods(), name)
}

pub open spec fn is_leaf_of_any(specs: Seq<Seq<u8>>, name: Seq<u8>) -> bool {
    exists|k: int| 0 <= k < specs.len() && leaf(#[trigger] specs[k]) == name
}

/// The offense of `require 'x'` when `x` is a debugger entry point.
pub open spec fn require_offense(s: Seq<u8>, sole: Option<Seq<u8>>, start: int, end: int, entry_points: Option<Seq<Seq<u8>>>) -> Option<(int, Seq<u8>)> {
    match sole {
        Some(v) => {
            let matched = match entry_points {
                Some(r) => r.contains(v),
                None => default_debugger_requires().contains(v),
            };
            if matched {
                Some((start, debugger_message(text_or(s, start, end, "require".spec_bytes()))))
            } else {
                None
            }
        },
        None => None,
    }
}

/// The offense of a call that matches a debugger method spec.
pub open spec fn method_offense(s: Seq<u8>, node: DebugNode, start: int, end: int, specs: Seq<Seq<u8>>) -> Option<(int, Seq<u8>)> {
    match first_spec_match(node, specs, 0) {
        Some(k) => if last_dot(specs[k]) is None && assumed_usage_context(s, node) {
            None
        } else {
            Some((start, debugger_message(text_or(s, start, end, "debugger".spec_bytes()))))
        },
        None => None,
    }
}

pub open spec fn opt_bytes(o: Option<Vec<u8>>) -> Option<Seq<u8>> {
    match o {
        Some(v) => Some(v@),
        None => None,
    }
}

/// Where the cop reports the node and with which message, if it does.
/// `methods` and `requires` are the configured `DebuggerMethods` and
/// `DebuggerRequires`, when they are set.
pub open spec fn debugger_offense(s: Seq<u8>, node: DebugNode, methods: Option<Seq<Seq<u8>>>, entry_points: Option<Seq<Seq<u8>>>) -> Option<(int, Seq<u8>)> {
    match node {
        DebugNode::Call { name, receiver, sole_string_argument, start, end, .. } => {
            if name@ == "require".spec_bytes() && receiver is None {
                require_offense(s, opt_bytes(sole_string_argument), start as int, end as int, entry_points)
            } else if is_default_leaf(name@) {
                method_offense(s, node, start as int, end as int, match methods {
                    Some(m) => m,
                    None => default_debugger_methods(),
                })
            } else {
                None
            }
        },
        _ => None,
    }
}

fn default_methods() -> (r: Vec<&'static str>)
    ensures
        r@.len() == default_debugger_methods().len(),
        forall|k: int| 0 <= k < r@.len() ==> (#[trigger] r@[k]).spec_bytes() == default_debugger_methods()[k],
{
    reveal(default_debugger_methods);
    vec![
        "binding.irb", "Kernel.binding.irb", "byebug", "remote_byebug", "Kernel.byebug", "Kernel.remote_byebug",
        "page.save_and_open_page", "page.save_and_open_screenshot", "page.save_page", "page.save_screenshot",
        "save_and_open_page", "save_and_open_screenshot", "save_page", "save_screenshot", "binding.b",
        "binding.break", "Kernel.binding.b", "Kernel.binding.break", "binding.pry", "binding.remote_pry",
        "binding.pry_remote", "Kernel.binding.pry", "Kernel.binding.remote_pry", "Kernel.binding.pry_remote",
        "Pry.rescue", "pry", "debugger", "Kernel.debugger", "jard", "binding.console",
    ]
}

fn last_dot_exec(s: &[u8]) -> (r: Option<usize>)
    ensures
        match r {
            Some(d) => last_dot(s@) == Some(d as int) && d < s@.len(),
            None => last_dot(s@) is None,
        },
{
    proof {
        lemma_last_dot_before_bounds(s@, s@.len() as int);
    }
    let mut n = s.len();
    while n > 0
        invariant
            n <= s@.len(),
            last_dot_before(s@, n as int) == last_dot(s@),
        decreases n,
    {
        if s[n - 1] == DOT {
            return Some(n - 1);
        }
        n = n - 1;
    }
    None
}

fn leaf_exec(spec: &[u8]) -> (r: &[u8])
    ensures
        r@ == leaf(spec@),
{
    let n = spec.len();
    match last_dot_exec(spec) {
        Some(d) => &spec[d + 1..n],
        None => spec,
    }
}

fn single_name_match_exec(recv: &DebugNode, name: &[u8]) -> (r: bool)
    ensures
        r == single_name_match(*recv, name@),
{
    match recv {
        DebugNode::Call { name: n, receiver, .. } => bytes_eq(n.as_slice(), name) && receiver.is_none(),
        DebugNode::ConstantRead { name: n } => bytes_eq(n.as_slice(), name),
        DebugNode::ConstantPath { name: n } => match n {
            Some(x) => bytes_eq(x.as_slice(), name),
            None => false,
        },
        DebugNode::Other => false,
    }
}

fn matches_spec_exec(node: &DebugNode, spec: &[u8]) -> (r: bool)
    ensures
        r == matches_spec(*node, spec@),
    decreases spec@.len(),
{
    match node {
        DebugNode::Call { name, receiver, .. } => match last_dot_exec(spec) {
            None => bytes_eq(name.as_slice(), spec) && receiver.is_none(),
            Some(d) => {
                let n = spec.len();
                let rest = &spec[0..d];
                if !bytes_eq(name.as_slice(), &spec[d + 1..n]) {
                    return false;
                }
                match receiver {
                    None => false,
                    Some(r) => {
                        if last_dot_exec(rest).is_none() {
                            single_name_match_exec(r, rest)
                        } else {
                            match &**r {
                                DebugNode::Call { .. } => matches_spec_exec(r, rest),
                                _ => false,
                            }
                        }
                    },
                }
            },
        },
        _ => false,
    }
}

/// The last byte before `offset` that is no space or tab.
pub fn prev_non_space(source: &[u8], offset: usize) -> (r: Option<u8>)
    requires
        offset <= source@.len(),
    ensures
        r == spec_prev_non_space(source@, offset as int),
{
    let mut i = offset;
    while i > 0
        invariant
            i <= offset <= source@.len(),
            spec_prev_non_space(source@, i as int) == spec_prev_non_space(source@, offset as int),
        decreases i,
    {
        let b = source[i - 1];
        if b != SPACE && b != TAB {
            return Some(b);
        }
        i = i - 1;
    }
    None
}

/// Whether a bare call is used as a value rather than as a statement.
pub fn is_assumed_usage_context(node: &DebugNode, source: &[u8]) -> (r: bool)
    requires
        *node matches DebugNode::Call { start, .. } ==> start <= source@.len(),
    ensures
        r == assumed_usage_context(source@, *node),
{
    match node {
        DebugNode::Call { has_arguments, has_block, start, end, .. } => {
            if *has_arguments || *has_block {
                return false;
            }
            if *end < source.len() {
                let next = source[*end];
                if next == DOT || next == AMP {
                    return true;
                }
            }
            match prev_non_space(source, *start) {
                Some(p) => p == LPAREN || p == COMMA || p == LBRACKET || p == EQUALS || p == COLON,
                None => false,
            }
        },
        _ => false,
    }
}

fn to_byte_vecs(v: &Vec<&'static str>) -> (r: Vec<Vec<u8>>)
    ensures
        r@.len() == v@.len(),
        forall|k: int| 0 <= k < r@.len() ==> (#[trigger] r@[k])@ == v@[k].spec_bytes(),
        crate::text::views(r@) =~= v@.map_values(|x: &'static str| x.spec_bytes()),
{
    let mut out: Vec<Vec<u8>> = Vec::new();
    let mut i: usize = 0;
    while i < v.len()
        invariant
            i <= v@.len(),
            out@.len() == i,
            forall|k: int| 0 <= k < i ==> (#[trigger] out@[k])@ == v@[k].spec_bytes(),
        decreases v@.len() - i,
    {
        out.push(message(v[i]));
        i = i + 1;
    }
    assert(crate::text::views(out@) =~= v@.map_values(|x: &'static str| x.spec_bytes()));
    out
}

/// The index of the first spec in `specs` whose leaf names the call and
/// that the call matches.
fn first_match_index(node: &DebugNode, specs: &Vec<Vec<u8>>) -> (r: Option<usize>)
    ensures
        match r {
            Some(i) => first_spec_match(*node, crate::text::views(specs@), 0) == Some(i as int) && i < specs@.len(),
            None => first_spec_match(*node, crate::text::views(specs@), 0) is None,
        },
{
    let name: &[u8] = match node {
        DebugNode::Call { name, .. } => name.as_slice(),
        _ => {
            proof {
                lemma_first_spec_match_non_call(*node, crate::text::views(specs@), 0);
            }
            return None;
        },
    };
    let ghost sv = crate::text::views(specs@);
    let mut i: usize = 0;
    while i < specs.len()
        invariant
            i <= specs@.len(),
            sv == crate::text::views(specs@),
            *node matches DebugNode::Call { name: n, .. } && n@ == name@,
            first_spec_match(*node, sv, i as int) == first_spec_match(*node, sv, 0),
        decreases specs@.len() - i,
    {
        let spec = specs[i].as_slice();
        assert(spec@ == sv[i as int]);
        let l = leaf_exec(spec);
        if bytes_eq(l, name) && matches_spec_exec(node, spec) {
            return Some(i);
        }
        i = i + 1;
    }
    None
}

proof fn lemma_first_spec_match_non_call(node: DebugNode, specs: Seq<Seq<u8>>, k: int)
    requires
        !(node is Call),
    ensures
        first_spec_match(node, specs, k) is None,
    decreases specs.len() - k,
{
    if k < specs.len() && k >= 0 {
        lemma_first_spec_match_non_call(node, specs, k + 1);
    }
}


fn debugger_diagnostic(source: &[u8], start: usize, end: usize, fallback: &str) -> (r: Diagnostic)
    requires
        start <= end <= source@.len() < usize::MAX,
    ensures
        r.location.line == spec_line_col(source@, start as int).0,
        r.location.column == spec_line_col(source@, start as int).1,
        r.message@ == debugger_message(text_or(source@, start as int, end as int, fallback.spec_bytes())),
        !r.corrected,
{
    let text = &source[start..end];
    let mut msg = message("Remove debugger entry point `");
    if utf8_valid(text) {
        append(&mut msg, text);
    } else {
        append(&mut msg, fallback.as_bytes());
    }
    append(&mut msg, "`.".as_bytes());
    let (line, column) = offset_to_line_col(source, start);
    Diagnostic { location: Location { line, column }, message: msg, corrected: false }
}

fn default_leaf(name: &[u8]) -> (r: bool)
    ensures
        r == is_default_leaf(name@),
{
    let defaults = default_methods();
    let ghost dm = default_debugger_methods();
    let mut k: usize = 0;
    while k < defaults.len()
        invariant
            k <= defaults@.len(),
            dm == default_debugger_methods(),
            defaults@.len() == dm.len(),
            forall|j: int| 0 <= j < defaults@.len() ==> (#[trigger] defaults@[j]).spec_bytes() == dm[j],
            forall|j: int| 0 <= j < k ==> leaf(#[trigger] dm[j]) != name@,
        decreases defaults@.len() - k,
    {
        let l = leaf_exec(defaults[k].as_bytes());
        if bytes_eq(l, name) {
            proof {
                let kk = k as int;
                assert(defaults@[kk].spec_bytes() == dm[kk]);
                assert(l@ == leaf(dm[kk]));
                assert(leaf(dm[kk]) == name@);
                assert(0 <= kk < dm.len() && leaf(dm[kk]) == name@);
                assert(is_leaf_of_any(dm, name@));
            }
            return true;
        }
        k = k + 1;
    }
    false
}

fn check_require(source: &[u8], sole: &Option<Vec<u8>>, start: usize, end: usize, entry_points: Option<&Vec<Vec<u8>>>) -> (r: Option<Diagnostic>)
    requires
        start <= end <= source@.len() < usize::MAX,
    ensures
        match require_offense(source@, opt_bytes(*sole), start as int, end as int, match entry_points { Some(q) => Some(crate::text::views(q@)), None => None }) {
            Some((at, msg)) => r matches Some(d) && d.location.line == spec_line_col(source@, at).0
                && d.location.column == spec_line_col(source@, at).1 && d.message@ == msg && !d.corrected,
            None => r is None,
        },
{
    match sole {
        Some(v) => {
            let matched = match entry_points {
                Some(r) => contains_bytes(r, v.as_slice()),
                None => {
                    let ghost d = default_debugger_requires();
                    let m = bytes_eq(v.as_slice(), "debug/open".as_bytes()) || bytes_eq(v.as_slice(), "debug/start".as_bytes());
                    proof {
                        if m {
                            if v@ == "debug/open".spec_bytes() {
                                assert(d[0] == v@);
                            } else {
                                assert(d[1] == v@);
                            }
                        }
                        if d.contains(v@) {
                            let k = choose|k: int| 0 <= k < d.len() && d[k] == v@;
                            assert(k == 0 || k == 1);
                        }
                    }
                    m
                },
            };
            if matched {
                Some(debugger_diagnostic(source, start, end, "require"))
            } else {
                None
            }
        },
        None => None,
    }
}

fn check_methods(source: &[u8], node: &DebugNode, start: usize, end: usize, methods: Option<&Vec<Vec<u8>>>) -> (r: Option<Diagnostic>)
    requires
        start <= end <= source@.len() < usize::MAX,
        *node matches DebugNode::Call { start: s, .. } && s == start,
    ensures
        match method_offense(source@, *node, start as int, end as int, match methods { Some(m) => crate::text::views(m@), None => default_debugger_methods() }) {
            Some((at, msg)) => r matches Some(d) && d.location.line == spec_line_col(source@, at).0
                && d.location.column == spec_line_col(source@, at).1 && d.message@ == msg && !d.corrected,
            None => r is None,
        },
{
    let owned_defaults: Vec<Vec<u8>>;
    let specs: &Vec<Vec<u8>> = match methods {
        Some(m) => m,
        None => {
            let d = default_methods();
            owned_defaults = to_byte_vecs(&d);
            proof {
                assert(crate::text::views(owned_defaults@) =~= default_debugger_methods());
            }
            &owned_defaults
        },
    };
    match first_match_index(node, specs) {
        Some(i) => {
            if last_dot_exec(specs[i].as_slice()).is_none() && is_assumed_usage_context(node, source) {
                return None;
            }
            Some(debugger_diagnostic(source, start, end, "debugger"))
        },
        None => None,
    }
}

impl Debugger {
    pub fn name(&self) -> (r: &'static str)
        ensures
            r@ == "Lint/Debugger"@,
    {
        "Lint/Debugger"
    }

    /// The offense for a node, if any. `methods` and `requires` are the
    /// configured `DebuggerMethods` and `DebuggerRequires` when set.
    pub fn check_node(
        &self,
        source: &[u8],
        node: &DebugNode,
        methods: Option<&Vec<Vec<u8>>>,
        entry_points: Option<&Vec<Vec<u8>>>,
    ) -> (r: Option<Diagnostic>)
        requires
            source@.len() < usize::MAX,
            *node matches DebugNode::Call { start, end, .. } ==> start <= end <= source@.len(),
        ensures
            match debugger_offense(
                source@,
                *node,
                match methods { Some(m) => Some(crate::text::views(m@)), None => None },
                match entry_points { Some(q) => Some(crate::text::views(q@)), None => None },
            ) {
                Some((at, msg)) => r matches Some(d) && d.location.line == spec_line_col(source@, at).0
                    && d.location.column == spec_line_col(source@, at).1 && d.message@ == msg && !d.corrected,
                None => r is None,
            },
    {
        match node {
            DebugNode::Call { name, receiver, sole_string_argument, start, end, .. } => {
                if bytes_eq(name.as_slice(), "require".as_bytes()) && receiver.is_none() {
                    return check_require(source, sole_string_argument, *start, *end, entry_points);
                }
                if !default_leaf(name.as_slice()) {
                    return None;
                }
                check_methods(source, node, *start, *end, methods)
            },
            _ => None,
        }
    }
}


/// The default debugger methods are the entry points of irb, byebug, pry,
/// debug, jard, web-console and Capybara's page dumps: each of these
/// thirty is in the list, and nothing else.
pub proof fn law_default_debugger_methods_listed()
    ensures
        default_debugger_methods().contains("binding.irb".spec_bytes()),
        default_debugger_methods().contains("Kernel.binding.irb".spec_bytes()),
        default_debugger_methods().contains("byebug".spec_bytes()),
        default_debugger_methods().contains("remote_byebug".spec_bytes()),
        default_debugger_methods().contains("Kernel.byebug".spec_bytes()),
        default_debugger_methods().contains("Kernel.remote_byebug".spec_bytes()),
        default_debugger_methods().contains("page.save_and_open_page".spec_bytes()),
        default_debugger_methods().contains("page.save_and_open_screenshot".spec_bytes()),
        default_debugger_methods().contains("page.save_page".spec_bytes()),
        default_debugger_methods().contains("page.save_screenshot".spec_bytes()),
        default_debugger_methods().contains("save_and_open_page".spec_bytes()),
        default_debugger_methods().contains("save_and_open_screenshot".spec_bytes()),
        default_debugger_methods().contains("save_page".spec_bytes()),
        default_debugger_methods().contains("save_screenshot".spec_bytes()),
        default_debugger_methods().contains("binding.b".spec_bytes()),
        default_debugger_methods().contains("binding.break".spec_bytes()),
        default_debugger_methods().contains("Kernel.binding.b".spec_bytes()),
        default_debugger_methods().contains("Kernel.binding.break".spec_bytes()),
        default_debugger_methods().contains("binding.pry".spec_bytes()),
        default_debugger_methods().contains("binding.remote_pry".spec_bytes()),
        default_debugger_methods().contains("binding.pry_remote".spec_bytes()),
        default_debugger_methods().contains("Kernel.binding.pry".spec_bytes()),
        default_debugger_methods().contains("Kernel.binding.remote_pry".spec_bytes()),
        default_debugger_methods().contains("Kernel.binding.pry_remote".spec_bytes()),
        default_debugger_methods().contains("Pry.rescue".spec_bytes()),
        default_debugger_methods().contains("pry".spec_bytes()),
        default_debugger_methods().contains("debugger".spec_bytes()),
        default_debugger_methods().contains("Kernel.debugger".spec_bytes()),
        default_debugger_methods().contains("jard".spec_bytes()),
        default_debugger_methods().contains("binding.console".spec_bytes()),
        default_debugger_methods().len() == 30,
{
    reveal(default_debugger_methods);
    let d = default_debugger_methods();
    assert(d[0] == "binding.irb".spec_bytes());
    assert(d[1] == "Kernel.binding.irb".spec_bytes());
    assert(d[2] == "byebug".spec_bytes());
    assert(d[3] == "remote_byebug".spec_bytes());
    assert(d[4] == "Kernel.byebug".spec_bytes());
    assert(d[5] == "Kernel.remote_byebug".spec_bytes());
    assert(d[6] == "page.save_and_open_page".spec_bytes());
    assert(d[7] == "page.save_and_open_screenshot".spec_bytes());
    assert(d[8] == "page.save_page".spec_bytes());
    assert(d[9] == "page.save_screenshot".spec_bytes());
    assert(d[10] == "save_and_open_page".spec_bytes());
    assert(d[11] == "save_and_open_screenshot".spec_bytes());
    assert(d[12] == "save_page".spec_bytes());
    assert(d[13] == "save_screenshot".spec_bytes());
    assert(d[14] == "binding.b".spec_bytes());
    assert(d[15] == "binding.break".spec_bytes());
    assert(d[16] == "Kernel.binding.b".spec_bytes());
    assert(d[17] == "Kernel.binding.break".spec_bytes());
    assert(d[18] == "binding.pry".spec_bytes());
    assert(d[19] == "binding.remote_pry".spec_bytes());
    assert(d[20] == "binding.pry_remote".spec_bytes());
    assert(d[21] == "Kernel.binding.pry".spec_bytes());
    assert(d[22] == "Kernel.binding.remote_pry".spec_bytes());
    assert(d[23] == "Kernel.binding.pry_remote".spec_bytes());
    assert(d[24] == "Pry.rescue".spec_bytes());
    assert(d[25] == "pry".spec_bytes());
    assert(d[26] == "debugger".spec_bytes());
    assert(d[27] == "Kernel.debugger".spec_bytes());
    assert(d[28] == "jard".spec_bytes());
    assert(d[29] == "binding.console".spec_bytes());
}

proof fn lemma_first_spec_match_found(node: DebugNode, specs: Seq<Seq<u8>>, j: int, k: int)
    requires
        0 <= j <= k < specs.len(),
        node matches DebugNode::Call { name, .. } && leaf(specs[k]) == name@,
        matches_spec(node, specs[k]),
    ensures
        first_spec_match(node, specs, j) is Some,
    decreases k - j,
{
    if j < k && !((node matches DebugNode::Call { name, .. } && leaf(specs[j]) == name@) && matches_spec(node, specs[j])) {
        lemma_first_spec_match_found(node, specs, j + 1, k);
    }
}

/// With the default configuration, a call without receiver whose name is
/// a default debugger method without a receiver part (such as `byebug`
/// or `pry`) is reported at its start, unless it has neither arguments
/// nor a block and stands where a value is used.
pub proof fn law_bare_debugger_call_reported(s: Seq<u8>, node: DebugNode, entry_points: Option<Seq<Seq<u8>>>)
    requires
        node matches DebugNode::Call { name, receiver, .. } && receiver is None
            && default_debugger_methods().contains(name@) && last_dot(name@) is None
            && name@ != "require".spec_bytes(),
        !assumed_usage_context(s, node),
    ensures
        node matches DebugNode::Call { start, end, .. } && debugger_offense(s, node, None, entry_points)
            == Some((start as int, debugger_message(text_or(s, start as int, end as int, "debugger".spec_bytes())))),
{
    if let DebugNode::Call { name, .. } = node {
        let d = default_debugger_methods();
        let k = choose|k: int| 0 <= k < d.len() && d[k] == name@;
        assert(leaf(d[k]) == name@);
        assert(is_default_leaf(name@));
        lemma_first_spec_match_found(node, d, 0, k);
    }
}


/// The default debugger entry points for `require` are `debug/open` and
/// `debug/start`, and no other.
pub proof fn law_default_debugger_requires_listed(v: Seq<u8>)
    ensures
        default_debugger_requires().contains(v) <==> (v == "debug/open".spec_bytes() || v == "debug/start".spec_bytes()),
{
    let t = default_debugger_requires();
    if v == "debug/open".spec_bytes() {
        assert(t[0] == v);
    }
    if v == "debug/start".spec_bytes() {
        assert(t[1] == v);
    }
}

} // verus!
