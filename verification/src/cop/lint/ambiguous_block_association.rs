//! Lint/AmbiguousBlockAssociation: `foo bar { ... }`, where the block
//! binds to `bar` although it may read as belonging to `foo`.
use vstd::prelude::*;
use vstd::string::StringSliceAdditionalSpecFns;
use crate::bytes::append;
use crate::diagnostic::{message, Diagnostic, Location};
use crate::text::{bytes_eq, contains_bytes, is_utf8, offset_to_line_col, spec_line_col, utf8_from, utf8_or, utf8_valid, views};

verus! {

pub struct AmbiguousBlockAssociation;

/// What follows a call: no block, a block argument `&blk`, or a block
/// (with numbered parameters or not).
#[derive(Clone, Copy, PartialEq, Eq, Structural)]
pub enum BlockKind {
    NoBlock,
    Argument,
    Block { numbered: bool },
}

/// A call passed as the last argument, spanning `[start, end)`.
/// `receiver_constant` is the name of its receiver when that is a constant.
pub struct InnerCall {
    pub name: Vec<u8>,
    pub has_receiver: bool,
    pub receiver_constant: Option<Vec<u8>>,
    pub block: BlockKind,
    pub has_arguments: bool,
    pub start: usize,
    pub end: usize,
}

/// The last argument of the outer call.
pub enum LastArgument {
    /// `-> { ... }`.
    Lambda,
    Call(InnerCall),
    Other,
}

/// A method call that starts at `start`: whether it has parentheses and a
/// method name, and the span of its arguments with the last of them.
pub struct BlockCall {
    pub name: Vec<u8>,
    pub has_opening: bool,
    pub has_message: bool,
    pub arguments: Option<(usize, usize)>,
    pub last_argument: Option<LastArgument>,
    pub start: usize,
}

pub open spec fn lit(s: &str) -> Seq<u8> {
    s.spec_bytes()
}

/// The operator method names.
pub open spec fn operator_names() -> Seq<Seq<u8>> {
    seq![
        lit("|"), lit("^"), lit("&"), lit("<=>"), lit("=="), lit("==="), lit("=~"), lit(">"), lit(">="), lit("<"),
        lit("<="), lit("<<"), lit(">>"), lit("+"), lit("-"), lit("*"), lit("/"), lit("%"), lit("**"), lit("~"),
        lit("+@"), lit("-@"), lit("!@"), lit("~@"), lit("[]"), lit("[]="), lit("!"), lit("!="), lit("!~"), lit("`")
    ]
}

pub open spec fn is_operator_name(n: Seq<u8>) -> bool {
    operator_names().contains(n)
}

pub open spec fn receiver_is(c: InnerCall, name: Seq<u8>) -> bool {
    c.receiver_constant matches Some(k) && k@ == name
}

/// `lambda { }` (with any receiver), `proc { }` or `Proc.new { }`, with a
/// block whose parameters are not numbered, or `-> { }`: a block builder.
pub open spec fn spec_is_lambda_or_proc(a: LastArgument) -> bool {
    match a {
        LastArgument::Lambda => true,
        LastArgument::Call(c) => c.block == (BlockKind::Block { numbered: false }) && (c.name@ == lit("lambda") || (
        !c.has_receiver && c.name@ == lit("proc")) || (c.name@ == lit("new") && receiver_is(c, lit("Proc")))),
        LastArgument::Other => false,
    }
}

/// The inner call whose block association is ambiguous, before the
/// allowed methods and patterns are consulted.
pub open spec fn ambiguous_inner(c: BlockCall) -> Option<InnerCall> {
    if c.has_opening || is_operator_name(c.name@) || (c.name@.len() > 0 && c.name@.last() == 0x3du8 && c.name@ != lit(
        "==",
    ) && c.name@ != lit("!=")) || !c.has_message || c.arguments is None {
        None
    } else {
        match c.last_argument {
            Some(a) => if spec_is_lambda_or_proc(a) {
                None
            } else {
                match a {
                    LastArgument::Call(inner) => if inner.block is Block && !inner.has_arguments {
                        Some(inner)
                    } else {
                        None
                    },
                    _ => None,
                }
            },
            None => None,
        }
    }
}

/// The text of the arguments that the allowed patterns are tested
/// against: empty where it is not UTF-8.
pub open spec fn arguments_text(s: Seq<u8>, c: BlockCall) -> Seq<u8> {
    match c.arguments {
        Some((a, b)) => utf8_or(s.subrange(a as int, b as int), seq![]),
        None => seq![],
    }
}

/// Where the cop reports the call and with which message, given the
/// allowed method names and, for each allowed pattern, what testing it on
/// the arguments gave (`None` for a pattern that does not compile).
pub open spec fn block_association_offense(
    s: Seq<u8>,
    c: BlockCall,
    allowed_methods: Seq<Seq<u8>>,
    pattern_results: Seq<Option<bool>>,
) -> Option<(int, Seq<u8>)> {
    match ambiguous_inner(c) {
        Some(inner) => {
            let inner_name = utf8_or(inner.name@, seq![]);
            if allowed_methods.contains(inner_name) || pattern_results.contains(Some(true)) {
                None
            } else {
                Some((
                    c.start as int,
                    lit("Parenthesize the param `") + utf8_or(s.subrange(inner.start as int, inner.end as int), lit("..."))
                        + lit("` to make sure that the block will be associated with the `") + inner_name + lit(
                        "` method call.",
                    ),
                ))
            }
        },
        None => None,
    }
}

pub open spec fn block_call_in_bounds(len: int, c: BlockCall) -> bool {
    &&& c.start <= len
    &&& (c.arguments matches Some((a, b)) ==> a <= b <= len)
    &&& (c.last_argument matches Some(LastArgument::Call(i)) ==> i.start <= i.end <= len)
}

/// What compiling `pattern` as a regular expression and testing it on
/// `haystack` gives: `None` where the pattern does not compile.
pub uninterp spec fn regex_match(pattern: Seq<char>, haystack: Seq<u8>) -> Option<bool>;

/// Calls `regex::Regex::new` on `pattern` and `is_match` of the compiled
/// expression on `haystack`. Claimed: the result is a function of the
/// pattern and the bytes of the haystack alone, `regex_match`. Nothing is
/// claimed of which patterns compile or what they match.
#[verifier::external_body]
fn pattern_matches(pattern: &str, haystack: &str) -> (r: Option<bool>)
    ensures
        r == regex_match(pattern@, haystack.spec_bytes()),
{
    match regex::Regex::new(pattern) {
        Ok(re) => Some(re.is_match(haystack)),
        Err(_) => None,
    }
}

/// Calls `std::str::from_utf8`, which, as its documentation says, gives
/// the same bytes as a string slice when they are well-formed UTF-8 and an
/// error otherwise.
#[verifier::external_body]
fn utf8_text<'a>(bytes: &'a [u8]) -> (r: Option<&'a str>)
    ensures
        r is Some <==> is_utf8(bytes@),
        r matches Some(t) ==> t.spec_bytes() == bytes@,
{
    std::str::from_utf8(bytes).ok()
}

pub fn is_operator_method(name: &[u8]) -> (r: bool)
    ensures
        r == is_operator_name(name@),
{
    let ops: Vec<&'static str> = vec![
        "|", "^", "&", "<=>", "==", "===", "=~", ">", ">=", "<", "<=", "<<", ">>", "+", "-", "*", "/", "%", "**", "~",
        "+@", "-@", "!@", "~@", "[]", "[]=", "!", "!=", "!~", "`",
    ];
    let ghost all = operator_names();
    assert(ops@.len() == all.len());
    assert(forall|k: int| 0 <= k < ops@.len() ==> (#[trigger] ops@[k]).spec_bytes() == all[k]);
    let mut i: usize = 0;
    while i < ops.len()
        invariant
            i <= ops@.len(),
            all == operator_names(),
            ops@.len() == all.len(),
            forall|k: int| 0 <= k < ops@.len() ==> (#[trigger] ops@[k]).spec_bytes() == all[k],
            forall|k: int| 0 <= k < i ==> all[k] != name@,
        decreases ops@.len() - i,
    {
        if bytes_eq(name, ops[i].as_bytes()) {
            assert(all[i as int] == name@);
            return true;
        }
        i = i + 1;
    }
    proof {
        if all.contains(name@) {
            let k = choose|k: int| 0 <= k < all.len() && all[k] == name@;
            assert(all[k] != name@);
        }
    }
    false
}

fn lambda_or_proc(a: &LastArgument) -> (r: bool)
    ensures
        r == spec_is_lambda_or_proc(*a),
{
    proof {
        reveal_strlit("lambda");
        reveal_strlit("proc");
        reveal_strlit("new");
        reveal_strlit("Proc");
    }
    match a {
        LastArgument::Lambda => true,
        LastArgument::Call(c) => {
            let receiver_proc = match &c.receiver_constant {
                Some(k) => bytes_eq(k.as_slice(), "Proc".as_bytes()),
                None => false,
            };
            c.block == (BlockKind::Block { numbered: false }) && (bytes_eq(c.name.as_slice(), "lambda".as_bytes()) || (
            !c.has_receiver && bytes_eq(c.name.as_slice(), "proc".as_bytes())) || (bytes_eq(c.name.as_slice(), "new".as_bytes())
                && receiver_proc))
        },
        LastArgument::Other => false,
    }
}

fn ambiguous_inner_exec(c: &BlockCall) -> (r: Option<&InnerCall>)
    ensures
        match ambiguous_inner(*c) {
            Some(i) => r matches Some(x) && *x == i,
            None => r is None,
        },
{
    proof {
        reveal_strlit("==");
        reveal_strlit("!=");
    }
    let n = c.name.as_slice();
    if c.has_opening || is_operator_method(n) || (n.len() > 0 && n[n.len() - 1] == 0x3du8 && !bytes_eq(n, "==".as_bytes())
        && !bytes_eq(n, "!=".as_bytes())) || !c.has_message || c.arguments.is_none() {
        return None;
    }
    match &c.last_argument {
        Some(a) => {
            if lambda_or_proc(a) {
                return None;
            }
            match a {
                LastArgument::Call(inner) => {
                    let block = match inner.block {
                        BlockKind::Block { .. } => true,
                        _ => false,
                    };
                    if block && !inner.has_arguments {
                        Some(inner)
                    } else {
                        None
                    }
                },
                _ => None,
            }
        },
        None => None,
    }
}

fn contains_match(results: &Vec<Option<bool>>) -> (r: bool)
    ensures
        r == results@.contains(Some(true)),
{
    let mut k: usize = 0;
    while k < results.len()
        invariant
            k <= results@.len(),
            forall|j: int| 0 <= j < k ==> results@[j] != Some(true),
        decreases results@.len() - k,
    {
        if results[k] == Some(true) {
            assert(results@[k as int] == Some(true));
            return true;
        }
        k = k + 1;
    }
    false
}

impl AmbiguousBlockAssociation {
    pub fn name(&self) -> (r: &'static str)
        ensures
            r@ == "Lint/AmbiguousBlockAssociation"@,
    {
        "Lint/AmbiguousBlockAssociation"
    }

    /// The offense of one call, given the configured `AllowedMethods` and,
    /// for each of the `AllowedPatterns`, what testing it on the arguments
    /// gave.
    pub fn check_with_pattern_results(
        &self,
        source: &[u8],
        call: &BlockCall,
        allowed_methods: &Vec<Vec<u8>>,
        pattern_results: &Vec<Option<bool>>,
    ) -> (r: Option<Diagnostic>)
        requires
            source@.len() < usize::MAX,
            block_call_in_bounds(source@.len() as int, *call),
        ensures
            match block_association_offense(source@, *call, views(allowed_methods@), pattern_results@) {
                Some((at, msg)) => r matches Some(d) && d.location.line == spec_line_col(source@, at).0
                    && d.location.column == spec_line_col(source@, at).1 && d.message@ == msg && !d.corrected,
                None => r is None,
            },
    {
        let inner = match ambiguous_inner_exec(call) {
            Some(i) => i,
            None => {
                return None;
            },
        };
        let mut inner_name: Vec<u8> = Vec::new();
        if utf8_valid(inner.name.as_slice()) {
            append(&mut inner_name, inner.name.as_slice());
        }
        proof {
            assert(inner_name@ =~= utf8_or(inner.name@, seq![]));
        }
        if contains_bytes(allowed_methods, inner_name.as_slice()) || contains_match(pattern_results) {
            return None;
        }
        let mut m = message("Parenthesize the param `");
        let t = &source[inner.start..inner.end];
        if utf8_valid(t) {
            append(&mut m, t);
        } else {
            append(&mut m, "...".as_bytes());
        }
        append(&mut m, "` to make sure that the block will be associated with the `".as_bytes());
        append(&mut m, inner_name.as_slice());
        append(&mut m, "` method call.".as_bytes());
        let (line, column) = offset_to_line_col(source, call.start);
        Some(Diagnostic { location: Location { line, column }, message: m, corrected: false })
    }

    /// The offense of one call: tests each of `allowed_patterns` on the
    /// text of the arguments, then decides as
    /// `check_with_pattern_results`.
    pub fn check_node(&self, source: &[u8], call: &BlockCall, allowed_methods: &Vec<Vec<u8>>, allowed_patterns: &Vec<String>) -> (r: Option<
        Diagnostic,
    >)
        requires
            source@.len() < usize::MAX,
            block_call_in_bounds(source@.len() as int, *call),
        ensures
            match block_association_offense(
                source@,
                *call,
                views(allowed_methods@),
                allowed_patterns@.map_values(|p: String| regex_match(p@, arguments_text(source@, *call))),
            ) {
                Some((at, msg)) => r matches Some(d) && d.location.line == spec_line_col(source@, at).0
                    && d.location.column == spec_line_col(source@, at).1 && d.message@ == msg && !d.corrected,
                None => r is None,
            },
    {
        let empty: &[u8] = &[];
        let text: &[u8] = match call.arguments {
            Some((a, b)) => {
                let t = &source[a..b];
                if utf8_valid(t) {
                    t
                } else {
                    empty
                }
            },
            None => empty,
        };
        assert(text@ == arguments_text(source@, *call));
        assert(is_utf8(text@)) by {
            if text@.len() == 0 {
                assert(utf8_from(text@, 0));
            }
        }
        let haystack: &str = match utf8_text(text) {
            Some(t) => t,
            None => "",
        };
        let ghost want = allowed_patterns@.map_values(|p: String| regex_match(p@, arguments_text(source@, *call)));
        let mut results: Vec<Option<bool>> = Vec::new();
        let mut k: usize = 0;
        while k < allowed_patterns.len()
            invariant
                k <= allowed_patterns@.len(),
                want == allowed_patterns@.map_values(|p: String| regex_match(p@, arguments_text(source@, *call))),
                text@ == arguments_text(source@, *call),
                haystack.spec_bytes() == text@,
                results@ =~= want.subrange(0, k as int),
            decreases allowed_patterns@.len() - k,
        {
            let r = pattern_matches(allowed_patterns[k].as_str(), haystack);
            results.push(r);
            k = k + 1;
        }
        assert(results@ =~= want);
        self.check_with_pattern_results(source, call, allowed_methods, &results)
    }
}


/// The operator method names, whose calls are never ambiguous: `| ^ & <=>
/// == === =~ > >= < <= << >> + - * / % ** ~ +@ -@ !@ ~@ [] []= ! != !~`
/// and the backquote, and no other name.
pub proof fn law_operator_names_listed(name: Seq<u8>)
    ensures
        operator_names().contains(name) <==> (name == "|".spec_bytes() || name == "^".spec_bytes() || name == "&".spec_bytes() || name == "<=>".spec_bytes() || name == "==".spec_bytes() || name == "===".spec_bytes() || name == "=~".spec_bytes() || name == ">".spec_bytes() || name == ">=".spec_bytes() || name == "<".spec_bytes() || name == "<=".spec_bytes() || name == "<<".spec_bytes() || name == ">>".spec_bytes() || name == "+".spec_bytes() || name == "-".spec_bytes() || name == "*".spec_bytes() || name == "/".spec_bytes() || name == "%".spec_bytes() || name == "**".spec_bytes() || name == "~".spec_bytes() || name == "+@".spec_bytes() || name == "-@".spec_bytes() || name == "!@".spec_bytes() || name == "~@".spec_bytes() || name == "[]".spec_bytes() || name == "[]=".spec_bytes() || name == "!".spec_bytes() || name == "!=".spec_bytes() || name == "!~".spec_bytes() || name == "`".spec_bytes()),
{
    let t = operator_names();
    if name == "|".spec_bytes() || name == "^".spec_bytes() || name == "&".spec_bytes() || name == "<=>".spec_bytes() || name == "==".spec_bytes() || name == "===".spec_bytes() || name == "=~".spec_bytes() || name == ">".spec_bytes() || name == ">=".spec_bytes() || name == "<".spec_bytes() || name == "<=".spec_bytes() || name == "<<".spec_bytes() || name == ">>".spec_bytes() || name == "+".spec_bytes() || name == "-".spec_bytes() || name == "*".spec_bytes() || name == "/".spec_bytes() || name == "%".spec_bytes() || name == "**".spec_bytes() || name == "~".spec_bytes() || name == "+@".spec_bytes() || name == "-@".spec_bytes() || name == "!@".spec_bytes() || name == "~@".spec_bytes() || name == "[]".spec_bytes() || name == "[]=".spec_bytes() || name == "!".spec_bytes() || name == "!=".spec_bytes() || name == "!~".spec_bytes() || name == "`".spec_bytes() {
        if name == "|".spec_bytes() { assert(t[0] == name); }
        if name == "^".spec_bytes() { assert(t[1] == name); }
        if name == "&".spec_bytes() { assert(t[2] == name); }
        if name == "<=>".spec_bytes() { assert(t[3] == name); }
        if name == "==".spec_bytes() { assert(t[4] == name); }
        if name == "===".spec_bytes() { assert(t[5] == name); }
        if name == "=~".spec_bytes() { assert(t[6] == name); }
        if name == ">".spec_bytes() { assert(t[7] == name); }
        if name == ">=".spec_bytes() { assert(t[8] == name); }
        if name == "<".spec_bytes() { assert(t[9] == name); }
        if name == "<=".spec_bytes() { assert(t[10] == name); }
        if name == "<<".spec_bytes() { assert(t[11] == name); }
        if name == ">>".spec_bytes() { assert(t[12] == name); }
        if name == "+".spec_bytes() { assert(t[13] == name); }
        if name == "-".spec_bytes() { assert(t[14] == name); }
        if name == "*".spec_bytes() { assert(t[15] == name); }
        if name == "/".spec_bytes() { assert(t[16] == name); }
        if name == "%".spec_bytes() { assert(t[17] == name); }
        if name == "**".spec_bytes() { assert(t[18] == name); }
        if name == "~".spec_bytes() { assert(t[19] == name); }
        if name == "+@".spec_bytes() { assert(t[20] == name); }
        if name == "-@".spec_bytes() { assert(t[21] == name); }
        if name == "!@".spec_bytes() { assert(t[22] == name); }
        if name == "~@".spec_bytes() { assert(t[23] == name); }
        if name == "[]".spec_bytes() { assert(t[24] == name); }
        if name == "[]=".spec_bytes() { assert(t[25] == name); }
        if name == "!".spec_bytes() { assert(t[26] == name); }
        if name == "!=".spec_bytes() { assert(t[27] == name); }
        if name == "!~".spec_bytes() { assert(t[28] == name); }
        if name == "`".spec_bytes() { assert(t[29] == name); }
    } else if t.contains(name) {
        let k = choose|k: int| 0 <= k < t.len() && t[k] == name;
        assert(t[k] == name);
    }
}


/// A plain block passed to `lambda` (on any receiver), to `proc` without
/// receiver, or to `Proc.new` makes a block builder, as `-> { }` is; a
/// call of any other name is none.
pub proof fn law_block_builders(c: InnerCall)
    ensures
        c.block == (BlockKind::Block { numbered: false }) ==> {
            &&& c.name@ == "lambda".spec_bytes() ==> spec_is_lambda_or_proc(LastArgument::Call(c))
            &&& c.name@ == "proc".spec_bytes() && !c.has_receiver ==> spec_is_lambda_or_proc(LastArgument::Call(c))
            &&& c.name@ == "new".spec_bytes() && (c.receiver_constant matches Some(k) && k@ == "Proc".spec_bytes())
                ==> spec_is_lambda_or_proc(LastArgument::Call(c))
        },
        !(c.name@ == "lambda".spec_bytes() || c.name@ == "proc".spec_bytes() || c.name@ == "new".spec_bytes())
            ==> !spec_is_lambda_or_proc(LastArgument::Call(c)),
        spec_is_lambda_or_proc(LastArgument::Lambda),
{
}

} // verus!
