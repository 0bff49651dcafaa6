//! Lint/DeprecatedClassMethods: `File.exists?`, `Dir.exists?`,
//! `ENV.clone`, `ENV.dup`, `ENV.freeze`, `iterator?`, `attr :name, true`,
//! `Socket.gethostbyaddr` and `Socket.gethostbyname`, with their
//! replacements.
use vstd::prelude::*;
use vstd::string::StringSliceAdditionalSpecFns;
use crate::bytes::append;
use crate::diagnostic::{message, Diagnostic, Location};
use crate::text::{bytes_eq, offset_to_line_col, spec_line_col, utf8_or, utf8_valid};

verus! {

pub struct DeprecatedClassMethods;

/// What an argument is, as far as `attr` reads it.
#[derive(Clone, Copy, PartialEq, Eq, Structural)]
pub enum ArgKind {
    True,
    False,
    Other,
}

/// An argument of the call, spanning `[start, end)`.
#[derive(Clone, Copy)]
pub struct CallArg {
    pub kind: ArgKind,
    pub start: usize,
    pub end: usize,
}

/// The receiver of the call, spanning `[start, end)`. `constant` is its
/// name when it is a bare constant `Name` or a top-level one `::Name`.
pub struct CallReceiver {
    pub constant: Option<Vec<u8>>,
    pub start: usize,
    pub end: usize,
}

/// A method call, spanning `[start, end)`.
pub struct DeprecatedCall {
    pub name: Vec<u8>,
    pub receiver: Option<CallReceiver>,
    pub arguments: Vec<CallArg>,
    pub start: usize,
    pub end: usize,
}

pub open spec fn lit(s: &str) -> Seq<u8> {
    s.spec_bytes()
}

pub open spec fn text(s: Seq<u8>, a: int, b: int, fallback: Seq<u8>) -> Seq<u8> {
    utf8_or(s.subrange(a, b), fallback)
}

pub open spec fn deprecated_message(current: Seq<u8>, preferred: Seq<u8>) -> Seq<u8> {
    lit("`") + current + lit("` is deprecated in favor of `") + preferred + lit("`.")
}

pub open spec fn constant_is(r: CallReceiver, name: Seq<u8>) -> bool {
    r.constant matches Some(c) && c@ == name
}

/// Where the cop reports a call and with which message, if it does.
pub open spec fn deprecated_offense(s: Seq<u8>, c: DeprecatedCall) -> Option<(int, Seq<u8>)> {
    let n = c.name@;
    let args = c.arguments@;
    match c.receiver {
        None => if n == lit("iterator?") {
            Some((c.start as int, deprecated_message(lit("iterator?"), lit("block_given?"))))
        } else if n == lit("attr") && args.len() == 2 && args[1].kind != ArgKind::Other {
            let head = if args[1].kind == ArgKind::True { lit("attr_accessor ") } else { lit("attr_reader ") };
            Some((
                c.start as int,
                deprecated_message(
                    text(s, c.start as int, c.end as int, lit("attr")),
                    head + text(s, args[0].start as int, args[0].end as int, lit(":name")),
                ),
            ))
        } else {
            None
        },
        Some(r) => {
            let rs = text(s, r.start as int, r.end as int, seq![]);
            if n == lit("exists?") && args.len() == 1 && (constant_is(r, lit("File")) || constant_is(r, lit("Dir"))) {
                Some((r.start as int, deprecated_message(rs + lit(".exists?"), rs + lit(".exist?"))))
            } else if (n == lit("clone") || n == lit("dup")) && args.len() == 0 && constant_is(r, lit("ENV")) {
                Some((r.start as int, deprecated_message(rs + lit(".") + n, rs + lit(".to_h"))))
            } else if n == lit("freeze") && args.len() == 0 && constant_is(r, lit("ENV")) {
                Some((r.start as int, deprecated_message(rs + lit(".freeze"), lit("ENV"))))
            } else if n == lit("gethostbyaddr") && constant_is(r, lit("Socket")) {
                Some((r.start as int, deprecated_message(rs + lit(".gethostbyaddr"), lit("Addrinfo#getnameinfo"))))
            } else if n == lit("gethostbyname") && constant_is(r, lit("Socket")) {
                Some((r.start as int, deprecated_message(rs + lit(".gethostbyname"), lit("Addrinfo.getaddrinfo"))))
            } else {
                None
            }
        },
    }
}

pub open spec fn call_in_bounds(len: int, c: DeprecatedCall) -> bool {
    &&& c.start <= c.end <= len
    &&& (c.receiver matches Some(r) ==> r.start <= r.end <= len)
    &&& forall|k: int| 0 <= k < c.arguments@.len() ==> #[trigger] c.arguments@[k].start <= c.arguments@[k].end <= len
}

/// Appends the text of `[a, b)`, or `fallback` where it is not UTF-8.
fn push_text(out: &mut Vec<u8>, source: &[u8], a: usize, b: usize, fallback: &str)
    requires
        a <= b <= source@.len(),
    ensures
        final(out)@ == old(out)@ + text(source@, a as int, b as int, fallback.spec_bytes()),
{
    let t = &source[a..b];
    if utf8_valid(t) {
        append(out, t);
    } else {
        append(out, fallback.as_bytes());
    }
}

fn constant_is_exec(r: &CallReceiver, name: &str) -> (b: bool)
    ensures
        b == constant_is(*r, name.spec_bytes()),
{
    match &r.constant {
        Some(c) => bytes_eq(c.as_slice(), name.as_bytes()),
        None => false,
    }
}

fn joined(a: &Vec<u8>, b: &str) -> (r: Vec<u8>)
    ensures
        r@ == a@ + b.spec_bytes(),
{
    let mut r = a.clone();
    append(&mut r, b.as_bytes());
    r
}

fn deprecated_msg(current: &Vec<u8>, preferred: &Vec<u8>) -> (r: Vec<u8>)
    ensures
        r@ == deprecated_message(current@, preferred@),
{
    let mut m = message("`");
    append(&mut m, current.as_slice());
    append(&mut m, "` is deprecated in favor of `".as_bytes());
    append(&mut m, preferred.as_slice());
    append(&mut m, "`.".as_bytes());
    m
}

fn offense_diagnostic(source: &[u8], at: usize, msg: Vec<u8>) -> (d: Diagnostic)
    requires
        at <= source@.len() < usize::MAX,
    ensures
        d.location.line == spec_line_col(source@, at as int).0,
        d.location.column == spec_line_col(source@, at as int).1,
        d.message@ == msg@,
        !d.corrected,
{
    let (line, column) = offset_to_line_col(source, at);
    Diagnostic { location: Location { line, column }, message: msg, corrected: false }
}

impl DeprecatedClassMethods {
    pub fn name(&self) -> (r: &'static str)
        ensures
            r@ == "Lint/DeprecatedClassMethods"@,
    {
        "Lint/DeprecatedClassMethods"
    }

    /// The offense of one call, if it uses a deprecated method.
    pub fn check_node(&self, source: &[u8], call: &DeprecatedCall) -> (r: Option<Diagnostic>)
        requires
            source@.len() < usize::MAX,
            call_in_bounds(source@.len() as int, *call),
        ensures
            match deprecated_offense(source@, *call) {
                Some((at, msg)) => r matches Some(d) && d.location.line == spec_line_col(source@, at).0
                    && d.location.column == spec_line_col(source@, at).1 && d.message@ == msg && !d.corrected,
                None => r is None,
            },
    {
        proof {
            reveal_strlit("iterator?");
            reveal_strlit("attr");
            reveal_strlit("exists?");
            reveal_strlit("clone");
            reveal_strlit("dup");
            reveal_strlit("freeze");
            reveal_strlit("gethostbyaddr");
            reveal_strlit("gethostbyname");
        }
        let n = call.name.as_slice();
        let args = &call.arguments;
        match &call.receiver {
            None => {
                if bytes_eq(n, "iterator?".as_bytes()) {
                    let m = deprecated_msg(&message("iterator?"), &message("block_given?"));
                    return Some(offense_diagnostic(source, call.start, m));
                }
                if bytes_eq(n, "attr".as_bytes()) && args.len() == 2 && args[1].kind != ArgKind::Other {
                    assert(call.arguments@[0].start <= call.arguments@[0].end <= source@.len());
                    let mut cur = Vec::new();
                    push_text(&mut cur, source, call.start, call.end, "attr");
                    let mut pref = if args[1].kind == ArgKind::True {
                        message("attr_accessor ")
                    } else {
                        message("attr_reader ")
                    };
                    push_text(&mut pref, source, args[0].start, args[0].end, ":name");
                    proof {
                        assert(cur@ =~= text(source@, call.start as int, call.end as int, lit("attr")));
                    }
                    return Some(offense_diagnostic(source, call.start, deprecated_msg(&cur, &pref)));
                }
                None
            },
            Some(r) => {
                let mut rs = Vec::new();
                push_text(&mut rs, source, r.start, r.end, "");
                proof {
                    reveal_strlit("");
                    assert("".spec_bytes() =~= Seq::<u8>::empty());
                    assert(rs@ =~= text(source@, r.start as int, r.end as int, seq![]));
                }
                if bytes_eq(n, "exists?".as_bytes()) && args.len() == 1 && (constant_is_exec(r, "File") || constant_is_exec(r, "Dir")) {
                    let m = deprecated_msg(&joined(&rs, ".exists?"), &joined(&rs, ".exist?"));
                    return Some(offense_diagnostic(source, r.start, m));
                }
                if (bytes_eq(n, "clone".as_bytes()) || bytes_eq(n, "dup".as_bytes())) && args.len() == 0 && constant_is_exec(r, "ENV") {
                    let mut cur = joined(&rs, ".");
                    append(&mut cur, n);
                    let m = deprecated_msg(&cur, &joined(&rs, ".to_h"));
                    return Some(offense_diagnostic(source, r.start, m));
                }
                if bytes_eq(n, "freeze".as_bytes()) && args.len() == 0 && constant_is_exec(r, "ENV") {
                    let m = deprecated_msg(&joined(&rs, ".freeze"), &message("ENV"));
                    return Some(offense_diagnostic(source, r.start, m));
                }
                if bytes_eq(n, "gethostbyaddr".as_bytes()) && constant_is_exec(r, "Socket") {
                    let m = deprecated_msg(&joined(&rs, ".gethostbyaddr"), &message("Addrinfo#getnameinfo"));
                    return Some(offense_diagnostic(source, r.start, m));
                }
                if bytes_eq(n, "gethostbyname".as_bytes()) && constant_is_exec(r, "Socket") {
                    let m = deprecated_msg(&joined(&rs, ".gethostbyname"), &message("Addrinfo.getaddrinfo"));
                    return Some(offense_diagnostic(source, r.start, m));
                }
                None
            },
        }
    }
}


/// The deprecated class methods and what replaces them, for every call:
/// `iterator?` without receiver by `block_given?`; `File.exists?(x)` and
/// `Dir.exists?(x)` by `exist?`; `attr :name, true` by `attr_accessor
/// :name` and `attr :name, false` by `attr_reader :name`; `ENV.clone` and `ENV.dup` by `ENV.to_h`;
/// `ENV.freeze` by `ENV`; `Socket.gethostbyaddr` by
/// `Addrinfo#getnameinfo`; `Socket.gethostbyname` by
/// `Addrinfo.getaddrinfo`. Each is reported at the start of the call, or
/// of its receiver when it has one.
pub proof fn law_deprecated_class_methods(s: Seq<u8>, c: DeprecatedCall)
    ensures
        c.receiver is None && c.name@ == "iterator?".spec_bytes() ==> deprecated_offense(s, c)
            == Some((c.start as int, deprecated_message("iterator?".spec_bytes(), "block_given?".spec_bytes()))),
        c.receiver is None && c.name@ == "attr".spec_bytes() && c.arguments@.len() == 2 && c.arguments@[1].kind
            != ArgKind::Other ==> deprecated_offense(s, c) == Some((c.start as int, deprecated_message(
            text(s, c.start as int, c.end as int, "attr".spec_bytes()),
            (if c.arguments@[1].kind == ArgKind::True { "attr_accessor ".spec_bytes() } else { "attr_reader ".spec_bytes() })
                + text(s, c.arguments@[0].start as int, c.arguments@[0].end as int, ":name".spec_bytes()),
        ))),
        c.receiver is Some ==> ({
            let r = c.receiver->0;
            c.name@ == "exists?".spec_bytes() && c.arguments@.len() == 1
            && (constant_is(r, "File".spec_bytes()) || constant_is(r, "Dir".spec_bytes())) ==> deprecated_offense(s, c)
            == Some((r.start as int, deprecated_message(
                text(s, r.start as int, r.end as int, seq![]) + ".exists?".spec_bytes(),
                text(s, r.start as int, r.end as int, seq![]) + ".exist?".spec_bytes(),
            )))
        }),
        c.receiver is Some ==> ({
            let r = c.receiver->0;
            (c.name@ == "clone".spec_bytes() || c.name@ == "dup".spec_bytes())
            && c.arguments@.len() == 0 && constant_is(r, "ENV".spec_bytes()) ==> deprecated_offense(s, c)
            == Some((r.start as int, deprecated_message(
                text(s, r.start as int, r.end as int, seq![]) + ".".spec_bytes() + c.name@,
                text(s, r.start as int, r.end as int, seq![]) + ".to_h".spec_bytes(),
            )))
        }),
        c.receiver is Some ==> ({
            let r = c.receiver->0;
            c.name@ == "freeze".spec_bytes() && c.arguments@.len() == 0
            && constant_is(r, "ENV".spec_bytes()) ==> deprecated_offense(s, c)
            == Some((r.start as int, deprecated_message(
                text(s, r.start as int, r.end as int, seq![]) + ".freeze".spec_bytes(),
                "ENV".spec_bytes(),
            )))
        }),
        c.receiver is Some ==> ({
            let r = c.receiver->0;
            c.name@ == "gethostbyaddr".spec_bytes() && constant_is(r, "Socket".spec_bytes())
            ==> deprecated_offense(s, c) == Some((r.start as int, deprecated_message(
                text(s, r.start as int, r.end as int, seq![]) + ".gethostbyaddr".spec_bytes(),
                "Addrinfo#getnameinfo".spec_bytes(),
            )))
        }),
        c.receiver is Some ==> ({
            let r = c.receiver->0;
            c.name@ == "gethostbyname".spec_bytes() && constant_is(r, "Socket".spec_bytes())
            ==> deprecated_offense(s, c) == Some((r.start as int, deprecated_message(
                text(s, r.start as int, r.end as int, seq![]) + ".gethostbyname".spec_bytes(),
                "Addrinfo.getaddrinfo".spec_bytes(),
            )))
        }),
        !(c.name@ == "iterator?".spec_bytes() || c.name@ == "attr".spec_bytes() || c.name@ == "exists?".spec_bytes() || c.name@ == "clone".spec_bytes() || c.name@ == "dup".spec_bytes() || c.name@ == "freeze".spec_bytes() || c.name@ == "gethostbyaddr".spec_bytes() || c.name@ == "gethostbyname".spec_bytes()) ==> deprecated_offense(s, c) is None,
{
    reveal_strlit("iterator?");
    vstd::string::is_ascii_spec_bytes("iterator?");
    reveal_strlit("attr");
    vstd::string::is_ascii_spec_bytes("attr");
    reveal_strlit("exists?");
    vstd::string::is_ascii_spec_bytes("exists?");
    reveal_strlit("clone");
    vstd::string::is_ascii_spec_bytes("clone");
    reveal_strlit("dup");
    vstd::string::is_ascii_spec_bytes("dup");
    reveal_strlit("freeze");
    vstd::string::is_ascii_spec_bytes("freeze");
    reveal_strlit("gethostbyaddr");
    vstd::string::is_ascii_spec_bytes("gethostbyaddr");
    reveal_strlit("gethostbyname");
    vstd::string::is_ascii_spec_bytes("gethostbyname");
    assert("gethostbyaddr".spec_bytes()[9] != "gethostbyname".spec_bytes()[9]);
}

} // verus!
