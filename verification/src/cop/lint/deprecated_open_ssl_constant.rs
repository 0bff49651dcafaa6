//! Lint/DeprecatedOpenSSLConstant: `OpenSSL::Cipher::AES.new(...)` and
//! `OpenSSL::Digest::SHA256.new(...)` or `.digest(...)`, which the
//! algorithm name as an argument of the parent class replaces.
use vstd::prelude::*;
use vstd::string::StringSliceAdditionalSpecFns;
use crate::bytes::append;
use crate::diagnostic::{message, Diagnostic, Location};
use crate::text::{bytes_eq, offset_to_line_col, spec_line_col, utf8_or, utf8_valid};

verus! {

pub struct DeprecatedOpenSSLConstant;

/// An argument of the call, by the kinds that stop the cop.
#[derive(Clone, Copy, PartialEq, Eq, Structural)]
pub enum OpenSslArg {
    /// A local, instance, class or global variable.
    Variable,
    /// A method call.
    Call,
    /// A constant, `Foo` or `Foo::Bar`.
    Constant,
    Other,
}

/// The parent `A::B` of the receiver, when it is a constant path: its
/// name `B`, its span, and the name of `A` when `A` is a constant.
pub struct ParentPath {
    pub name: Option<Vec<u8>>,
    pub start: usize,
    pub end: usize,
    pub grandparent: Option<Vec<u8>>,
}

/// The receiver of the call, when it is a constant path `P::Name`.
pub struct ReceiverPath {
    pub name: Option<Vec<u8>>,
    pub start: usize,
    pub end: usize,
    pub parent: Option<ParentPath>,
}

/// A method call that starts at `start`.
pub struct OpenSslCall {
    pub name: Vec<u8>,
    pub arguments: Vec<OpenSslArg>,
    pub receiver: Option<ReceiverPath>,
    pub start: usize,
}

pub open spec fn lit(s: &str) -> Seq<u8> {
    s.spec_bytes()
}

pub open spec fn name_is(n: Option<Vec<u8>>, v: Seq<u8>) -> bool {
    n matches Some(x) && x@ == v
}

pub open spec fn has_dynamic_argument(args: Seq<OpenSslArg>) -> bool {
    exists|k: int| 0 <= k < args.len() && #[trigger] args[k] != OpenSslArg::Other
}

/// Where the cop reports a call and with which message, if it does.
pub open spec fn openssl_offense(s: Seq<u8>, c: OpenSslCall) -> Option<(int, Seq<u8>)> {
    if !(c.name@ == lit("new") || c.name@ == lit("digest")) || has_dynamic_argument(c.arguments@) {
        None
    } else {
        match c.receiver {
            Some(r) => match (r.name, r.parent) {
                (Some(algo), Some(p)) => if !(name_is(p.name, lit("Cipher")) || name_is(p.name, lit("Digest"))) {
                    None
                } else if name_is(p.name, lit("Digest")) && algo@ == lit("Digest") {
                    None
                } else if !name_is(p.grandparent, lit("OpenSSL")) {
                    None
                } else {
                    Some((
                        c.start as int,
                        lit("Use `") + utf8_or(s.subrange(p.start as int, p.end as int), lit("OpenSSL::Cipher")) + lit(
                            "` instead of `",
                        ) + utf8_or(s.subrange(r.start as int, r.end as int), lit("OpenSSL::Cipher::AES")) + lit("`."),
                    ))
                },
                _ => None,
            },
            None => None,
        }
    }
}

pub open spec fn openssl_call_in_bounds(len: int, c: OpenSslCall) -> bool {
    &&& c.start <= len
    &&& (c.receiver matches Some(r) ==> r.start <= r.end <= len && (r.parent matches Some(p) ==> p.start <= p.end <= len))
}

fn name_is_exec(n: &Option<Vec<u8>>, v: &str) -> (r: bool)
    ensures
        r == name_is(*n, v.spec_bytes()),
{
    match n {
        Some(x) => bytes_eq(x.as_slice(), v.as_bytes()),
        None => false,
    }
}

fn push_text(out: &mut Vec<u8>, source: &[u8], a: usize, b: usize, fallback: &str)
    requires
        a <= b <= source@.len(),
    ensures
        final(out)@ == old(out)@ + utf8_or(source@.subrange(a as int, b as int), fallback.spec_bytes()),
{
    let t = &source[a..b];
    if utf8_valid(t) {
        append(out, t);
    } else {
        append(out, fallback.as_bytes());
    }
}

impl DeprecatedOpenSSLConstant {
    pub fn name(&self) -> (r: &'static str)
        ensures
            r@ == "Lint/DeprecatedOpenSSLConstant"@,
    {
        "Lint/DeprecatedOpenSSLConstant"
    }

    /// The offense of one call, if it names an algorithm by a deprecated
    /// constant.
    pub fn check_node(&self, source: &[u8], call: &OpenSslCall) -> (r: Option<Diagnostic>)
        requires
            source@.len() < usize::MAX,
            openssl_call_in_bounds(source@.len() as int, *call),
        ensures
            match openssl_offense(source@, *call) {
                Some((at, msg)) => r matches Some(d) && d.location.line == spec_line_col(source@, at).0
                    && d.location.column == spec_line_col(source@, at).1 && d.message@ == msg && !d.corrected,
                None => r is None,
            },
    {
        proof {
            reveal_strlit("new");
            reveal_strlit("digest");
        }
        let n = call.name.as_slice();
        if !(bytes_eq(n, "new".as_bytes()) || bytes_eq(n, "digest".as_bytes())) {
            return None;
        }
        let mut k: usize = 0;
        while k < call.arguments.len()
            invariant
                k <= call.arguments@.len(),
                forall|j: int| 0 <= j < k ==> call.arguments@[j] == OpenSslArg::Other,
            decreases call.arguments@.len() - k,
        {
            if call.arguments[k] != OpenSslArg::Other {
                assert(call.arguments@[k as int] != OpenSslArg::Other);
                return None;
            }
            k = k + 1;
        }
        let r = match &call.receiver {
            Some(r) => r,
            None => {
                return None;
            },
        };
        let algo = match &r.name {
            Some(a) => a,
            None => {
                return None;
            },
        };
        let p = match &r.parent {
            Some(p) => p,
            None => {
                return None;
            },
        };
        if !(name_is_exec(&p.name, "Cipher") || name_is_exec(&p.name, "Digest")) {
            return None;
        }
        proof {
            reveal_strlit("Digest");
        }
        if name_is_exec(&p.name, "Digest") && bytes_eq(algo.as_slice(), "Digest".as_bytes()) {
            return None;
        }
        if !name_is_exec(&p.grandparent, "OpenSSL") {
            return None;
        }
        let mut m = message("Use `");
        push_text(&mut m, source, p.start, p.end, "OpenSSL::Cipher");
        append(&mut m, "` instead of `".as_bytes());
        push_text(&mut m, source, r.start, r.end, "OpenSSL::Cipher::AES");
        append(&mut m, "`.".as_bytes());
        let (line, column) = offset_to_line_col(source, call.start);
        Some(Diagnostic { location: Location { line, column }, message: m, corrected: false })
    }
}


/// `new` or `digest` with constant arguments only, called on
/// `OpenSSL::Cipher::Name` or on `OpenSSL::Digest::Name` (but
/// `OpenSSL::Digest::Digest`), is reported at the call with the class to
/// use in its place; a call of another method, or on another receiver, is
/// not.
pub proof fn law_openssl_algorithm_constants(s: Seq<u8>, c: OpenSslCall)
    ensures
        (c.name@ == "new".spec_bytes() || c.name@ == "digest".spec_bytes()) && !has_dynamic_argument(c.arguments@)
            && c.receiver is Some ==> ({
            let r = c.receiver->0;
            r.name is Some && r.parent is Some ==> ({
                let p = r.parent->0;
                name_is(p.grandparent, "OpenSSL".spec_bytes()) && (name_is(p.name, "Cipher".spec_bytes())
                    || (name_is(p.name, "Digest".spec_bytes()) && r.name->0@ != "Digest".spec_bytes()))
                    ==> openssl_offense(s, c) == Some((
                    c.start as int,
                    "Use `".spec_bytes() + utf8_or(s.subrange(p.start as int, p.end as int), "OpenSSL::Cipher".spec_bytes())
                        + "` instead of `".spec_bytes() + utf8_or(s.subrange(r.start as int, r.end as int),
                        "OpenSSL::Cipher::AES".spec_bytes()) + "`.".spec_bytes(),
                ))
            })
        }),
        !(c.name@ == "new".spec_bytes() || c.name@ == "digest".spec_bytes()) ==> openssl_offense(s, c) is None,
        c.receiver is Some && (c.receiver->0).parent is Some && !name_is((c.receiver->0).parent->0.name, "Cipher".spec_bytes())
            && !name_is((c.receiver->0).parent->0.name, "Digest".spec_bytes()) ==> openssl_offense(s, c) is None,
{
    reveal_strlit("new");
    vstd::string::is_ascii_spec_bytes("new");
    reveal_strlit("digest");
    vstd::string::is_ascii_spec_bytes("digest");
    reveal_strlit("Cipher");
    vstd::string::is_ascii_spec_bytes("Cipher");
    reveal_strlit("Digest");
    vstd::string::is_ascii_spec_bytes("Digest");
    reveal_strlit("OpenSSL");
    vstd::string::is_ascii_spec_bytes("OpenSSL");
    assert("digest".spec_bytes()[0] != "Cipher".spec_bytes()[0]);
    assert("digest".spec_bytes()[0] != "Digest".spec_bytes()[0]);
    assert("Cipher".spec_bytes()[0] != "Digest".spec_bytes()[0]);
}

} // verus!
