//! Lint/AmbiguousRange: a range boundary that is an expression whose
//! extent is not obvious, such as `x + 1..y`.
use vstd::prelude::*;
use vstd::string::StringSliceAdditionalSpecFns;
use crate::cop::lint::ambiguous_block_association::{is_operator_method, is_operator_name, BlockKind};
use crate::diagnostic::{message, reports_at, Diagnostic, Location};
use crate::text::{bytes_eq, offset_to_line_col};

verus! {

pub struct AmbiguousRange;

/// A receiver or argument, as far as the boundary rules read it.
#[derive(Clone, Copy, PartialEq, Eq, Structural)]
pub enum ValueKind {
    Integer,
    Rational,
    /// A float, a string, a symbol, `nil`, `true` or `false`.
    Basic,
    Other,
}

/// A range boundary.
pub enum Boundary {
    /// An expression in parentheses or `begin ... end`, a literal, a range,
    /// a variable, a constant or `self`.
    Plain,
    /// A method call: its name, receiver, arguments and block.
    Call { name: Vec<u8>, receiver: Option<ValueKind>, arguments: Option<Vec<ValueKind>>, block: BlockKind },
    /// Anything else, such as `a && b` or `a || b`.
    Other,
}

pub open spec fn is_basic_literal(k: ValueKind) -> bool {
    k == ValueKind::Integer || k == ValueKind::Basic
}

/// `1/3r`: an integer divided by a rational.
pub open spec fn is_rational_literal(name: Seq<u8>, receiver: Option<ValueKind>, arguments: Option<Vec<ValueKind>>) -> bool {
    &&& name == "/".spec_bytes()
    &&& receiver == Some(ValueKind::Integer)
    &&& arguments matches Some(a) && a@.len() == 1 && a@[0] == ValueKind::Rational
}

/// A boundary that needs no parentheses.
pub open spec fn acceptable_boundary(b: Boundary, require_parens_for_chains: bool) -> bool {
    match b {
        Boundary::Plain => true,
        Boundary::Call { name, receiver, arguments, block } => if block is Block {
            false
        } else if receiver is Some && arguments is None && (name@ == "-@".spec_bytes() || name@ == "+@".spec_bytes()
            || name@ == "~".spec_bytes()) {
            true
        } else if receiver is None {
            true
        } else if is_rational_literal(name@, receiver, arguments) {
            true
        } else if receiver matches Some(k) && is_basic_literal(k) {
            false
        } else if is_operator_name(name@) && name@ != "[]".spec_bytes() {
            false
        } else {
            !require_parens_for_chains
        },
        Boundary::Other => false,
    }
}

pub const AMBIGUOUS_RANGE_MESSAGE: &'static str = "Wrap complex range boundaries with parentheses to avoid ambiguity.";

/// Where the cop reports a range with boundaries `left` and `right` (each
/// with where it starts).
pub open spec fn ambiguous_boundaries(left: Option<(Boundary, usize)>, right: Option<(Boundary, usize)>, rp: bool) -> Seq<int> {
    (match left {
        Some((b, at)) => if acceptable_boundary(b, rp) { seq![] } else { seq![at as int] },
        None => seq![],
    }) + match right {
        Some((b, at)) => if acceptable_boundary(b, rp) { seq![] } else { seq![at as int] },
        None => seq![],
    }
}

/// Whether a boundary needs no parentheses.
pub fn is_acceptable_boundary(b: &Boundary, require_parens_for_chains: bool) -> (r: bool)
    ensures
        r == acceptable_boundary(*b, require_parens_for_chains),
{
    proof {
        reveal_strlit("-@");
        reveal_strlit("+@");
        reveal_strlit("~");
        reveal_strlit("/");
        reveal_strlit("[]");
    }
    match b {
        Boundary::Plain => true,
        Boundary::Call { name, receiver, arguments, block } => {
            let n = name.as_slice();
            let has_block = match block {
                BlockKind::Block { .. } => true,
                _ => false,
            };
            if has_block {
                return false;
            }
            if receiver.is_some() && arguments.is_none() && (bytes_eq(n, "-@".as_bytes()) || bytes_eq(n, "+@".as_bytes())
                || bytes_eq(n, "~".as_bytes())) {
                return true;
            }
            if receiver.is_none() {
                return true;
            }
            let rational = bytes_eq(n, "/".as_bytes()) && *receiver == Some(ValueKind::Integer) && match arguments {
                Some(a) => a.len() == 1 && a[0] == ValueKind::Rational,
                None => false,
            };
            if rational {
                return true;
            }
            let basic = match receiver {
                Some(k) => *k == ValueKind::Integer || *k == ValueKind::Basic,
                None => false,
            };
            if basic {
                return false;
            }
            if is_operator_method(n) && !bytes_eq(n, "[]".as_bytes()) {
                return false;
            }
            !require_parens_for_chains
        },
        Boundary::Other => false,
    }
}

impl AmbiguousRange {
    pub fn name(&self) -> (r: &'static str)
        ensures
            r@ == "Lint/AmbiguousRange"@,
    {
        "Lint/AmbiguousRange"
    }

    /// Checks the boundaries of one range, each with the offset where it
    /// starts; `require_parens_for_chains` is the configured
    /// `RequireParenthesesForMethodChains`.
    pub fn check_node(
        &self,
        source: &[u8],
        left: &Option<(Boundary, usize)>,
        right: &Option<(Boundary, usize)>,
        require_parens_for_chains: bool,
    ) -> (r: Vec<Diagnostic>)
        requires
            source@.len() < usize::MAX,
            left matches Some((_, at)) ==> at <= source@.len(),
            right matches Some((_, at)) ==> at <= source@.len(),
        ensures
            reports_at(source@, ambiguous_boundaries(*left, *right, require_parens_for_chains), AMBIGUOUS_RANGE_MESSAGE.spec_bytes(), r@),
    {
        let mut diags: Vec<Diagnostic> = Vec::new();
        match left {
            Some((b, at)) => {
                if !is_acceptable_boundary(b, require_parens_for_chains) {
                    let (line, column) = offset_to_line_col(source, *at);
                    diags.push(Diagnostic { location: Location { line, column }, message: message(AMBIGUOUS_RANGE_MESSAGE), corrected: false });
                }
            },
            None => {},
        }
        let ghost d1 = diags@;
        match right {
            Some((b, at)) => {
                if !is_acceptable_boundary(b, require_parens_for_chains) {
                    let (line, column) = offset_to_line_col(source, *at);
                    diags.push(Diagnostic { location: Location { line, column }, message: message(AMBIGUOUS_RANGE_MESSAGE), corrected: false });
                    assert(diags@[d1.len() as int] == diags@.last());
                }
            },
            None => {},
        }
        diags
    }
}


/// A range boundary needs no parentheses when it is a plain value, a call
/// without receiver, or a unary `-`, `+` or `~` on a value; a call with a
/// block, and any other expression but a call, always needs them.
pub proof fn law_range_boundaries(b: Boundary, require_parens_for_chains: bool)
    ensures
        b is Plain ==> acceptable_boundary(b, require_parens_for_chains),
        b is Other ==> !acceptable_boundary(b, require_parens_for_chains),
        b matches Boundary::Call { block, .. } && block is Block ==> !acceptable_boundary(b, require_parens_for_chains),
        b matches Boundary::Call { receiver, block, .. } && !(block is Block) && receiver is None
            ==> acceptable_boundary(b, require_parens_for_chains),
        b matches Boundary::Call { name, receiver, arguments, block } && !(block is Block) && receiver is Some
            && arguments is None && (name@ == "-@".spec_bytes() || name@ == "+@".spec_bytes() || name@ == "~".spec_bytes())
            ==> acceptable_boundary(b, require_parens_for_chains),
{
}

} // verus!
