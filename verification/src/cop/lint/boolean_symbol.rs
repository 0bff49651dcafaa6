//! Lint/BooleanSymbol: `:true` and `:false` are probably meant as booleans.
use vstd::prelude::*;
use vstd::string::StringSliceAdditionalSpecFns;
use crate::ascii::COLON;
use crate::bytes::append;
use crate::diagnostic::{message, Diagnostic, Location};
use crate::text::{bytes_eq, offset_to_line_col, spec_line_col};

verus! {

pub struct BooleanSymbol;

/// What the cop reads of a node.
pub enum BooleanSymbolNode {
    /// A symbol: its opening (`:`, `:"`, or none inside `%i[]`), its value
    /// and where it starts.
    Symbol { opening: Option<Vec<u8>>, unescaped: Vec<u8>, start: usize },
    /// A hash pair: whether it has a `=>` and, if its key is a symbol, the
    /// key's value and start.
    Assoc { has_operator: bool, symbol_key: Option<(Vec<u8>, usize)> },
    Other,
}

pub open spec fn is_boolean_name(v: Seq<u8>) -> bool {
    v == "true".spec_bytes() || v == "false".spec_bytes()
}

/// The message for a symbol named `name`.
pub open spec fn boolean_symbol_message(name: Seq<u8>) -> Seq<u8> {
    "Symbol with a boolean name - you probably meant to use `".spec_bytes() + name + "`.".spec_bytes()
}

/// Where the cop reports the node, and the symbol's value, if it does.
pub open spec fn boolean_symbol_offense(node: BooleanSymbolNode) -> Option<(int, Seq<u8>)> {
    match node {
        BooleanSymbolNode::Symbol { opening, unescaped, start } => match opening {
            Some(o) => if o@.len() > 0 && o@[0] == COLON && is_boolean_name(unescaped@) {
                Some((start as int, unescaped@))
            } else {
                None
            },
            None => None,
        },
        BooleanSymbolNode::Assoc { has_operator, symbol_key } => if has_operator {
            None
        } else {
            match symbol_key {
                Some(k) => if is_boolean_name(k.0@) {
                    Some((k.1 as int, k.0@))
                } else {
                    None
                },
                None => None,
            }
        },
        BooleanSymbolNode::Other => None,
    }
}

/// `"true"` or `"false"` when `value` is one of them.
pub fn boolean_symbol_name(value: &[u8]) -> (r: Option<&'static str>)
    ensures
        match r {
            Some(x) => is_boolean_name(value@) && x.spec_bytes() == value@,
            None => !is_boolean_name(value@),
        },
{
    if bytes_eq(value, "true".as_bytes()) {
        Some("true")
    } else if bytes_eq(value, "false".as_bytes()) {
        Some("false")
    } else {
        None
    }
}

impl BooleanSymbol {
    pub fn name(&self) -> (r: &'static str)
        ensures
            r@ == "Lint/BooleanSymbol"@,
    {
        "Lint/BooleanSymbol"
    }

    /// The offense for `node`, if any.
    pub fn check_node(&self, source: &[u8], node: &BooleanSymbolNode) -> (r: Option<Diagnostic>)
        requires
            source@.len() < usize::MAX,
            node matches BooleanSymbolNode::Symbol { start, .. } ==> start <= source@.len(),
            node matches BooleanSymbolNode::Assoc { symbol_key: Some(k), .. } ==> k.1
                <= source@.len(),
        ensures
            match boolean_symbol_offense(*node) {
                Some((at, name)) => r matches Some(d) && d.location.line == spec_line_col(
                    source@,
                    at,
                ).0 && d.location.column == spec_line_col(source@, at).1 && d.message@
                    == boolean_symbol_message(name) && !d.corrected,
                None => r is None,
            },
    {
        let (value, start) = match node {
            BooleanSymbolNode::Symbol { opening, unescaped, start } => {
                match opening {
                    Some(o) => {
                        if o.len() == 0 || o[0] != COLON {
                            return None;
                        }
                    },
                    None => {
                        return None;
                    },
                }
                (unescaped, *start)
            },
            BooleanSymbolNode::Assoc { has_operator, symbol_key } => {
                if *has_operator {
                    return None;
                }
                match symbol_key {
                    Some(k) => (&k.0, k.1),
                    None => {
                        return None;
                    },
                }
            },
            BooleanSymbolNode::Other => {
                return None;
            },
        };
        let name = match boolean_symbol_name(value.as_slice()) {
            Some(n) => n,
            None => {
                return None;
            },
        };
        let (line, column) = offset_to_line_col(source, start);
        let mut msg = message("Symbol with a boolean name - you probably meant to use `");
        append(&mut msg, name.as_bytes());
        append(&mut msg, "`.".as_bytes());
        Some(Diagnostic { location: Location { line, column }, message: msg, corrected: false })
    }
}

} // verus!
