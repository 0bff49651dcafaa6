//! Lint/CircularArgumentReference: a parameter whose default value reads
//! the parameter itself, `def foo(x = x)` or `def foo(x: x)`.
use vstd::prelude::*;
use vstd::string::StringSliceAdditionalSpecFns;
use crate::bytes::append;
use crate::diagnostic::{message, Diagnostic, Location};
use crate::text::{bytes_eq, offset_to_line_col, spec_line_col, utf8_or, utf8_valid};

verus! {

pub struct CircularArgumentReference;

/// The message for parameter `name`.
pub open spec fn circular_message(name: Seq<u8>) -> Seq<u8> {
    "Circular argument reference - `".spec_bytes() + utf8_or(name, "?".spec_bytes()) + "`.".spec_bytes()
}

impl CircularArgumentReference {
    pub fn name(&self) -> (r: &'static str)
        ensures
            r@ == "Lint/CircularArgumentReference"@,
    {
        "Lint/CircularArgumentReference"
    }

    /// Checks an optional parameter named `param_name` whose default value
    /// starts at `value_start`; `value_local` is the name of the local
    /// variable that the value reads, when it is one.
    pub fn check_node(&self, source: &[u8], param_name: &[u8], value_local: &Option<Vec<u8>>, value_start: usize) -> (r: Option<
        Diagnostic,
    >)
        requires
            value_start <= source@.len() < usize::MAX,
        ensures
            match value_local {
                Some(v) => if v@ == param_name@ {
                    r matches Some(d) && d.location.line == spec_line_col(source@, value_start as int).0
                        && d.location.column == spec_line_col(source@, value_start as int).1 && d.message@ == circular_message(
                        param_name@,
                    ) && !d.corrected
                } else {
                    r is None
                },
                None => r is None,
            },
    {
        match value_local {
            Some(v) => {
                if !bytes_eq(v.as_slice(), param_name) {
                    return None;
                }
                let mut m = message("Circular argument reference - `");
                if utf8_valid(param_name) {
                    append(&mut m, param_name);
                } else {
                    append(&mut m, "?".as_bytes());
                }
                append(&mut m, "`.".as_bytes());
                let (line, column) = offset_to_line_col(source, value_start);
                Some(Diagnostic { location: Location { line, column }, message: m, corrected: false })
            },
            None => None,
        }
    }
}

} // verus!
