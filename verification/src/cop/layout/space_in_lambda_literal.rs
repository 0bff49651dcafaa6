//! Layout/SpaceInLambdaLiteral: the space between `->` and the `(` of a
//! lambda literal's parameters, required or forbidden.
use vstd::prelude::*;
use vstd::string::StringSliceAdditionalSpecFns;
use crate::ascii::LPAREN;
use crate::diagnostic::{message, Diagnostic, Location};
use crate::text::{bytes_eq, contains_blank, has_blank, offset_to_line_col, spec_line_col};

verus! {

pub struct SpaceInLambdaLiteral;

/// How many parameters of each kind a parameter list has.
#[derive(Clone, Copy)]
pub struct ParameterCounts {
    pub requireds: usize,
    pub optionals: usize,
    pub rest: bool,
    pub posts: usize,
    pub keywords: usize,
    pub keyword_rest: bool,
    pub block: bool,
}

/// The parameters of a lambda: none, a block parameter list (with its
/// parameters, if any), or numbered parameters.
#[derive(Clone, Copy)]
pub enum LambdaParameters {
    Absent,
    Block { parameters: Option<ParameterCounts> },
    Numbered,
}

/// The lambda has parameters: `-> () {}` has none.
pub open spec fn has_real_parameters(p: LambdaParameters) -> bool {
    match p {
        LambdaParameters::Absent => false,
        LambdaParameters::Block { parameters } => match parameters {
            Some(c) => c.requireds > 0 || c.optionals > 0 || c.rest || c.posts > 0 || c.keywords > 0 || c.keyword_rest
                || c.block,
            None => false,
        },
        LambdaParameters::Numbered => true,
    }
}

/// The first `b` in `[from, to)`.
pub open spec fn first_byte(s: Seq<u8>, b: u8, from: int, to: int) -> Option<int>
    decreases to - from,
{
    if from >= to {
        None
    } else if s[from] == b {
        Some(from)
    } else {
        first_byte(s, b, from + 1, to)
    }
}

pub const REQUIRE_SPACE_MESSAGE: &'static str = "Use a space between `->` and `(` in lambda literals.";

pub const REQUIRE_NO_SPACE_MESSAGE: &'static str = "Do not use spaces between `->` and `(` in lambda literals.";

/// The message for a lambda whose `->` ends at `arrow_end` and whose body
/// opens at `opening_start`, if the cop reports it.
pub open spec fn lambda_offense(s: Seq<u8>, p: LambdaParameters, arrow_end: int, opening_start: int, style: Seq<u8>) -> Option<
    Seq<u8>,
> {
    let search_end = if opening_start < s.len() { opening_start } else { s.len() as int };
    if !has_real_parameters(p) || !(arrow_end < search_end) {
        None
    } else {
        match first_byte(s, LPAREN, arrow_end, search_end) {
            Some(paren) => {
                let space = has_blank(s, arrow_end, paren);
                if style == "require_space".spec_bytes() {
                    if space {
                        None
                    } else {
                        Some(REQUIRE_SPACE_MESSAGE.spec_bytes())
                    }
                } else if space {
                    Some(REQUIRE_NO_SPACE_MESSAGE.spec_bytes())
                } else {
                    None
                }
            },
            None => None,
        }
    }
}

impl SpaceInLambdaLiteral {
    pub fn name(&self) -> (r: &'static str)
        ensures
            r@ == "Layout/SpaceInLambdaLiteral"@,
    {
        "Layout/SpaceInLambdaLiteral"
    }

    /// Checks one lambda literal; `style` is the configured
    /// `EnforcedStyle`.
    pub fn check_node(
        &self,
        source: &[u8],
        parameters: LambdaParameters,
        arrow_end: usize,
        opening_start: usize,
        style: &[u8],
    ) -> (r: Option<Diagnostic>)
        requires
            source@.len() < usize::MAX,
        ensures
            match lambda_offense(source@, parameters, arrow_end as int, opening_start as int, style@) {
                Some(msg) => r matches Some(d) && d.location.line == spec_line_col(source@, arrow_end as int).0
                    && d.location.column == spec_line_col(source@, arrow_end as int).1 && d.message@ == msg
                    && !d.corrected,
                None => r is None,
            },
    {
        let has_params = match parameters {
            LambdaParameters::Absent => false,
            LambdaParameters::Block { parameters } => match parameters {
                Some(c) => c.requireds > 0 || c.optionals > 0 || c.rest || c.posts > 0 || c.keywords > 0 || c.keyword_rest
                    || c.block,
                None => false,
            },
            LambdaParameters::Numbered => true,
        };
        let search_end = if opening_start < source.len() { opening_start } else { source.len() };
        if !has_params || !(arrow_end < search_end) {
            return None;
        }
        let mut paren = arrow_end;
        while paren < search_end && source[paren] != LPAREN
            invariant
                arrow_end <= paren <= search_end <= source@.len(),
                first_byte(source@, LPAREN, paren as int, search_end as int) == first_byte(source@, LPAREN, arrow_end as int, search_end as int),
            decreases search_end - paren,
        {
            paren = paren + 1;
        }
        if paren >= search_end {
            return None;
        }
        let space = contains_blank(source, arrow_end, paren);
        proof {
            reveal_strlit("require_space");
        }
        let msg = if bytes_eq(style, "require_space".as_bytes()) {
            if space {
                return None;
            }
            REQUIRE_SPACE_MESSAGE
        } else {
            if !space {
                return None;
            }
            REQUIRE_NO_SPACE_MESSAGE
        };
        let (line, column) = offset_to_line_col(source, arrow_end);
        Some(Diagnostic { location: Location { line, column }, message: message(msg), corrected: false })
    }
}

} // verus!
