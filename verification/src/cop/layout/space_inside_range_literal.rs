//! Layout/SpaceInsideRangeLiteral: no space around the operator of a range
//! literal such as `1..2`.
use vstd::prelude::*;
use vstd::string::StringSliceAdditionalSpecFns;
use crate::diagnostic::{message, Correction, Diagnostic, Location};
use crate::text::{
    blank_run_back, blank_run_end, contains_blank, has_blank, offset_to_line_col, skip_blanks,
    skip_blanks_back, spec_line_col, CARRIAGE_RETURN, NEWLINE,
};

verus! {

pub struct SpaceInsideRangeLiteral;

pub const SPACE_INSIDE_RANGE_MESSAGE: &'static str = "Space inside range literal.";

/// The offsets of a range literal that the cop reads.
pub struct RangeNode {
    /// Where the whole literal starts.
    pub start: usize,
    /// Where its left operand ends, if it has one.
    pub left_end: Option<usize>,
    /// Where its right operand starts, if it has one.
    pub right_start: Option<usize>,
    /// The span of the `..` or `...` operator.
    pub op_start: usize,
    pub op_end: usize,
}

/// A line break followed only by spaces and tabs.
pub open spec fn spec_is_pure_multiline_gap(g: Seq<u8>) -> bool {
    (g.len() >= 2 && g[0] == CARRIAGE_RETURN && g[1] == NEWLINE && blank_run_end(g, 2) == g.len())
        || (g.len() >= 1 && g[0] == NEWLINE && blank_run_end(g, 1) == g.len())
}

/// The start of the spaces and tabs that end at `upper`, going no lower
/// than `lower`, if there are any.
pub open spec fn spec_horizontal_whitespace_run_before(s: Seq<u8>, lower: int, upper: int) -> Option<int> {
    if upper == 0 || upper <= lower {
        None
    } else {
        let st = blank_run_back(s, upper, lower);
        if st < upper {
            Some(st)
        } else {
            None
        }
    }
}

/// The space between the left operand and the operator, if any.
pub open spec fn space_before_range(s: Seq<u8>, n: RangeNode) -> Option<(int, int)> {
    match n.left_end {
        Some(le) => if n.op_start > le {
            if has_blank(s, le as int, n.op_start as int) {
                Some((le as int, n.op_start as int))
            } else {
                None
            }
        } else {
            match spec_horizontal_whitespace_run_before(s, n.start as int, n.op_start as int) {
                Some(st) => Some((st, n.op_start as int)),
                None => None,
            }
        },
        None => None,
    }
}

/// The gap between the operator and the right operand, if there is one,
/// and whether it is a plain line break with indentation.
pub open spec fn gap_after_range(s: Seq<u8>, n: RangeNode) -> Option<(int, int, bool)> {
    match n.right_start {
        Some(rs) => if rs > n.op_end {
            let between = s.subrange(n.op_end as int, rs as int);
            if spec_is_pure_multiline_gap(between) {
                Some((n.op_end as int, rs as int, true))
            } else if has_blank(s, n.op_end as int, rs as int) {
                Some((n.op_end as int, rs as int, false))
            } else {
                None
            }
        } else {
            None
        },
        None => None,
    }
}

/// Whether the range literal has a space to report.
pub open spec fn range_has_space(s: Seq<u8>, n: RangeNode) -> bool {
    space_before_range(s, n) is Some || (gap_after_range(s, n) matches Some(g) && !g.2)
}

/// The edits that remove the spaces: before, after, and a line break
/// after the operator when one of the others is removed too.
pub open spec fn range_edits(s: Seq<u8>, n: RangeNode) -> Seq<(int, int)> {
    let before = match space_before_range(s, n) {
        Some(b) => seq![b],
        None => seq![],
    };
    let after = match gap_after_range(s, n) {
        Some(g) => if !g.2 || range_has_space(s, n) {
            seq![(g.0, g.1)]
        } else {
            seq![]
        },
        None => seq![],
    };
    before + after
}

pub open spec fn range_node_in_bounds(len: int, n: RangeNode) -> bool {
    &&& n.start <= n.op_start <= n.op_end <= len
    &&& n.left_end matches Some(le) ==> le <= len
    &&& n.right_start matches Some(rs) ==> rs <= len
}

/// Whether a gap is a line break followed only by spaces and tabs.
pub fn is_pure_multiline_gap(bytes: &[u8]) -> (r: bool)
    ensures
        r == spec_is_pure_multiline_gap(bytes@),
{
    if bytes.len() >= 2 && bytes[0] == CARRIAGE_RETURN && bytes[1] == NEWLINE {
        return skip_blanks(bytes, 2) == bytes.len();
    }
    if bytes.len() >= 1 && bytes[0] == NEWLINE {
        return skip_blanks(bytes, 1) == bytes.len();
    }
    false
}

/// The start of the spaces and tabs that end at `upper_bound`, not below
/// `lower_bound`, if there are any.
pub fn horizontal_whitespace_run_before(bytes: &[u8], lower_bound: usize, upper_bound: usize) -> (r: Option<usize>)
    requires
        upper_bound <= bytes@.len(),
    ensures
        opt_eq(r, spec_horizontal_whitespace_run_before(bytes@, lower_bound as int, upper_bound as int)),
{
    if upper_bound == 0 || upper_bound <= lower_bound {
        return None;
    }
    let start = skip_blanks_back(bytes, upper_bound, lower_bound);
    if start < upper_bound {
        Some(start)
    } else {
        None
    }
}

pub open spec fn opt_eq(a: Option<usize>, b: Option<int>) -> bool {
    match a {
        Some(x) => b == Some(x as int),
        None => b is None,
    }
}

impl SpaceInsideRangeLiteral {
    pub fn name(&self) -> (r: &'static str)
        ensures
            r@ == "Layout/SpaceInsideRangeLiteral"@,
    {
        "Layout/SpaceInsideRangeLiteral"
    }

    pub fn supports_autocorrect(&self) -> (r: bool)
        ensures
            r,
    {
        true
    }

    /// Reports a range literal with space around its operator, and with
    /// `autocorrect` the edits that remove it.
    pub fn check_node(&self, source: &[u8], node: &RangeNode, autocorrect: bool) -> (r: (
        Vec<Diagnostic>,
        Vec<Correction>,
    ))
        requires
            source@.len() < usize::MAX,
            range_node_in_bounds(source@.len() as int, *node),
        ensures
            r.0@.len() == (if range_has_space(source@, *node) {
                1int
            } else {
                0
            }),
            r.0@.len() == 1 ==> {
                &&& r.0@[0].location.line == spec_line_col(source@, node.start as int).0
                &&& r.0@[0].location.column == spec_line_col(source@, node.start as int).1
                &&& r.0@[0].message@ == SPACE_INSIDE_RANGE_MESSAGE.spec_bytes()
                &&& r.0@[0].corrected == autocorrect
            },
            r.1@.len() == (if autocorrect && range_has_space(source@, *node) {
                range_edits(source@, *node).len()
            } else {
                0
            }),
            forall|k: int|
                0 <= k < r.1@.len() ==> {
                    &&& (#[trigger] r.1@[k]).start == range_edits(source@, *node)[k].0
                    &&& r.1@[k].end == range_edits(source@, *node)[k].1
                    &&& r.1@[k].replacement@.len() == 0
                },
    {
        let mut before: Option<(usize, usize)> = None;
        match node.left_end {
            Some(le) => {
                if node.op_start > le {
                    if contains_blank(source, le, node.op_start) {
                        before = Some((le, node.op_start));
                    }
                } else {
                    match horizontal_whitespace_run_before(source, node.start, node.op_start) {
                        Some(st) => {
                            before = Some((st, node.op_start));
                        },
                        None => {},
                    }
                }
            },
            None => {},
        }
        let mut after: Option<(usize, usize)> = None;
        let mut multiline: Option<(usize, usize)> = None;
        match node.right_start {
            Some(rs) => {
                if rs > node.op_end {
                    let between = &source[node.op_end..rs];
                    if is_pure_multiline_gap(between) {
                        multiline = Some((node.op_end, rs));
                    } else if contains_blank(source, node.op_end, rs) {
                        after = Some((node.op_end, rs));
                    }
                }
            },
            None => {},
        }
        let has_space = before.is_some() || after.is_some();
        let ghost edits = range_edits(source@, *node);
        assert(has_space == range_has_space(source@, *node));
        let mut diags: Vec<Diagnostic> = Vec::new();
        let mut corrections: Vec<Correction> = Vec::new();
        if has_space {
            let (line, column) = offset_to_line_col(source, node.start);
            diags.push(
                Diagnostic {
                    location: Location { line, column },
                    message: message(SPACE_INSIDE_RANGE_MESSAGE),
                    corrected: autocorrect,
                },
            );
            if autocorrect {
                match before {
                    Some((a, b)) => {
                        corrections.push(Correction { start: a, end: b, replacement: Vec::new() });
                    },
                    None => {},
                }
                match after {
                    Some((a, b)) => {
                        corrections.push(Correction { start: a, end: b, replacement: Vec::new() });
                    },
                    None => {},
                }
                match multiline {
                    Some((a, b)) => {
                        corrections.push(Correction { start: a, end: b, replacement: Vec::new() });
                    },
                    None => {},
                }
            }
        }
        (diags, corrections)
    }
}

} // verus!
