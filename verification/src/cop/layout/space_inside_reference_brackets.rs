//! Layout/SpaceInsideReferenceBrackets: spacing inside the brackets of an
//! element reference such as `hash[:key]`.
use vstd::prelude::*;
use vstd::string::StringSliceAdditionalSpecFns;
use crate::ascii::{LBRACKET, RBRACKET};
use crate::cop::layout::space_around_block_parameters::is_ws;
use crate::cop::layout::space_inside_array_literal_brackets::{is_only_whitespace, spec_is_only_whitespace};
use crate::diagnostic::{
    appends_events, event, event_if, lemma_appends_concat, lemma_appends_nothing, push_event_if,
    reports_events, Correction, Diagnostic, Event,
};
use crate::text::{bytes_eq, offset_to_line_col, spec_line_col, CARRIAGE_RETURN, NEWLINE, SPACE, TAB};

verus! {

pub struct SpaceInsideReferenceBrackets;

/// The last byte before `offset` that is no whitespace.
pub open spec fn spec_previous_non_whitespace_byte(s: Seq<u8>, offset: int) -> Option<u8>
    decreases offset,
{
    if offset <= 0 {
        None
    } else if is_ws(s[offset - 1]) {
        spec_previous_non_whitespace_byte(s, offset - 1)
    } else {
        Some(s[offset - 1])
    }
}

/// The last byte before `offset` that is no space, tab or line break.
pub fn previous_non_whitespace_byte(bytes: &[u8], offset: usize) -> (r: Option<u8>)
    requires
        offset <= bytes@.len(),
    ensures
        r == spec_previous_non_whitespace_byte(bytes@, offset as int),
{
    let mut i = offset;
    while i > 0
        invariant
            i <= offset <= bytes@.len(),
            spec_previous_non_whitespace_byte(bytes@, i as int) == spec_previous_non_whitespace_byte(bytes@, offset as int),
        decreases i,
    {
        let b = bytes[i - 1];
        if !(b == SPACE || b == TAB || b == NEWLINE || b == CARRIAGE_RETURN) {
            return Some(b);
        }
        i = i - 1;
    }
    None
}

/// An element reference or element assignment, as the cop reads it.
pub enum RefNode {
    /// A method call: its name, the spans of its opening and closing
    /// delimiters, the bracket pairs (opening start, closing start) of all
    /// element references in the call and inside it, and its span.
    Call {
        name: Vec<u8>,
        opening: Option<(usize, usize)>,
        closing: Option<(usize, usize)>,
        pairs: Vec<(usize, usize)>,
        node_start: usize,
        node_end: usize,
    },
    /// `recv[i] op= v`, `recv[i] &&= v`, `recv[i] ||= v`.
    IndexWrite { has_receiver: bool, open_start: usize, close_start: usize },
    Other,
}

pub open spec fn single_byte(s: Seq<u8>, span: Option<(usize, usize)>, b: u8) -> bool {
    span matches Some(p) && s.subrange(p.0 as int, p.1 as int) == seq![b]
}

/// The pair with the least opening offset among the first `n`.
pub open spec fn first_pair(pairs: Seq<(usize, usize)>, n: int) -> (usize, usize)
    decreases n,
{
    if n <= 1 {
        pairs[0]
    } else {
        let m = first_pair(pairs, n - 1);
        if pairs[n - 1].0 < m.0 { pairs[n - 1] } else { m }
    }
}

/// The pair with the greatest opening offset among the first `n`.
pub open spec fn last_pair(pairs: Seq<(usize, usize)>, n: int) -> (usize, usize)
    decreases n,
{
    if n <= 1 {
        pairs[0]
    } else {
        let m = last_pair(pairs, n - 1);
        if pairs[n - 1].0 > m.0 { pairs[n - 1] } else { m }
    }
}

/// The brackets the cop checks in a node: for `[]=` the outermost pair,
/// for `[]` the innermost of a chain like `a[1][2]`, else the first.
pub open spec fn spec_reference_bracket_offsets(s: Seq<u8>, node: RefNode) -> Option<(usize, usize)> {
    match node {
        RefNode::Call { name, opening, closing, pairs, .. } => {
            if !(name@ == "[]".spec_bytes() || name@ == "[]=".spec_bytes()) {
                None
            } else if !(single_byte(s, opening, LBRACKET) && single_byte(s, closing, RBRACKET)) {
                None
            } else if pairs@.len() == 0 {
                None
            } else {
                let first = first_pair(pairs@, pairs@.len() as int);
                if name@ == "[]=".spec_bytes() {
                    Some(first)
                } else {
                    let last = last_pair(pairs@, pairs@.len() as int);
                    if spec_previous_non_whitespace_byte(s, last.0 as int) == Some(RBRACKET) {
                        Some(last)
                    } else {
                        Some(first)
                    }
                }
            }
        },
        RefNode::IndexWrite { has_receiver, open_start, close_start } => if has_receiver {
            Some((open_start, close_start))
        } else {
            None
        },
        RefNode::Other => None,
    }
}

/// The events for the brackets `[os, cs]` of a node.
pub open spec fn reference_bracket_events(s: Seq<u8>, node: RefNode, enforced: Seq<u8>, empty_style: Seq<u8>) -> Seq<Event> {
    match spec_reference_bracket_offsets(s, node) {
        Some((os0, cs0)) => {
            let os = os0 as int;
            let cs = cs0 as int;
            let oe = os + 1;
            let is_empty = cs == oe || (cs > oe && spec_is_only_whitespace(s, oe, cs));
            if is_empty {
                if empty_style == "no_space".spec_bytes() {
                    event_if(cs > oe, event(oe, "Do not use space inside empty reference brackets.".spec_bytes(), oe, cs, seq![]))
                } else if empty_style == "space".spec_bytes() {
                    event_if(cs == oe || cs - oe != 1, event(os, "Use one space inside empty reference brackets.".spec_bytes(), oe, cs, " ".spec_bytes()))
                } else {
                    seq![]
                }
            } else if spec_line_col(s, os).0 != spec_line_col(s, cs).0 {
                seq![]
            } else if (node matches RefNode::Call { node_start, node_end, .. } && spec_line_col(s, node_start as int).0 != spec_line_col(s, node_end as int).0) {
                seq![]
            } else {
                let sao = oe < s.len() && s[oe] == SPACE;
                let sbc = cs > 0 && s[cs - 1] == SPACE;
                if enforced == "no_space".spec_bytes() {
                    event_if(sao, event(oe, "Do not use space inside reference brackets.".spec_bytes(), oe, oe + 1, seq![]))
                        + event_if(sbc, event(cs - 1, "Do not use space inside reference brackets.".spec_bytes(), cs - 1, cs, seq![]))
                } else if enforced == "space".spec_bytes() {
                    event_if(!sao, event(oe, "Use space inside reference brackets.".spec_bytes(), oe, oe, " ".spec_bytes()))
                        + event_if(!sbc, event(cs, "Use space inside reference brackets.".spec_bytes(), cs, cs, " ".spec_bytes()))
                } else {
                    seq![]
                }
            }
        },
        None => seq![],
    }
}

pub open spec fn ref_node_well_formed(len: int, node: RefNode) -> bool {
    match node {
        RefNode::Call { opening, closing, pairs, node_start, node_end, .. } => {
            &&& opening matches Some(p) ==> p.0 <= p.1 <= len
            &&& closing matches Some(p) ==> p.0 <= p.1 <= len
            &&& node_start <= len && node_end <= len
            &&& forall|k: int| 0 <= k < pairs@.len() ==> (#[trigger] pairs@[k]).0 < pairs@[k].1 <= len
        },
        RefNode::IndexWrite { open_start, close_start, .. } => open_start < close_start <= len,
        RefNode::Other => true,
    }
}

fn first_last_pairs(pairs: &Vec<(usize, usize)>) -> (r: ((usize, usize), (usize, usize)))
    requires
        pairs@.len() > 0,
    ensures
        r.0 == first_pair(pairs@, pairs@.len() as int),
        r.1 == last_pair(pairs@, pairs@.len() as int),
{
    let mut first = pairs[0];
    let mut last = pairs[0];
    let mut i: usize = 1;
    while i < pairs.len()
        invariant
            1 <= i <= pairs@.len(),
            first == first_pair(pairs@, i as int),
            last == last_pair(pairs@, i as int),
        decreases pairs@.len() - i,
    {
        if pairs[i].0 < first.0 {
            first = pairs[i];
        }
        if pairs[i].0 > last.0 {
            last = pairs[i];
        }
        i = i + 1;
    }
    (first, last)
}

proof fn lemma_pairs_in(pairs: Seq<(usize, usize)>, n: int, len: int)
    requires
        1 <= n <= pairs.len(),
        forall|k: int| 0 <= k < pairs.len() ==> (#[trigger] pairs[k]).0 < pairs[k].1 <= len,
    ensures
        first_pair(pairs, n).0 < first_pair(pairs, n).1 <= len,
        last_pair(pairs, n).0 < last_pair(pairs, n).1 <= len,
    decreases n,
{
    if n > 1 {
        lemma_pairs_in(pairs, n - 1, len);
    }
}

fn is_single(s: &[u8], span: Option<(usize, usize)>, b: u8) -> (r: bool)
    requires
        span matches Some(p) ==> p.0 <= p.1 <= s@.len(),
    ensures
        r == single_byte(s@, span, b),
{
    match span {
        Some((x, y)) => {
            let r = y - x == 1 && s[x] == b;
            proof {
                let sub = s@.subrange(x as int, y as int);
                if r {
                    assert(sub =~= seq![b]);
                } else if sub == seq![b] {
                    assert(sub.len() == 1 && sub[0] == b);
                    assert(s@[x as int] == sub[0]);
                }
            }
            r
        },
        None => false,
    }
}

/// The brackets the cop checks in a node, as (opening start, closing
/// start).
pub fn reference_bracket_offsets(node: &RefNode, bytes: &[u8]) -> (r: Option<(usize, usize)>)
    requires
        ref_node_well_formed(bytes@.len() as int, *node),
    ensures
        r == spec_reference_bracket_offsets(bytes@, *node),
        r matches Some(p) ==> p.0 < p.1 <= bytes@.len(),
{
    match node {
        RefNode::Call { name, opening, closing, pairs, .. } => {
            let n = name.as_slice();
            let is_set = bytes_eq(n, "[]=".as_bytes());
            if !(bytes_eq(n, "[]".as_bytes()) || is_set) {
                return None;
            }
            if !(is_single(bytes, *opening, LBRACKET) && is_single(bytes, *closing, RBRACKET)) {
                return None;
            }
            if pairs.len() == 0 {
                return None;
            }
            let (first, last) = first_last_pairs(pairs);
            proof {
                lemma_pairs_in(pairs@, pairs@.len() as int, bytes@.len() as int);
            }
            if is_set {
                return Some(first);
            }
            if previous_non_whitespace_byte(bytes, last.0) == Some(RBRACKET) {
                Some(last)
            } else {
                Some(first)
            }
        },
        RefNode::IndexWrite { has_receiver, open_start, close_start } => {
            if *has_receiver {
                Some((*open_start, *close_start))
            } else {
                None
            }
        },
        RefNode::Other => None,
    }
}

impl SpaceInsideReferenceBrackets {
    pub fn name(&self) -> (r: &'static str)
        ensures
            r@ == "Layout/SpaceInsideReferenceBrackets"@,
    {
        "Layout/SpaceInsideReferenceBrackets"
    }

    pub fn supports_autocorrect(&self) -> (r: bool)
        ensures
            r,
    {
        true
    }

    fn check_content(source: &[u8], os: usize, cs: usize, enforced: &[u8], diags: &mut Vec<Diagnostic>, corrs: &mut Vec<Correction>, autocorrect: bool)
        requires
            source@.len() < usize::MAX,
            os < cs <= source@.len(),
        ensures
            ({
                let oe = os + 1;
                let sao = oe < source@.len() && source@[oe] == SPACE;
                let sbc = cs > 0 && source@[cs - 1] == SPACE;
                let evs = if enforced@ == "no_space".spec_bytes() {
                    event_if(sao, event(oe, "Do not use space inside reference brackets.".spec_bytes(), oe, oe + 1, seq![]))
                        + event_if(sbc, event(cs - 1, "Do not use space inside reference brackets.".spec_bytes(), cs - 1, cs as int, seq![]))
                } else if enforced@ == "space".spec_bytes() {
                    event_if(!sao, event(oe, "Use space inside reference brackets.".spec_bytes(), oe, oe, " ".spec_bytes()))
                        + event_if(!sbc, event(cs as int, "Use space inside reference brackets.".spec_bytes(), cs as int, cs as int, " ".spec_bytes()))
                } else {
                    seq![]
                };
                appends_events(source@, evs, autocorrect, old(diags)@, old(corrs)@, final(diags)@, final(corrs)@)
            }),
    {
        let ghost d0 = diags@;
        let ghost c0 = corrs@;
        let oe = os + 1;
        let sao = oe < source.len() && source[oe] == SPACE;
        let sbc = cs > 0 && source[cs - 1] == SPACE;
        if bytes_eq(enforced, "no_space".as_bytes()) {
            let at1 = oe;
            push_event_if(source, diags, corrs, autocorrect, sao, at1, "Do not use space inside reference brackets.", oe, oe + 1, "");
            let ghost d1 = diags@;
            let ghost c1 = corrs@;
            push_event_if(source, diags, corrs, autocorrect, sbc, cs - 1, "Do not use space inside reference brackets.", cs - 1, cs, "");
            proof {
                reveal_strlit("");
                assert("".spec_bytes() =~= Seq::<u8>::empty());
                lemma_appends_concat(
                    source@,
                    event_if(sao, event(oe as int, "Do not use space inside reference brackets.".spec_bytes(), oe as int, oe + 1, "".spec_bytes())),
                    event_if(sbc, event(cs - 1, "Do not use space inside reference brackets.".spec_bytes(), cs - 1, cs as int, "".spec_bytes())),
                    autocorrect, d0, c0, d1, c1, diags@, corrs@,
                );
            }
        } else if bytes_eq(enforced, "space".as_bytes()) {
            push_event_if(source, diags, corrs, autocorrect, !sao, oe, "Use space inside reference brackets.", oe, oe, " ");
            let ghost d1 = diags@;
            let ghost c1 = corrs@;
            push_event_if(source, diags, corrs, autocorrect, !sbc, cs, "Use space inside reference brackets.", cs, cs, " ");
            proof {
                lemma_appends_concat(
                    source@,
                    event_if(!sao, event(oe as int, "Use space inside reference brackets.".spec_bytes(), oe as int, oe as int, " ".spec_bytes())),
                    event_if(!sbc, event(cs as int, "Use space inside reference brackets.".spec_bytes(), cs as int, cs as int, " ".spec_bytes())),
                    autocorrect, d0, c0, d1, c1, diags@, corrs@,
                );
            }
        } else {
            proof {
                lemma_appends_nothing(source@, autocorrect, d0, c0);
            }
        }
    }

    /// Checks the brackets of one node. `enforced` is the configured
    /// `EnforcedStyle`, `empty_style` the `EnforcedStyleForEmptyBrackets`;
    /// each is `no_space` or `space`.
    pub fn check_node(&self, source: &[u8], node: &RefNode, enforced: &[u8], empty_style: &[u8], autocorrect: bool) -> (r: (Vec<Diagnostic>, Vec<Correction>))
        requires
            source@.len() < usize::MAX,
            ref_node_well_formed(source@.len() as int, *node),
        ensures
            reports_events(source@, reference_bracket_events(source@, *node, enforced@, empty_style@), autocorrect, r.0@, r.1@),
    {
        let mut diags: Vec<Diagnostic> = Vec::new();
        let mut corrs: Vec<Correction> = Vec::new();
        let (os, cs) = match reference_bracket_offsets(node, source) {
            Some(p) => p,
            None => {
                return (diags, corrs);
            },
        };
        let oe = os + 1;
        let is_empty = cs == oe || (cs > oe && is_only_whitespace(source, oe, cs));
        if is_empty {
            if bytes_eq(empty_style, "no_space".as_bytes()) {
                push_event_if(source, &mut diags, &mut corrs, autocorrect, cs > oe, oe, "Do not use space inside empty reference brackets.", oe, cs, "");
                proof {
                    reveal_strlit("");
                    assert("".spec_bytes() =~= Seq::<u8>::empty());
                }
            } else if bytes_eq(empty_style, "space".as_bytes()) {
                push_event_if(source, &mut diags, &mut corrs, autocorrect, cs == oe || cs - oe != 1, os, "Use one space inside empty reference brackets.", oe, cs, " ");
            }
            proof {
                assert(diags@.subrange(0, diags@.len() as int) =~= diags@);
                assert(corrs@.subrange(0, corrs@.len() as int) =~= corrs@);
            }
            return (diags, corrs);
        }
        let (open_line, _) = offset_to_line_col(source, os);
        let (close_line, _) = offset_to_line_col(source, cs);
        if open_line != close_line {
            return (diags, corrs);
        }
        match node {
            RefNode::Call { node_start, node_end, .. } => {
                let (l1, _) = offset_to_line_col(source, *node_start);
                let (l2, _) = offset_to_line_col(source, *node_end);
                if l1 != l2 {
                    return (diags, corrs);
                }
            },
            _ => {},
        }
        Self::check_content(source, os, cs, enforced, &mut diags, &mut corrs, autocorrect);
        proof {
            assert(diags@.subrange(0, diags@.len() as int) =~= diags@);
            assert(corrs@.subrange(0, corrs@.len() as int) =~= corrs@);
        }
        (diags, corrs)
    }
}

} // verus!
