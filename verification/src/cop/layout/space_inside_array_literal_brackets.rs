//! Layout/SpaceInsideArrayLiteralBrackets: spacing just inside the square
//! brackets of an array literal or array pattern.
use vstd::prelude::*;
use vstd::string::StringSliceAdditionalSpecFns;
use crate::ascii::{COMMA, LBRACKET, RBRACKET};
use crate::cop::layout::space_around_block_parameters::is_ws;
use crate::diagnostic::{
    appends_events, event, event_if, lemma_appends_concat, push_event_if, lemma_appends_nothing, push_event,
    reports_events, Correction, Diagnostic, Event,
};
use crate::text::{
    blank_run_back, blank_run_end, bytes_eq, is_blank, lemma_blank_run_back_bounds,
    lemma_blank_run_end_bounds, offset_to_line_col, skip_blanks, skip_blanks_back, spec_is_blank,
    spec_line_col, CARRIAGE_RETURN, HASH, NEWLINE, SPACE, TAB,
};

verus! {

pub struct SpaceInsideArrayLiteralBrackets;

/// The brackets of an array literal or array pattern, as source spans.
pub struct ArrayBrackets {
    pub open_start: usize,
    pub open_end: usize,
    pub close_start: usize,
    pub close_end: usize,
    /// An array pattern (`in [a, b]`) rather than an array literal.
    pub is_array_pattern: bool,
}

pub open spec fn spec_is_only_whitespace(s: Seq<u8>, start: int, end: int) -> bool {
    forall|j: int| start <= j < end ==> is_ws(#[trigger] s[j])
}

/// The last byte before `pos` that is no whitespace.
pub open spec fn spec_prev_non_whitespace(s: Seq<u8>, pos: int) -> Option<u8>
    decreases pos,
{
    if pos <= 0 {
        None
    } else if is_ws(s[pos - 1]) {
        spec_prev_non_whitespace(s, pos - 1)
    } else {
        Some(s[pos - 1])
    }
}

/// After the spaces and tabs at `pos`: a line break or the end.
pub open spec fn spec_next_to_newline(s: Seq<u8>, pos: int) -> bool {
    let i = blank_run_end(s, pos);
    i >= s.len() || s[i] == NEWLINE || s[i] == CARRIAGE_RETURN
}

/// After the spaces and tabs at `pos`: a `#`.
pub open spec fn spec_next_to_comment(s: Seq<u8>, pos: int) -> bool {
    let i = blank_run_end(s, pos);
    i < s.len() && s[i] == HASH
}

/// After the spaces and tabs at `pos`, a line break, and then, after more
/// spaces and tabs, a `#`.
pub open spec fn spec_next_line_starts_with_comment(s: Seq<u8>, pos: int) -> bool {
    let i = blank_run_end(s, pos);
    if i >= s.len() {
        false
    } else {
        let j = if s[i] == NEWLINE {
            i + 1
        } else if s[i] == CARRIAGE_RETURN {
            if i + 1 < s.len() && s[i + 1] == NEWLINE {
                i + 2
            } else {
                i + 1
            }
        } else {
            -1
        };
        j >= 0 && {
            let k = blank_run_end(s, j);
            k < s.len() && s[k] == HASH
        }
    }
}

/// Only spaces and tabs stand between the line start and `pos`.
pub open spec fn spec_begins_its_line_raw(s: Seq<u8>, pos: int) -> bool {
    let b = blank_run_back(s, pos, 0);
    pos == 0 || b == 0 || s[b - 1] == NEWLINE
}

pub open spec fn detected_msg() -> Seq<u8> {
    "Space inside array literal brackets detected.".spec_bytes()
}

pub open spec fn missing_msg() -> Seq<u8> {
    "Space inside array literal brackets missing.".spec_bytes()
}

/// The events for brackets with nothing but whitespace between them.
pub open spec fn empty_bracket_events(s: Seq<u8>, b: ArrayBrackets, empty_style: Seq<u8>) -> Seq<Event> {
    let os = b.open_start as int;
    let oe = b.open_end as int;
    let cs = b.close_start as int;
    if cs == oe {
        event_if(
            empty_style == "space".spec_bytes(),
            event(os, "Space inside empty array literal brackets missing.".spec_bytes(), oe, oe, " ".spec_bytes()),
        )
    } else {
        let single = cs == oe + 1 && s[oe] == SPACE;
        if empty_style == "no_space".spec_bytes() {
            seq![event(os, "Space inside empty array literal brackets detected.".spec_bytes(), oe, cs, seq![])]
        } else {
            event_if(
                empty_style == "space".spec_bytes() && !single,
                event(os, "Space inside empty array literal brackets missing.".spec_bytes(), oe, cs, " ".spec_bytes()),
            )
        }
    }
}

/// The events for brackets around content.
pub open spec fn content_bracket_events(s: Seq<u8>, b: ArrayBrackets, enforced: Seq<u8>) -> Seq<Event> {
    let os = b.open_start as int;
    let oe = b.open_end as int;
    let cs = b.close_start as int;
    let ml = spec_line_col(s, os).0 != spec_line_col(s, cs).0;
    let start_ok = ml && (if enforced == "no_space".spec_bytes() {
        spec_next_to_comment(s, oe) || spec_next_line_starts_with_comment(s, oe)
    } else {
        spec_next_to_newline(s, oe)
    });
    let end_ok = ml && spec_begins_its_line_raw(s, cs);
    let sao = oe < s.len() && spec_is_blank(s[oe]);
    let sbc = cs > 0 && spec_is_blank(s[cs - 1]);
    if enforced == "no_space".spec_bytes() {
        event_if(!start_ok && sao, event(os, detected_msg(), oe, blank_run_end(s, oe), seq![])) + event_if(
            !end_ok && sbc,
            event(cs, detected_msg(), blank_run_back(s, cs, 0), cs, seq![]),
        )
    } else if enforced == "space".spec_bytes() {
        event_if(!start_ok && !sao, event(os, missing_msg(), oe, oe, " ".spec_bytes())) + event_if(
            !end_ok && !sbc,
            event(cs, missing_msg(), cs, cs, " ".spec_bytes()),
        )
    } else {
        seq![]
    }
}

/// The events for one pair of brackets.
pub open spec fn array_bracket_events(s: Seq<u8>, b: ArrayBrackets, empty_style: Seq<u8>, enforced: Seq<u8>) -> Seq<Event> {
    if s.subrange(b.open_start as int, b.open_end as int) != seq![LBRACKET]
        || s.subrange(b.close_start as int, b.close_end as int) != seq![RBRACKET] {
        seq![]
    } else if b.is_array_pattern && spec_prev_non_whitespace(s, b.close_start as int) == Some(COMMA) {
        seq![]
    } else if spec_is_only_whitespace(s, b.open_end as int, b.close_start as int) {
        empty_bracket_events(s, b, empty_style)
    } else {
        content_bracket_events(s, b, enforced)
    }
}

pub open spec fn array_brackets_in_bounds(len: int, b: ArrayBrackets) -> bool {
    b.open_start <= b.open_end <= b.close_start <= b.close_end <= len
}

/// Whether `bytes[start..end)` is all whitespace.
pub fn is_only_whitespace(bytes: &[u8], start: usize, end: usize) -> (r: bool)
    requires
        start <= end <= bytes@.len(),
    ensures
        r == spec_is_only_whitespace(bytes@, start as int, end as int),
{
    let mut k = start;
    while k < end
        invariant
            start <= k <= end <= bytes@.len(),
            forall|j: int| start <= j < k ==> is_ws(#[trigger] bytes@[j]),
        decreases end - k,
    {
        let b = bytes[k];
        if !(b == SPACE || b == TAB || b == NEWLINE || b == CARRIAGE_RETURN) {
            return false;
        }
        k = k + 1;
    }
    true
}

/// The last byte before `pos` that is no whitespace.
pub fn prev_non_whitespace(bytes: &[u8], pos: usize) -> (r: Option<u8>)
    requires
        pos <= bytes@.len(),
    ensures
        r == spec_prev_non_whitespace(bytes@, pos as int),
{
    let mut i = pos;
    while i > 0
        invariant
            i <= pos <= bytes@.len(),
            spec_prev_non_whitespace(bytes@, i as int) == spec_prev_non_whitespace(bytes@, pos as int),
        decreases i,
    {
        let b = bytes[i - 1];
        if !(b == SPACE || b == TAB || b == NEWLINE || b == CARRIAGE_RETURN) {
            return Some(b);
        }
        i = i - 1;
    }
    None
}

/// The end of the spaces and tabs that start at `pos`.
pub fn scan_space_forward(bytes: &[u8], pos: usize) -> (r: usize)
    requires
        pos <= bytes@.len(),
    ensures
        r == blank_run_end(bytes@, pos as int),
{
    skip_blanks(bytes, pos)
}

/// The start of the spaces and tabs that end at `pos`.
pub fn scan_space_backward(bytes: &[u8], pos: usize) -> (r: usize)
    requires
        pos <= bytes@.len(),
    ensures
        r == blank_run_back(bytes@, pos as int, 0),
{
    skip_blanks_back(bytes, pos, 0)
}

pub fn next_to_newline(bytes: &[u8], pos: usize) -> (r: bool)
    requires
        pos <= bytes@.len(),
    ensures
        r == spec_next_to_newline(bytes@, pos as int),
{
    let i = skip_blanks(bytes, pos);
    i >= bytes.len() || bytes[i] == NEWLINE || bytes[i] == CARRIAGE_RETURN
}

pub fn next_to_comment(bytes: &[u8], pos: usize) -> (r: bool)
    requires
        pos <= bytes@.len(),
    ensures
        r == spec_next_to_comment(bytes@, pos as int),
{
    let i = skip_blanks(bytes, pos);
    i < bytes.len() && bytes[i] == HASH
}

pub fn next_line_starts_with_comment(bytes: &[u8], pos: usize) -> (r: bool)
    requires
        pos <= bytes@.len(),
    ensures
        r == spec_next_line_starts_with_comment(bytes@, pos as int),
{
    let i = skip_blanks(bytes, pos);
    if i >= bytes.len() {
        return false;
    }
    let j = if bytes[i] == NEWLINE {
        i + 1
    } else if bytes[i] == CARRIAGE_RETURN {
        if i + 1 < bytes.len() && bytes[i + 1] == NEWLINE {
            i + 2
        } else {
            i + 1
        }
    } else {
        return false;
    };
    let k = skip_blanks(bytes, j);
    k < bytes.len() && bytes[k] == HASH
}

pub fn begins_its_line_raw(bytes: &[u8], pos: usize) -> (r: bool)
    requires
        pos <= bytes@.len(),
    ensures
        r == spec_begins_its_line_raw(bytes@, pos as int),
{
    if pos == 0 {
        return true;
    }
    let b = skip_blanks_back(bytes, pos, 0);
    b == 0 || bytes[b - 1] == NEWLINE
}

impl SpaceInsideArrayLiteralBrackets {
    pub fn name(&self) -> (r: &'static str)
        ensures
            r@ == "Layout/SpaceInsideArrayLiteralBrackets"@,
    {
        "Layout/SpaceInsideArrayLiteralBrackets"
    }

    pub fn supports_autocorrect(&self) -> (r: bool)
        ensures
            r,
    {
        true
    }

    fn check_empty(
        source: &[u8],
        b: &ArrayBrackets,
        empty_style: &[u8],
        diags: &mut Vec<Diagnostic>,
        corrs: &mut Vec<Correction>,
        autocorrect: bool,
    )
        requires
            source@.len() < usize::MAX,
            array_brackets_in_bounds(source@.len() as int, *b),
        ensures
            appends_events(source@, empty_bracket_events(source@, *b, empty_style@), autocorrect, old(diags)@, old(corrs)@, final(diags)@, final(corrs)@),
    {
        let os = b.open_start;
        let oe = b.open_end;
        let cs = b.close_start;
        let is_space = bytes_eq(empty_style, "space".as_bytes());
        if cs == oe {
            push_event_if(source, diags, corrs, autocorrect, is_space, os, "Space inside empty array literal brackets missing.", oe, oe, " ");
        } else {
            let single = cs == oe + 1 && source[oe] == SPACE;
            if bytes_eq(empty_style, "no_space".as_bytes()) {
                push_event(source, diags, corrs, autocorrect, os, "Space inside empty array literal brackets detected.", oe, cs, "");
                proof {
                    reveal_strlit("");
                    assert("".spec_bytes() =~= Seq::<u8>::empty());
                }
            } else {
                push_event_if(source, diags, corrs, autocorrect, is_space && !single, os, "Space inside empty array literal brackets missing.", oe, cs, " ");
            }
        }
    }

    fn check_content(
        source: &[u8],
        b: &ArrayBrackets,
        enforced: &[u8],
        diags: &mut Vec<Diagnostic>,
        corrs: &mut Vec<Correction>,
        autocorrect: bool,
    )
        requires
            source@.len() < usize::MAX,
            array_brackets_in_bounds(source@.len() as int, *b),
        ensures
            appends_events(source@, content_bracket_events(source@, *b, enforced@), autocorrect, old(diags)@, old(corrs)@, final(diags)@, final(corrs)@),
    {
        let ghost d0 = diags@;
        let ghost c0 = corrs@;
        let os = b.open_start;
        let oe = b.open_end;
        let cs = b.close_start;
        let no_space = bytes_eq(enforced, "no_space".as_bytes());
        let space = bytes_eq(enforced, "space".as_bytes());
        let (open_line, _) = offset_to_line_col(source, os);
        let (close_line, _) = offset_to_line_col(source, cs);
        let ml = open_line != close_line;
        let start_ok = ml && (if no_space {
            next_to_comment(source, oe) || next_line_starts_with_comment(source, oe)
        } else {
            next_to_newline(source, oe)
        });
        let end_ok = ml && begins_its_line_raw(source, cs);
        let sao = oe < source.len() && is_blank(source[oe]);
        let sbc = cs > 0 && is_blank(source[cs - 1]);
        if no_space {
            let fwd = scan_space_forward(source, oe);
            let back = scan_space_backward(source, cs);
            push_event_if(source, diags, corrs, autocorrect, !start_ok && sao, os, "Space inside array literal brackets detected.", oe, fwd, "");
            let ghost d1 = diags@;
            let ghost c1 = corrs@;
            push_event_if(source, diags, corrs, autocorrect, !end_ok && sbc, cs, "Space inside array literal brackets detected.", back, cs, "");
            proof {
                reveal_strlit("");
                assert("".spec_bytes() =~= Seq::<u8>::empty());
                lemma_appends_concat(
                    source@,
                    event_if(!start_ok && sao, event(os as int, detected_msg(), oe as int, fwd as int, "".spec_bytes())),
                    event_if(!end_ok && sbc, event(cs as int, detected_msg(), back as int, cs as int, "".spec_bytes())),
                    autocorrect, d0, c0, d1, c1, diags@, corrs@,
                );
            }
        } else if space {
            push_event_if(source, diags, corrs, autocorrect, !start_ok && !sao, os, "Space inside array literal brackets missing.", oe, oe, " ");
            let ghost d1 = diags@;
            let ghost c1 = corrs@;
            push_event_if(source, diags, corrs, autocorrect, !end_ok && !sbc, cs, "Space inside array literal brackets missing.", cs, cs, " ");
            proof {
                lemma_appends_concat(
                    source@,
                    event_if(!start_ok && !sao, event(os as int, missing_msg(), oe as int, oe as int, " ".spec_bytes())),
                    event_if(!end_ok && !sbc, event(cs as int, missing_msg(), cs as int, cs as int, " ".spec_bytes())),
                    autocorrect, d0, c0, d1, c1, diags@, corrs@,
                );
            }
        } else {
            proof {
                lemma_appends_nothing(source@, autocorrect, d0, c0);
            }
        }
    }

    /// Checks one pair of brackets. `empty_style` is the configured
    /// `EnforcedStyleForEmptyBrackets`, `enforced` the `EnforcedStyle`;
    /// each is `no_space` or `space`.
    pub fn check_brackets(
        &self,
        source: &[u8],
        brackets: &ArrayBrackets,
        empty_style: &[u8],
        enforced: &[u8],
        autocorrect: bool,
    ) -> (r: (Vec<Diagnostic>, Vec<Correction>))
        requires
            source@.len() < usize::MAX,
            array_brackets_in_bounds(source@.len() as int, *brackets),
        ensures
            reports_events(source@, array_bracket_events(source@, *brackets, empty_style@, enforced@), autocorrect, r.0@, r.1@),
    {
        let mut diags: Vec<Diagnostic> = Vec::new();
        let mut corrs: Vec<Correction> = Vec::new();
        let ghost d0 = diags@;
        let ghost c0 = corrs@;
        let open_ok = brackets.open_end - brackets.open_start == 1 && source[brackets.open_start] == LBRACKET;
        let close_ok = brackets.close_end - brackets.close_start == 1 && source[brackets.close_start] == RBRACKET;
        proof {
            if open_ok {
                assert(source@.subrange(brackets.open_start as int, brackets.open_end as int) =~= seq![LBRACKET]);
            } else if source@.subrange(brackets.open_start as int, brackets.open_end as int) == seq![LBRACKET] {
                assert(source@.subrange(brackets.open_start as int, brackets.open_end as int)[0] == LBRACKET);
            }
            if close_ok {
                assert(source@.subrange(brackets.close_start as int, brackets.close_end as int) =~= seq![RBRACKET]);
            } else if source@.subrange(brackets.close_start as int, brackets.close_end as int) == seq![RBRACKET] {
                assert(source@.subrange(brackets.close_start as int, brackets.close_end as int)[0] == RBRACKET);
            }
        }
        if !open_ok || !close_ok {
            return (diags, corrs);
        }
        if brackets.is_array_pattern {
            match prev_non_whitespace(source, brackets.close_start) {
                Some(c) => {
                    if c == COMMA {
                        return (diags, corrs);
                    }
                },
                None => {},
            }
        }
        if is_only_whitespace(source, brackets.open_end, brackets.close_start) {
            Self::check_empty(source, brackets, empty_style, &mut diags, &mut corrs, autocorrect);
        } else {
            Self::check_content(source, brackets, enforced, &mut diags, &mut corrs, autocorrect);
        }
        proof {
            assert(diags@.subrange(0, diags@.len() as int) =~= diags@);
            assert(corrs@.subrange(0, corrs@.len() as int) =~= corrs@);
        }
        (diags, corrs)
    }
}

} // verus!
