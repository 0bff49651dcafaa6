//! Layout/SpaceInsideBlockBraces: spacing just inside the braces of a
//! `{ ... }` block or lambda body.
use vstd::prelude::*;
use vstd::string::StringSliceAdditionalSpecFns;
use crate::ascii::{LBRACE, RBRACE};
use crate::diagnostic::{
    appends_events, event, event_if, lemma_appends_concat, lemma_appends_nothing, push_event_if,
    reports_events, Correction, Diagnostic, Event,
};
use crate::text::{
    blank_run_end, bytes_eq, is_ascii_whitespace, offset_to_line_col, skip_blanks, spec_is_ascii_whitespace,
    spec_line_col, SPACE,
};

verus! {

pub struct SpaceInsideBlockBraces;

/// A block or lambda body in braces, as the cop reads it.
pub struct BraceBlock {
    /// The span of the opening delimiter (`{` or `do`).
    pub open_start: usize,
    pub open_end: usize,
    /// Where the closing delimiter starts.
    pub close_start: usize,
    /// The block has no body.
    pub body_empty: bool,
    /// Where the block parameters start, if there are any.
    pub params_start: Option<usize>,
}

/// The configuration the cop reads.
pub struct BraceStyle {
    /// `EnforcedStyle`: `space` or `no_space`.
    pub enforced: Vec<u8>,
    /// `EnforcedStyleForEmptyBraces`: `space` or `no_space`.
    pub empty_style: Vec<u8>,
    /// `SpaceBeforeBlockParameters`.
    pub space_before_params: bool,
}

/// The end of the whitespace that starts at `i`, not passing `hi`.
pub open spec fn whitespace_run_end(s: Seq<u8>, i: int, hi: int) -> int
    decreases hi - i,
{
    if i < hi && spec_is_ascii_whitespace(s[i]) {
        whitespace_run_end(s, i + 1, hi)
    } else {
        i
    }
}

pub open spec fn params_inside_braces(b: BraceBlock) -> bool {
    b.params_start matches Some(p) && p >= b.open_end
}

/// The events for an empty block on one line, if the empty-brace rule
/// decides it: `Some(events)`, or `None` when the other rules apply.
pub open spec fn empty_block_events(s: Seq<u8>, b: BraceBlock, style: BraceStyle) -> Option<Seq<Event>> {
    let os = b.open_start as int;
    let oe = b.open_end as int;
    let cs = b.close_start as int;
    if params_inside_braces(b) {
        None
    } else if cs == oe {
        Some(event_if(style.empty_style@ == "space".spec_bytes(), event(os, "Space missing inside empty braces.".spec_bytes(), oe, oe, " ".spec_bytes())))
    } else if blank_run_end(s.subrange(oe, cs), 0) == cs - oe {
        Some(event_if(style.empty_style@ == "no_space".spec_bytes(), event(oe, "Space inside empty braces detected.".spec_bytes(), oe, cs, seq![])))
    } else {
        None
    }
}

/// The events for the left brace.
pub open spec fn left_brace_events(s: Seq<u8>, b: BraceBlock, style: BraceStyle) -> Seq<Event> {
    let os = b.open_start as int;
    let oe = b.open_end as int;
    let cs = b.close_start as int;
    if params_inside_braces(b) {
        let p = b.params_start.unwrap() as int;
        let sao = oe < p && s[oe] == SPACE;
        if sao {
            event_if(!style.space_before_params, event(oe, "Space between { and | detected.".spec_bytes(), oe, p, seq![]))
        } else if p == oe {
            event_if(style.space_before_params, event(os, "Space between { and | missing.".spec_bytes(), oe, oe, " ".spec_bytes()))
        } else {
            seq![]
        }
    } else {
        let lw = whitespace_run_end(s, oe, cs) - oe;
        if style.enforced@ == "space".spec_bytes() {
            event_if(lw == 0, event(os, "Space missing inside {.".spec_bytes(), oe, oe, " ".spec_bytes()))
        } else if style.enforced@ == "no_space".spec_bytes() {
            event_if(lw > 0, event(oe, "Space inside { detected.".spec_bytes(), oe, oe + lw, seq![]))
        } else {
            seq![]
        }
    }
}

/// The events for the right brace of a block on one line.
pub open spec fn right_brace_events(s: Seq<u8>, b: BraceBlock, style: BraceStyle) -> Seq<Event> {
    let cs = b.close_start as int;
    let sbc = cs > 0 && s[cs - 1] == SPACE;
    if style.enforced@ == "space".spec_bytes() {
        event_if(!sbc, event(cs, "Space missing inside }.".spec_bytes(), cs, cs, " ".spec_bytes()))
    } else if style.enforced@ == "no_space".spec_bytes() {
        event_if(sbc, event(cs - 1, "Space inside } detected.".spec_bytes(), cs - 1, cs, seq![]))
    } else {
        seq![]
    }
}

/// The events for one block.
pub open spec fn brace_block_events(s: Seq<u8>, b: BraceBlock, style: BraceStyle) -> Seq<Event> {
    let ml = spec_line_col(s, b.open_start as int).0 != spec_line_col(s, b.close_start as int).0;
    if s.subrange(b.open_start as int, b.open_end as int) != seq![LBRACE] {
        seq![]
    } else if b.body_empty && ml {
        seq![]
    } else if b.body_empty && empty_block_events(s, b, style) is Some {
        empty_block_events(s, b, style).unwrap()
    } else {
        left_brace_events(s, b, style) + if ml {
            seq![]
        } else {
            right_brace_events(s, b, style)
        }
    }
}

pub open spec fn brace_block_in_bounds(len: int, b: BraceBlock) -> bool {
    &&& b.open_start <= b.open_end <= b.close_start <= len
    &&& b.params_start matches Some(p) ==> p <= b.close_start
}

fn whitespace_end(s: &[u8], i: usize, hi: usize) -> (r: usize)
    requires
        i <= hi <= s@.len(),
    ensures
        r == whitespace_run_end(s@, i as int, hi as int),
        i <= r <= hi,
{
    let mut j = i;
    while j < hi && is_ascii_whitespace(s[j])
        invariant
            i <= j <= hi <= s@.len(),
            whitespace_run_end(s@, j as int, hi as int) == whitespace_run_end(s@, i as int, hi as int),
        decreases hi - j,
    {
        j = j + 1;
    }
    j
}

impl SpaceInsideBlockBraces {
    pub fn name(&self) -> (r: &'static str)
        ensures
            r@ == "Layout/SpaceInsideBlockBraces"@,
    {
        "Layout/SpaceInsideBlockBraces"
    }

    pub fn supports_autocorrect(&self) -> (r: bool)
        ensures
            r,
    {
        true
    }

    fn check_left(source: &[u8], b: &BraceBlock, style: &BraceStyle, diags: &mut Vec<Diagnostic>, corrs: &mut Vec<Correction>, autocorrect: bool)
        requires
            source@.len() < usize::MAX,
            brace_block_in_bounds(source@.len() as int, *b),
        ensures
            appends_events(source@, left_brace_events(source@, *b, *style), autocorrect, old(diags)@, old(corrs)@, final(diags)@, final(corrs)@),
    {
        let os = b.open_start;
        let oe = b.open_end;
        let cs = b.close_start;
        let pib = match b.params_start {
            Some(p) => p >= oe,
            None => false,
        };
        if pib {
            let p = match b.params_start {
                Some(p) => p,
                None => oe,
            };
            let sao = oe < p && source[oe] == SPACE;
            if sao {
                push_event_if(source, diags, corrs, autocorrect, !style.space_before_params, oe, "Space between { and | detected.", oe, p, "");
                proof {
                    reveal_strlit("");
                    assert("".spec_bytes() =~= Seq::<u8>::empty());
                }
            } else if p == oe {
                push_event_if(source, diags, corrs, autocorrect, style.space_before_params, os, "Space between { and | missing.", oe, oe, " ");
            } else {
                proof {
                    lemma_appends_nothing(source@, autocorrect, diags@, corrs@);
                }
            }
        } else {
            let we = whitespace_end(source, oe, cs);
            let lw = we - oe;
            if bytes_eq(style.enforced.as_slice(), "space".as_bytes()) {
                push_event_if(source, diags, corrs, autocorrect, lw == 0, os, "Space missing inside {.", oe, oe, " ");
            } else if bytes_eq(style.enforced.as_slice(), "no_space".as_bytes()) {
                push_event_if(source, diags, corrs, autocorrect, lw > 0, oe, "Space inside { detected.", oe, we, "");
                proof {
                    reveal_strlit("");
                    assert("".spec_bytes() =~= Seq::<u8>::empty());
                }
            } else {
                proof {
                    lemma_appends_nothing(source@, autocorrect, diags@, corrs@);
                }
            }
        }
    }

    fn check_right(source: &[u8], b: &BraceBlock, style: &BraceStyle, diags: &mut Vec<Diagnostic>, corrs: &mut Vec<Correction>, autocorrect: bool)
        requires
            source@.len() < usize::MAX,
            brace_block_in_bounds(source@.len() as int, *b),
        ensures
            appends_events(source@, right_brace_events(source@, *b, *style), autocorrect, old(diags)@, old(corrs)@, final(diags)@, final(corrs)@),
    {
        let cs = b.close_start;
        let sbc = cs > 0 && source[cs - 1] == SPACE;
        if bytes_eq(style.enforced.as_slice(), "space".as_bytes()) {
            push_event_if(source, diags, corrs, autocorrect, !sbc, cs, "Space missing inside }.", cs, cs, " ");
        } else if bytes_eq(style.enforced.as_slice(), "no_space".as_bytes()) {
            let at = if sbc { cs - 1 } else { cs };
            push_event_if(source, diags, corrs, autocorrect, sbc, at, "Space inside } detected.", at, cs, "");
            proof {
                reveal_strlit("");
                assert("".spec_bytes() =~= Seq::<u8>::empty());
            }
        } else {
            proof {
                lemma_appends_nothing(source@, autocorrect, diags@, corrs@);
            }
        }
    }

    /// Checks the braces of one block or lambda.
    pub fn check_node(&self, source: &[u8], block: &BraceBlock, style: &BraceStyle, autocorrect: bool) -> (r: (Vec<Diagnostic>, Vec<Correction>))
        requires
            source@.len() < usize::MAX,
            brace_block_in_bounds(source@.len() as int, *block),
        ensures
            reports_events(source@, brace_block_events(source@, *block, *style), autocorrect, r.0@, r.1@),
    {
        let mut diags: Vec<Diagnostic> = Vec::new();
        let mut corrs: Vec<Correction> = Vec::new();
        let ghost d0 = diags@;
        let ghost c0 = corrs@;
        let os = block.open_start;
        let oe = block.open_end;
        let cs = block.close_start;
        let open_ok = oe - os == 1 && source[os] == LBRACE;
        proof {
            let o = source@.subrange(os as int, oe as int);
            if open_ok {
                assert(o =~= seq![LBRACE]);
            } else if o == seq![LBRACE] {
                assert(o.len() == 1 && o[0] == LBRACE);
                assert(source@[os as int] == o[0]);
            }
        }
        if !open_ok {
            return (diags, corrs);
        }
        let (open_line, _) = offset_to_line_col(source, os);
        let (close_line, _) = offset_to_line_col(source, cs);
        let ml = open_line != close_line;
        if block.body_empty {
            if ml {
                return (diags, corrs);
            }
            let pib = match block.params_start {
                Some(p) => p >= oe,
                None => false,
            };
            if !pib {
                if cs == oe {
                    let space = bytes_eq(style.empty_style.as_slice(), "space".as_bytes());
                    push_event_if(source, &mut diags, &mut corrs, autocorrect, space, os, "Space missing inside empty braces.", oe, oe, " ");
                    proof {
                        assert(diags@.subrange(0, diags@.len() as int) =~= diags@);
                        assert(corrs@.subrange(0, corrs@.len() as int) =~= corrs@);
                    }
                    return (diags, corrs);
                }
                let inner = &source[oe..cs];
                if skip_blanks(inner, 0) == inner.len() {
                    let no_space = bytes_eq(style.empty_style.as_slice(), "no_space".as_bytes());
                    push_event_if(source, &mut diags, &mut corrs, autocorrect, no_space, oe, "Space inside empty braces detected.", oe, cs, "");
                    proof {
                        reveal_strlit("");
                        assert("".spec_bytes() =~= Seq::<u8>::empty());
                        assert(diags@.subrange(0, diags@.len() as int) =~= diags@);
                        assert(corrs@.subrange(0, corrs@.len() as int) =~= corrs@);
                    }
                    return (diags, corrs);
                }
            }
        }
        Self::check_left(source, block, style, &mut diags, &mut corrs, autocorrect);
        let ghost d1 = diags@;
        let ghost c1 = corrs@;
        if !ml {
            Self::check_right(source, block, style, &mut diags, &mut corrs, autocorrect);
        } else {
            proof {
                lemma_appends_nothing(source@, autocorrect, d1, c1);
            }
        }
        proof {
            let right = if ml { seq![] } else { right_brace_events(source@, *block, *style) };
            lemma_appends_concat(source@, left_brace_events(source@, *block, *style), right, autocorrect, d0, c0, d1, c1, diags@, corrs@);
            assert(brace_block_events(source@, *block, *style) == left_brace_events(source@, *block, *style) + right);
            assert(diags@.subrange(0, diags@.len() as int) =~= diags@);
            assert(corrs@.subrange(0, corrs@.len() as int) =~= corrs@);
        }
        (diags, corrs)
    }
}

} // verus!
