//! Layout/SpaceAroundBlockParameters: spacing inside the pipes of block
//! parameters and the parentheses of lambda parameters.
use vstd::prelude::*;
use vstd::string::StringSliceAdditionalSpecFns;
use crate::ascii::COMMA;
use crate::diagnostic::{
    event_if, push_event_if, reports_events, appends_events, event, lemma_appends_concat, lemma_appends_nothing, push_event, Correction,
    Diagnostic, Event,
};
use crate::text::{
    blank_run_back, bytes_eq, skip_blanks_back, CARRIAGE_RETURN, NEWLINE, SPACE, TAB,
};

verus! {

pub struct SpaceAroundBlockParameters;

/// The offsets of a block's `|...|` (or a lambda's `(...)`) parameters.
pub struct BlockInfo {
    /// Just after the opening delimiter.
    pub inner_start: usize,
    /// The start of the closing delimiter.
    pub inner_end: usize,
    /// The end of the closing delimiter.
    pub closing_end_offset: usize,
    /// The start of the closing delimiter.
    pub closing_start_offset: usize,
    /// Where the body starts, if there is one.
    pub body_start: Option<usize>,
    /// `|...|` of a block rather than `(...)` of a lambda.
    pub is_pipe_delimited: bool,
    /// The spans of the parameters, in source order.
    pub param_locations: Vec<(usize, usize)>,
    /// With block-local variables and no parameters: where the first
    /// local starts and where the last one ends.
    pub first_local_start: Option<usize>,
    pub last_local_end: Option<usize>,
}

pub open spec fn is_ws(b: u8) -> bool {
    b == SPACE || b == TAB || b == NEWLINE || b == CARRIAGE_RETURN
}

/// The first offset in `[start, end)` that holds no whitespace.
pub open spec fn spec_first_non_whitespace(s: Seq<u8>, start: int, end: int) -> Option<int>
    decreases end - start,
{
    if start >= end {
        None
    } else if !is_ws(s[start]) {
        Some(start)
    } else {
        spec_first_non_whitespace(s, start + 1, end)
    }
}

/// The last offset in `[start, end)` that holds no whitespace.
pub open spec fn spec_last_non_whitespace(s: Seq<u8>, start: int, end: int) -> Option<int>
    decreases end - start,
{
    if start >= end {
        None
    } else if !is_ws(s[end - 1]) {
        Some(end - 1)
    } else {
        spec_last_non_whitespace(s, start, end - 1)
    }
}

/// Whether `s[start..end)` holds a line feed or carriage return.
pub open spec fn spec_contains_line_break(s: Seq<u8>, start: int, end: int) -> bool {
    exists|j: int| start <= j < end && (s[j] == NEWLINE || s[j] == CARRIAGE_RETURN)
}

pub open spec fn no_space_style() -> Seq<u8> {
    "no_space".spec_bytes()
}

pub open spec fn space_style() -> Seq<u8> {
    "space".spec_bytes()
}

/// The event for one parameter: more than one space after the comma that
/// precedes it.
pub open spec fn arg_event(s: Seq<u8>, param_start: int) -> Seq<Event> {
    if param_start == 0 {
        seq![]
    } else {
        let ws = blank_run_back(s, param_start, 0);
        if ws == 0 || s[ws - 1] != COMMA || param_start - ws <= 1 {
            seq![]
        } else {
            seq![event(ws + 1, "Extra space before block parameter detected.".spec_bytes(), ws + 1, param_start, seq![])]
        }
    }
}

pub open spec fn arg_events(s: Seq<u8>, params: Seq<(usize, usize)>, n: int) -> Seq<Event>
    decreases n,
{
    if n <= 0 {
        seq![]
    } else {
        arg_events(s, params, n - 1) + arg_event(s, params[n - 1].0 as int)
    }
}

pub open spec fn no_space_events(s: Seq<u8>, is: int, ie: int, first: int, ts: int) -> Seq<Event> {
    event_if(
        first > is && !spec_contains_line_break(s, is, first),
        event(is, "Space before first block parameter detected.".spec_bytes(), is, first, seq![]),
    ) + event_if(
        ts < ie && !spec_contains_line_break(s, ts, ie),
        event(ts, "Space after last block parameter detected.".spec_bytes(), ts, ie, seq![]),
    )
}

pub open spec fn space_events(s: Seq<u8>, is: int, ie: int, first: int, ts: int) -> Seq<Event> {
    let ohn = spec_contains_line_break(s, is, first);
    let chn = spec_contains_line_break(s, ts, ie);
    event_if(
        !ohn && first == is,
        event(is, "No space before first block parameter detected.".spec_bytes(), is, is, " ".spec_bytes()),
    ) + event_if(
        !ohn && first > is + 1,
        event(is + 1, "Extra space before first block parameter detected.".spec_bytes(), is + 1, first, seq![]),
    ) + event_if(
        !chn && ts == ie,
        event(ie, "No space after last block parameter detected.".spec_bytes(), ie, ie, " ".spec_bytes()),
    ) + event_if(
        !chn && ie > ts + 1,
        event(ts + 1, "Extra space after last block parameter detected.".spec_bytes(), ts + 1, ie, seq![]),
    )
}

/// The missing space after a closing `|` before a body on the same line.
pub open spec fn pipe_events(s: Seq<u8>, info: BlockInfo) -> Seq<Event> {
    if info.is_pipe_delimited {
        match info.body_start {
            Some(bs) => {
                let ace = info.closing_end_offset as int;
                event_if(
                    !(ace > bs || spec_contains_line_break(s, ace, bs as int)) && ace == bs,
                    event(info.closing_start_offset as int, "Space after closing `|` missing.".spec_bytes(), bs as int, bs as int, " ".spec_bytes()),
                )
            },
            None => seq![],
        }
    } else {
        seq![]
    }
}

/// Where the parameters start and end for the checks: the first and last
/// bytes that are no whitespace, or the locals when there are only locals.
pub open spec fn param_bounds(s: Seq<u8>, info: BlockInfo) -> Option<(int, int)> {
    let is = info.inner_start as int;
    let ie = info.inner_end as int;
    if is > ie || ie > s.len() {
        None
    } else {
        match (spec_first_non_whitespace(s, is, ie), spec_last_non_whitespace(s, is, ie)) {
            (Some(fnw), Some(lnw)) => {
                let first = match info.first_local_start {
                    Some(f) => f as int,
                    None => fnw,
                };
                let last = match info.last_local_end {
                    Some(e) => if e >= 1 {
                        e - 1
                    } else {
                        0
                    },
                    None => lnw,
                };
                Some((first, last + 1))
            },
            _ => None,
        }
    }
}

/// The events for the pipes and parentheses: style checks, then each
/// argument, then the space after a closing `|`.
pub open spec fn block_parameter_events(s: Seq<u8>, info: BlockInfo, style: Seq<u8>) -> Seq<Event> {
    match param_bounds(s, info) {
        Some((first, ts)) => {
            let is = info.inner_start as int;
            let ie = info.inner_end as int;
            let args = arg_events(s, info.param_locations@, info.param_locations@.len() as int);
            let styled = if style == no_space_style() {
                no_space_events(s, is, ie, first, ts) + args
            } else if style == space_style() {
                space_events(s, is, ie, first, ts) + args
            } else {
                seq![]
            };
            styled + pipe_events(s, info)
        },
        None => seq![],
    }
}

/// The offsets of a block's parameters are consistent, as the parser
/// gives them.
pub open spec fn block_info_well_formed(len: int, info: BlockInfo) -> bool {
    &&& info.inner_start <= info.inner_end <= len
    &&& info.closing_start_offset <= len
    &&& info.closing_end_offset <= len
    &&& info.body_start matches Some(b) ==> b <= len
    &&& forall|k: int| 0 <= k < info.param_locations@.len() ==> (#[trigger] info.param_locations@[k]).0 <= len
    &&& info.first_local_start matches Some(f) ==> info.inner_start <= f <= info.inner_end
    &&& info.last_local_end matches Some(e) ==> info.inner_start < e <= info.inner_end
}

/// The first offset in `[start, end)` that holds no whitespace.
pub fn first_non_whitespace(bytes: &[u8], start: usize, end: usize) -> (r: Option<usize>)
    requires
        end <= bytes@.len(),
    ensures
        match r {
            Some(v) => spec_first_non_whitespace(bytes@, start as int, end as int) == Some(v as int),
            None => spec_first_non_whitespace(bytes@, start as int, end as int) is None,
        },
{
    let mut k = start;
    while k < end
        invariant
            start <= k,
            end <= bytes@.len(),
            spec_first_non_whitespace(bytes@, k as int, end as int) == spec_first_non_whitespace(bytes@, start as int, end as int),
        decreases end - k,
    {
        let b = bytes[k];
        if !(b == SPACE || b == TAB || b == NEWLINE || b == CARRIAGE_RETURN) {
            return Some(k);
        }
        k = k + 1;
    }
    None
}

/// The last offset in `[start, end)` that holds no whitespace.
pub fn last_non_whitespace(bytes: &[u8], start: usize, end: usize) -> (r: Option<usize>)
    requires
        end <= bytes@.len(),
    ensures
        match r {
            Some(v) => spec_last_non_whitespace(bytes@, start as int, end as int) == Some(v as int),
            None => spec_last_non_whitespace(bytes@, start as int, end as int) is None,
        },
{
    if start >= end {
        return None;
    }
    let mut k = end;
    while k > start
        invariant
            start <= k <= end <= bytes@.len(),
            spec_last_non_whitespace(bytes@, start as int, k as int) == spec_last_non_whitespace(bytes@, start as int, end as int),
        decreases k,
    {
        let b = bytes[k - 1];
        if !(b == SPACE || b == TAB || b == NEWLINE || b == CARRIAGE_RETURN) {
            return Some(k - 1);
        }
        k = k - 1;
    }
    None
}

/// Whether `bytes[start..end)` holds a line feed or carriage return.
pub fn contains_line_break(bytes: &[u8], start: usize, end: usize) -> (r: bool)
    requires
        start <= end <= bytes@.len(),
    ensures
        r == spec_contains_line_break(bytes@, start as int, end as int),
{
    let mut k = start;
    while k < end
        invariant
            start <= k <= end <= bytes@.len(),
            forall|j: int| start <= j < k ==> !(bytes@[j] == NEWLINE || bytes@[j] == CARRIAGE_RETURN),
        decreases end - k,
    {
        if bytes[k] == NEWLINE || bytes[k] == CARRIAGE_RETURN {
            return true;
        }
        k = k + 1;
    }
    false
}

impl SpaceAroundBlockParameters {
    pub fn name(&self) -> (r: &'static str)
        ensures
            r@ == "Layout/SpaceAroundBlockParameters"@,
    {
        "Layout/SpaceAroundBlockParameters"
    }

    pub fn supports_autocorrect(&self) -> (r: bool)
        ensures
            r,
    {
        true
    }

    /// Reports more than one space between a comma and the parameter after
    /// it.
    pub fn check_each_arg_extra_space(
        &self,
        bytes: &[u8],
        param_locations: &[(usize, usize)],
        diagnostics: &mut Vec<Diagnostic>,
        corrections: &mut Vec<Correction>,
        autocorrect: bool,
    )
        requires
            bytes@.len() < usize::MAX,
            forall|k: int| 0 <= k < param_locations@.len() ==> (#[trigger] param_locations@[k]).0 <= bytes@.len(),
        ensures
            appends_events(
                bytes@,
                arg_events(bytes@, param_locations@, param_locations@.len() as int),
                autocorrect,
                old(diagnostics)@,
                old(corrections)@,
                final(diagnostics)@,
                final(corrections)@,
            ),
    {
        let ghost d0 = diagnostics@;
        let ghost c0 = corrections@;
        proof {
            lemma_appends_nothing(bytes@, autocorrect, d0, c0);
        }
        let mut k: usize = 0;
        while k < param_locations.len()
            invariant
                k <= param_locations@.len(),
                bytes@.len() < usize::MAX,
                forall|j: int| 0 <= j < param_locations@.len() ==> (#[trigger] param_locations@[j]).0 <= bytes@.len(),
                appends_events(
                    bytes@,
                    arg_events(bytes@, param_locations@, k as int),
                    autocorrect,
                    d0,
                    c0,
                    diagnostics@,
                    corrections@,
                ),
            decreases param_locations@.len() - k,
        {
            let ps = param_locations[k].0;
            let ghost d1 = diagnostics@;
            let ghost c1 = corrections@;
            let ghost prev = arg_events(bytes@, param_locations@, k as int);
            let ghost one = arg_event(bytes@, ps as int);
            assert(arg_events(bytes@, param_locations@, k + 1) == prev + one);
            let mut pushed = false;
            if ps != 0 {
                let ws = skip_blanks_back(bytes, ps, 0);
                if !(ws == 0 || bytes[ws - 1] != COMMA || ps - ws <= 1) {
                    push_event(
                        bytes,
                        diagnostics,
                        corrections,
                        autocorrect,
                        ws + 1,
                        "Extra space before block parameter detected.",
                        ws + 1,
                        ps,
                        "",
                    );
                    pushed = true;
                    proof {
                        assert("".spec_bytes() =~= Seq::<u8>::empty()) by {
                            reveal_strlit("");
                        }
                        assert(one =~= seq![event((ws + 1) as int, "Extra space before block parameter detected.".spec_bytes(), (ws + 1) as int, ps as int, "".spec_bytes())]);
                    }
                }
            }
            proof {
                if !pushed {
                    lemma_appends_nothing(bytes@, autocorrect, d1, c1);
                    assert(one =~= seq![]);
                }
                lemma_appends_concat(bytes@, prev, one, autocorrect, d0, c0, d1, c1, diagnostics@, corrections@);
            }
            k = k + 1;
        }
    }

    fn check_no_space(
        source: &[u8],
        is: usize,
        ie: usize,
        first: usize,
        ts: usize,
        diags: &mut Vec<Diagnostic>,
        corrs: &mut Vec<Correction>,
        autocorrect: bool,
    )
        requires
            source@.len() < usize::MAX,
            is <= first <= ie <= source@.len(),
            is <= ts <= ie,
        ensures
            appends_events(source@, no_space_events(source@, is as int, ie as int, first as int, ts as int), autocorrect, old(diags)@, old(corrs)@, final(diags)@, final(corrs)@),
    {
        let ghost d0 = diags@;
        let ghost c0 = corrs@;
        let c1 = first > is && !contains_line_break(source, is, first);
        push_event_if(source, diags, corrs, autocorrect, c1, is, "Space before first block parameter detected.", is, first, "");
        let ghost d1 = diags@;
        let ghost c1s = corrs@;
        let c2 = ts < ie && !contains_line_break(source, ts, ie);
        push_event_if(source, diags, corrs, autocorrect, c2, ts, "Space after last block parameter detected.", ts, ie, "");
        proof {
            reveal_strlit("");
            assert("".spec_bytes() =~= Seq::<u8>::empty());
            lemma_appends_concat(
                source@,
                event_if(c1, event(is as int, "Space before first block parameter detected.".spec_bytes(), is as int, first as int, "".spec_bytes())),
                event_if(c2, event(ts as int, "Space after last block parameter detected.".spec_bytes(), ts as int, ie as int, "".spec_bytes())),
                autocorrect, d0, c0, d1, c1s, diags@, corrs@,
            );
        }
    }

    fn check_space(
        source: &[u8],
        is: usize,
        ie: usize,
        first: usize,
        ts: usize,
        diags: &mut Vec<Diagnostic>,
        corrs: &mut Vec<Correction>,
        autocorrect: bool,
    )
        requires
            source@.len() < usize::MAX,
            is <= first <= ie <= source@.len(),
            is <= ts <= ie,
        ensures
            appends_events(source@, space_events(source@, is as int, ie as int, first as int, ts as int), autocorrect, old(diags)@, old(corrs)@, final(diags)@, final(corrs)@),
    {
        let ghost d0 = diags@;
        let ghost c0 = corrs@;
        let ohn = contains_line_break(source, is, first);
        let chn = contains_line_break(source, ts, ie);
        let x1 = !ohn && first == is;
        push_event_if(source, diags, corrs, autocorrect, x1, is, "No space before first block parameter detected.", is, is, " ");
        let ghost d1 = diags@;
        let ghost c1s = corrs@;
        let x2 = !ohn && first > is + 1;
        let at2 = if x2 { is + 1 } else { is };
        push_event_if(source, diags, corrs, autocorrect, x2, at2, "Extra space before first block parameter detected.", at2, first, "");
        let ghost d2 = diags@;
        let ghost c2s = corrs@;
        let x3 = !chn && ts == ie;
        push_event_if(source, diags, corrs, autocorrect, x3, ie, "No space after last block parameter detected.", ie, ie, " ");
        let ghost d3 = diags@;
        let ghost c3s = corrs@;
        let x4 = !chn && ie > ts + 1;
        let at4 = if x4 { ts + 1 } else { ts };
        push_event_if(source, diags, corrs, autocorrect, x4, at4, "Extra space after last block parameter detected.", at4, ie, "");
        proof {
            reveal_strlit("");
            assert("".spec_bytes() =~= Seq::<u8>::empty());
            let e1 = event_if(x1, event(is as int, "No space before first block parameter detected.".spec_bytes(), is as int, is as int, " ".spec_bytes()));
            let e2 = event_if(x2, event(at2 as int, "Extra space before first block parameter detected.".spec_bytes(), at2 as int, first as int, "".spec_bytes()));
            let e3 = event_if(x3, event(ie as int, "No space after last block parameter detected.".spec_bytes(), ie as int, ie as int, " ".spec_bytes()));
            let e4 = event_if(x4, event(at4 as int, "Extra space after last block parameter detected.".spec_bytes(), at4 as int, ie as int, "".spec_bytes()));
            lemma_appends_concat(source@, e1, e2, autocorrect, d0, c0, d1, c1s, d2, c2s);
            lemma_appends_concat(source@, e1 + e2, e3, autocorrect, d0, c0, d2, c2s, d3, c3s);
            lemma_appends_concat(source@, e1 + e2 + e3, e4, autocorrect, d0, c0, d3, c3s, diags@, corrs@);
            assert(e1 + e2 + e3 + e4 =~= space_events(source@, is as int, ie as int, first as int, ts as int));
        }
    }

    fn check_pipe(
        source: &[u8],
        info: &BlockInfo,
        diags: &mut Vec<Diagnostic>,
        corrs: &mut Vec<Correction>,
        autocorrect: bool,
    )
        requires
            source@.len() < usize::MAX,
            block_info_well_formed(source@.len() as int, *info),
        ensures
            appends_events(source@, pipe_events(source@, *info), autocorrect, old(diags)@, old(corrs)@, final(diags)@, final(corrs)@),
    {
        if info.is_pipe_delimited {
            match info.body_start {
                Some(bs) => {
                    let ace = info.closing_end_offset;
                    let c = !(ace > bs || contains_line_break(source, ace, bs)) && ace == bs;
                    push_event_if(source, diags, corrs, autocorrect, c, info.closing_start_offset, "Space after closing `|` missing.", bs, bs, " ");
                    return ;
                },
                None => {},
            }
        }
        proof {
            lemma_appends_nothing(source@, autocorrect, diags@, corrs@);
        }
    }

    /// Checks the parameters of one block or lambda. `style` is the
    /// configured `EnforcedStyleInsidePipes`: `no_space` or `space`.
    pub fn check_node(&self, source: &[u8], info: &BlockInfo, style: &[u8], autocorrect: bool) -> (r: (
        Vec<Diagnostic>,
        Vec<Correction>,
    ))
        requires
            source@.len() < usize::MAX,
            block_info_well_formed(source@.len() as int, *info),
        ensures
            reports_events(source@, block_parameter_events(source@, *info, style@), autocorrect, r.0@, r.1@),
    {
        let mut diags: Vec<Diagnostic> = Vec::new();
        let mut corrs: Vec<Correction> = Vec::new();
        let ghost d0 = diags@;
        let ghost c0 = corrs@;
        let is = info.inner_start;
        let ie = info.inner_end;
        let fnw = match first_non_whitespace(source, is, ie) {
            Some(v) => v,
            None => {
                return (diags, corrs);
            },
        };
        let lnw = match last_non_whitespace(source, is, ie) {
            Some(v) => v,
            None => {
                return (diags, corrs);
            },
        };
        proof {
            lemma_first_non_ws_bounds(source@, is as int, ie as int);
            lemma_last_non_ws_bounds(source@, is as int, ie as int);
        }
        let first = match info.first_local_start {
            Some(f) => f,
            None => fnw,
        };
        let last = match info.last_local_end {
            Some(e) => if e >= 1 {
                e - 1
            } else {
                0
            },
            None => lnw,
        };
        let ts = last + 1;
        assert(param_bounds(source@, *info) == Some((first as int, ts as int)));
        let ghost args = arg_events(source@, info.param_locations@, info.param_locations@.len() as int);
        let ghost styled: Seq<Event>;
        if bytes_eq(style, "no_space".as_bytes()) {
            Self::check_no_space(source, is, ie, first, ts, &mut diags, &mut corrs, autocorrect);
            let ghost d1 = diags@;
            let ghost c1 = corrs@;
            self.check_each_arg_extra_space(source, info.param_locations.as_slice(), &mut diags, &mut corrs, autocorrect);
            proof {
                lemma_appends_concat(source@, no_space_events(source@, is as int, ie as int, first as int, ts as int), args, autocorrect, d0, c0, d1, c1, diags@, corrs@);
                styled = no_space_events(source@, is as int, ie as int, first as int, ts as int) + args;
            }
        } else if bytes_eq(style, "space".as_bytes()) {
            Self::check_space(source, is, ie, first, ts, &mut diags, &mut corrs, autocorrect);
            let ghost d1 = diags@;
            let ghost c1 = corrs@;
            self.check_each_arg_extra_space(source, info.param_locations.as_slice(), &mut diags, &mut corrs, autocorrect);
            proof {
                lemma_appends_concat(source@, space_events(source@, is as int, ie as int, first as int, ts as int), args, autocorrect, d0, c0, d1, c1, diags@, corrs@);
                styled = space_events(source@, is as int, ie as int, first as int, ts as int) + args;
            }
        } else {
            proof {
                lemma_appends_nothing(source@, autocorrect, d0, c0);
                styled = seq![];
            }
        }
        let ghost ds = diags@;
        let ghost cs = corrs@;
        Self::check_pipe(source, info, &mut diags, &mut corrs, autocorrect);
        proof {
            lemma_appends_concat(source@, styled, pipe_events(source@, *info), autocorrect, d0, c0, ds, cs, diags@, corrs@);
            assert(styled + pipe_events(source@, *info) == block_parameter_events(source@, *info, style@));
            assert(diags@.subrange(0, diags@.len() as int) =~= diags@);
            assert(corrs@.subrange(0, corrs@.len() as int) =~= corrs@);
        }
        (diags, corrs)
    }
}

pub proof fn lemma_first_non_ws_bounds(s: Seq<u8>, start: int, end: int)
    ensures
        spec_first_non_whitespace(s, start, end) matches Some(v) ==> start <= v < end,
    decreases end - start,
{
    if start < end && is_ws(s[start]) {
        lemma_first_non_ws_bounds(s, start + 1, end);
    }
}

pub proof fn lemma_last_non_ws_bounds(s: Seq<u8>, start: int, end: int)
    ensures
        spec_last_non_whitespace(s, start, end) matches Some(v) ==> start <= v < end,
    decreases end - start,
{
    if start < end && is_ws(s[end - 1]) {
        lemma_last_non_ws_bounds(s, start, end - 1);
    }
}

} // verus!
