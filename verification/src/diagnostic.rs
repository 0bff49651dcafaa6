//! What a cop reports: offenses with their location, and the edits that
//! autocorrect them.
use vstd::string::StringSliceAdditionalSpecFns;
use vstd::prelude::*;
use crate::text::spec_line_col;

verus! {

/// A 1-based line and a 0-based byte column.
#[derive(Clone, Copy, Debug, PartialEq, Eq, Structural)]
pub struct Location {
    pub line: usize,
    pub column: usize,
}

/// One offense: where it is, what is wrong, and whether an edit for it was
/// produced.
#[derive(Clone, Debug)]
pub struct Diagnostic {
    pub location: Location,
    pub message: Vec<u8>,
    pub corrected: bool,
}

/// Replace the bytes `[start, end)` of the source by `replacement`.
#[derive(Clone, Debug)]
pub struct Correction {
    pub start: usize,
    pub end: usize,
    pub replacement: Vec<u8>,
}

/// The bytes of a static message.
pub fn message(text: &str) -> (r: Vec<u8>)
    ensures
        r@ == text.spec_bytes(),
{
    vstd::slice::slice_to_vec(text.as_bytes())
}

} // verus!

verus! {

/// Corrections that can be applied in one pass: each lies inside the
/// source, and each ends at or before the start of the next.
pub open spec fn corrections_in_order(len: nat, cs: Seq<Correction>) -> bool {
    &&& forall|k: int| 0 <= k < cs.len() ==> #[trigger] cs[k].start <= cs[k].end <= len
    &&& forall|k: int| 0 <= k < cs.len() - 1 ==> #[trigger] cs[k].end <= cs[k + 1].start
}

/// The source after the first `n` corrections, up to the end of the `n`-th
/// one: untouched bytes are copied, corrected ranges are replaced.
pub open spec fn applied_prefix(s: Seq<u8>, cs: Seq<Correction>, n: int) -> Seq<u8>
    decreases n,
{
    if n <= 0 {
        seq![]
    } else {
        let prev_end = if n >= 2 {
            cs[n - 2].end as int
        } else {
            0
        };
        applied_prefix(s, cs, n - 1) + s.subrange(prev_end, cs[n - 1].start as int)
            + cs[n - 1].replacement@
    }
}

/// The source with all corrections applied.
pub open spec fn spec_apply_corrections(s: Seq<u8>, cs: Seq<Correction>) -> Seq<u8> {
    let last_end = if cs.len() > 0 {
        cs.last().end as int
    } else {
        0
    };
    applied_prefix(s, cs, cs.len() as int) + s.subrange(last_end, s.len() as int)
}

/// Applies corrections that are in source order and do not overlap.
pub fn apply_corrections(source: &[u8], corrections: &[Correction]) -> (r: Vec<u8>)
    requires
        corrections_in_order(source@.len(), corrections@),
    ensures
        r@ == spec_apply_corrections(source@, corrections@),
{
    let mut out: Vec<u8> = Vec::new();
    let mut pos: usize = 0;
    let mut k: usize = 0;
    while k < corrections.len()
        invariant
            corrections_in_order(source@.len(), corrections@),
            k <= corrections@.len(),
            pos == (if k >= 1 {
                corrections@[k - 1].end as int
            } else {
                0
            }),
            pos <= source@.len(),
            out@ == applied_prefix(source@, corrections@, k as int),
        decreases corrections@.len() - k,
    {
        let c = &corrections[k];
        let ghost before = out@;
        let mut i = pos;
        while i < c.start
            invariant
                pos <= i <= c.start <= source@.len(),
                out@ == before + source@.subrange(pos as int, i as int),
            decreases c.start - i,
        {
            out.push(source[i]);
            i = i + 1;
            assert(out@ =~= before + source@.subrange(pos as int, i as int));
        }
        let ghost mid = out@;
        let mut j: usize = 0;
        while j < c.replacement.len()
            invariant
                j <= c.replacement@.len(),
                out@ == mid + c.replacement@.subrange(0, j as int),
            decreases c.replacement@.len() - j,
        {
            out.push(c.replacement[j]);
            j = j + 1;
            assert(out@ =~= mid + c.replacement@.subrange(0, j as int));
        }
        assert(c.replacement@.subrange(0, j as int) =~= c.replacement@);
        pos = c.end;
        k = k + 1;
    }
    let ghost before = out@;
    let mut i = pos;
    while i < source.len()
        invariant
            pos <= i <= source@.len(),
            out@ == before + source@.subrange(pos as int, i as int),
        decreases source@.len() - i,
    {
        out.push(source[i]);
        i = i + 1;
        assert(out@ =~= before + source@.subrange(pos as int, i as int));
    }
    out
}

/// Each offset of `offs` has a diagnostic appended after `old`, in order.
pub open spec fn appended_at(s: Seq<u8>, old: Seq<Diagnostic>, new: Seq<Diagnostic>, offs: Seq<int>, msg: Seq<u8>) -> bool {
    &&& new.len() == old.len() + offs.len()
    &&& new.subrange(0, old.len() as int) == old
    &&& forall|k: int|
        0 <= k < offs.len() ==> {
            &&& (#[trigger] new[old.len() + k]).location.line == spec_line_col(s, offs[k]).0
            &&& new[old.len() + k].location.column == spec_line_col(s, offs[k]).1
            &&& new[old.len() + k].message@ == msg
            &&& !new[old.len() + k].corrected
        }
}

pub proof fn lemma_appended_at_concat(
    s: Seq<u8>,
    d0: Seq<Diagnostic>,
    d1: Seq<Diagnostic>,
    d2: Seq<Diagnostic>,
    a: Seq<int>,
    b: Seq<int>,
    msg: Seq<u8>,
)
    requires
        appended_at(s, d0, d1, a, msg),
        appended_at(s, d1, d2, b, msg),
    ensures
        appended_at(s, d0, d2, a + b, msg),
{
    assert(d2.subrange(0, d0.len() as int) =~= d1.subrange(0, d0.len() as int));
    assert forall|k: int| 0 <= k < (a + b).len() implies {
        &&& (#[trigger] d2[d0.len() + k]).location.line == spec_line_col(s, (a + b)[k]).0
        &&& d2[d0.len() + k].location.column == spec_line_col(s, (a + b)[k]).1
        &&& d2[d0.len() + k].message@ == msg
        &&& !d2[d0.len() + k].corrected
    } by {
        if k < a.len() {
            assert(d2[d0.len() + k] == d2.subrange(0, d1.len() as int)[d0.len() + k]);
            assert(d1[d0.len() + k] == d2[d0.len() + k]);
        } else {
            let j = k - a.len();
            assert(d2[d1.len() + j] == d2[d0.len() + k]);
        }
    }
}


/// An offense with its edit: where it is reported, its message, and the
/// range `[start, end)` that the edit replaces by `replacement`.
pub struct Event {
    pub at: int,
    pub msg: Seq<u8>,
    pub start: int,
    pub end: int,
    pub replacement: Seq<u8>,
}

pub open spec fn event(at: int, msg: Seq<u8>, start: int, end: int, replacement: Seq<u8>) -> Event {
    Event { at, msg, start, end, replacement }
}

/// `diags` reports the events `evs` in order; with `autocorrect`,
/// `corrections` holds their edits, else none.
pub open spec fn reports_events(
    s: Seq<u8>,
    evs: Seq<Event>,
    autocorrect: bool,
    diags: Seq<Diagnostic>,
    corrections: Seq<Correction>,
) -> bool {
    &&& diags.len() == evs.len()
    &&& forall|k: int|
        0 <= k < evs.len() ==> {
            &&& (#[trigger] diags[k]).location.line == spec_line_col(s, evs[k].at).0
            &&& diags[k].location.column == spec_line_col(s, evs[k].at).1
            &&& diags[k].message@ == evs[k].msg
            &&& diags[k].corrected == autocorrect
        }
    &&& corrections.len() == (if autocorrect {
        evs.len()
    } else {
        0
    })
    &&& forall|k: int|
        0 <= k < corrections.len() ==> {
            &&& (#[trigger] corrections[k]).start == evs[k].start
            &&& corrections[k].end == evs[k].end
            &&& corrections[k].replacement@ == evs[k].replacement
        }
}

/// `d1` and `c1` extend `d0` and `c0` by the reports of `evs`.
pub open spec fn appends_events(
    s: Seq<u8>,
    evs: Seq<Event>,
    autocorrect: bool,
    d0: Seq<Diagnostic>,
    c0: Seq<Correction>,
    d1: Seq<Diagnostic>,
    c1: Seq<Correction>,
) -> bool {
    &&& d0.len() <= d1.len()
    &&& c0.len() <= c1.len()
    &&& d1.subrange(0, d0.len() as int) == d0
    &&& c1.subrange(0, c0.len() as int) == c0
    &&& reports_events(
        s,
        evs,
        autocorrect,
        d1.subrange(d0.len() as int, d1.len() as int),
        c1.subrange(c0.len() as int, c1.len() as int),
    )
}

pub proof fn lemma_appends_nothing(s: Seq<u8>, autocorrect: bool, d: Seq<Diagnostic>, c: Seq<Correction>)
    ensures
        appends_events(s, seq![], autocorrect, d, c, d, c),
{
    assert(d.subrange(0, d.len() as int) =~= d);
    assert(c.subrange(0, c.len() as int) =~= c);
}

pub proof fn lemma_appends_concat(
    s: Seq<u8>,
    a: Seq<Event>,
    b: Seq<Event>,
    autocorrect: bool,
    d0: Seq<Diagnostic>,
    c0: Seq<Correction>,
    d1: Seq<Diagnostic>,
    c1: Seq<Correction>,
    d2: Seq<Diagnostic>,
    c2: Seq<Correction>,
)
    requires
        appends_events(s, a, autocorrect, d0, c0, d1, c1),
        appends_events(s, b, autocorrect, d1, c1, d2, c2),
    ensures
        appends_events(s, a + b, autocorrect, d0, c0, d2, c2),
{
    assert(d2.subrange(0, d0.len() as int) =~= d1.subrange(0, d0.len() as int));
    assert(c2.subrange(0, c0.len() as int) =~= c1.subrange(0, c0.len() as int));
    let nd = d2.subrange(d0.len() as int, d2.len() as int);
    let nc = c2.subrange(c0.len() as int, c2.len() as int);
    let nd1 = d1.subrange(d0.len() as int, d1.len() as int);
    let nd2 = d2.subrange(d1.len() as int, d2.len() as int);
    let nc1 = c1.subrange(c0.len() as int, c1.len() as int);
    let nc2 = c2.subrange(c1.len() as int, c2.len() as int);
    assert(nd =~= nd1 + nd2) by {
        assert forall|k: int| 0 <= k < nd1.len() implies nd[k] == nd1[k] by {
            assert(d2[d0.len() + k] == d2.subrange(0, d1.len() as int)[d0.len() + k]);
        }
    }
    assert(nc =~= nc1 + nc2) by {
        assert forall|k: int| 0 <= k < nc1.len() implies nc[k] == nc1[k] by {
            assert(c2[c0.len() + k] == c2.subrange(0, c1.len() as int)[c0.len() + k]);
        }
    }
    let ab = a + b;
    assert forall|k: int| 0 <= k < ab.len() implies {
        &&& (#[trigger] nd[k]).location.line == spec_line_col(s, ab[k].at).0
        &&& nd[k].location.column == spec_line_col(s, ab[k].at).1
        &&& nd[k].message@ == ab[k].msg
        &&& nd[k].corrected == autocorrect
    } by {
        if k < a.len() {
            assert(nd[k] == nd1[k]);
        } else {
            assert(nd[k] == nd2[k - a.len()]);
        }
    }
    assert forall|k: int| 0 <= k < nc.len() implies {
        &&& (#[trigger] nc[k]).start == ab[k].start
        &&& nc[k].end == ab[k].end
        &&& nc[k].replacement@ == ab[k].replacement
    } by {
        if k < nc1.len() {
            assert(nc[k] == nc1[k]);
        } else {
            assert(nc[k] == nc2[k - nc1.len()]);
        }
    }
}

/// Appends one event: the diagnostic, and with `autocorrect` its edit.
pub(crate) fn push_event(
    source: &[u8],
    diags: &mut Vec<Diagnostic>,
    corrections: &mut Vec<Correction>,
    autocorrect: bool,
    at: usize,
    msg: &str,
    start: usize,
    end: usize,
    replacement: &str,
)
    requires
        source@.len() < usize::MAX,
        at <= source@.len(),
    ensures
        appends_events(
            source@,
            seq![event(at as int, msg.spec_bytes(), start as int, end as int, replacement.spec_bytes())],
            autocorrect,
            old(diags)@,
            old(corrections)@,
            final(diags)@,
            final(corrections)@,
        ),
{
    let ghost d0 = diags@;
    let ghost c0 = corrections@;
    let (line, column) = crate::text::offset_to_line_col(source, at);
    diags.push(Diagnostic { location: Location { line, column }, message: message(msg), corrected: autocorrect });
    assert(diags@.subrange(0, d0.len() as int) =~= d0);
    assert(diags@.subrange(d0.len() as int, diags@.len() as int) =~= seq![diags@.last()]);
    if autocorrect {
        corrections.push(Correction { start, end, replacement: message(replacement) });
        assert(corrections@.subrange(c0.len() as int, corrections@.len() as int) =~= seq![corrections@.last()]);
    } else {
        assert(corrections@.subrange(c0.len() as int, corrections@.len() as int) =~= seq![]);
    }
    assert(corrections@.subrange(0, c0.len() as int) =~= c0);
}

/// The event `e` when `c` holds, else nothing.
pub open spec fn event_if(c: bool, e: Event) -> Seq<Event> {
    if c {
        seq![e]
    } else {
        seq![]
    }
}

/// Appends one event when `c` holds.
pub(crate) fn push_event_if(
    source: &[u8],
    diags: &mut Vec<Diagnostic>,
    corrections: &mut Vec<Correction>,
    autocorrect: bool,
    c: bool,
    at: usize,
    msg: &str,
    start: usize,
    end: usize,
    replacement: &str,
)
    requires
        source@.len() < usize::MAX,
        at <= source@.len(),
    ensures
        appends_events(
            source@,
            event_if(c, event(at as int, msg.spec_bytes(), start as int, end as int, replacement.spec_bytes())),
            autocorrect,
            old(diags)@,
            old(corrections)@,
            final(diags)@,
            final(corrections)@,
        ),
{
    if c {
        push_event(source, diags, corrections, autocorrect, at, msg, start, end, replacement);
    } else {
        proof {
            lemma_appends_nothing(source@, autocorrect, diags@, corrections@);
        }
    }
}

/// Appends one event whose message is built at run time.
pub(crate) fn push_event_msg(
    source: &[u8],
    diags: &mut Vec<Diagnostic>,
    corrections: &mut Vec<Correction>,
    autocorrect: bool,
    at: usize,
    msg: Vec<u8>,
    start: usize,
    end: usize,
    replacement: &str,
)
    requires
        source@.len() < usize::MAX,
        at <= source@.len(),
    ensures
        appends_events(
            source@,
            seq![event(at as int, msg@, start as int, end as int, replacement.spec_bytes())],
            autocorrect,
            old(diags)@,
            old(corrections)@,
            final(diags)@,
            final(corrections)@,
        ),
{
    let ghost d0 = diags@;
    let ghost c0 = corrections@;
    let (line, column) = crate::text::offset_to_line_col(source, at);
    diags.push(Diagnostic { location: Location { line, column }, message: msg, corrected: autocorrect });
    assert(diags@.subrange(0, d0.len() as int) =~= d0);
    assert(diags@.subrange(d0.len() as int, diags@.len() as int) =~= seq![diags@.last()]);
    if autocorrect {
        corrections.push(Correction { start, end, replacement: message(replacement) });
        assert(corrections@.subrange(c0.len() as int, corrections@.len() as int) =~= seq![corrections@.last()]);
    } else {
        assert(corrections@.subrange(c0.len() as int, corrections@.len() as int) =~= seq![]);
    }
    assert(corrections@.subrange(0, c0.len() as int) =~= c0);
}

} // verus!

verus! {

/// An edit of the model: replace `[start, end)` by `replacement`.
pub struct Edit {
    pub start: int,
    pub end: int,
    pub replacement: Seq<u8>,
}

pub open spec fn edit(start: int, end: int, replacement: Seq<u8>) -> Edit {
    Edit { start, end, replacement }
}

pub open spec fn edit_of(c: Correction) -> Edit {
    Edit { start: c.start as int, end: c.end as int, replacement: c.replacement@ }
}

pub open spec fn edits_of(cs: Seq<Correction>) -> Seq<Edit> {
    cs.map_values(|c: Correction| edit_of(c))
}

/// An offense with any number of edits.
pub struct Report {
    pub at: int,
    pub msg: Seq<u8>,
    pub edits: Seq<Edit>,
}

pub open spec fn report(at: int, msg: Seq<u8>, edits: Seq<Edit>) -> Report {
    Report { at, msg, edits }
}

/// The edits of the reports `rs`, in order.
pub open spec fn report_edits(rs: Seq<Report>) -> Seq<Edit>
    decreases rs.len(),
{
    if rs.len() == 0 {
        seq![]
    } else {
        report_edits(rs.drop_last()) + rs.last().edits
    }
}

/// `diags` reports `rs` in order; with `autocorrect`, `corrections` holds
/// their edits in order, else none.
pub open spec fn reports_all(
    s: Seq<u8>,
    rs: Seq<Report>,
    autocorrect: bool,
    diags: Seq<Diagnostic>,
    corrections: Seq<Correction>,
) -> bool {
    &&& diags.len() == rs.len()
    &&& forall|k: int|
        0 <= k < rs.len() ==> {
            &&& (#[trigger] diags[k]).location.line == spec_line_col(s, rs[k].at).0
            &&& diags[k].location.column == spec_line_col(s, rs[k].at).1
            &&& diags[k].message@ == rs[k].msg
            &&& diags[k].corrected == autocorrect
        }
    &&& edits_of(corrections) == if autocorrect {
        report_edits(rs)
    } else {
        seq![]
    }
}

pub proof fn lemma_reports_none(s: Seq<u8>, autocorrect: bool)
    ensures
        reports_all(s, seq![], autocorrect, seq![], seq![]),
{
    assert(edits_of(seq![]) =~= seq![]);
}

/// Whether corrections are asked for changes nothing in what is reported
/// but the `corrected` flag; without autocorrection no edit is produced.
pub proof fn law_autocorrect_changes_only_the_flag(
    s: Seq<u8>,
    rs: Seq<Report>,
    fixed: Seq<Diagnostic>,
    fixes: Seq<Correction>,
    plain: Seq<Diagnostic>,
    none: Seq<Correction>,
)
    requires
        reports_all(s, rs, true, fixed, fixes),
        reports_all(s, rs, false, plain, none),
    ensures
        fixed.len() == plain.len(),
        forall|k: int|
            0 <= k < plain.len() ==> (#[trigger] fixed[k]).location == plain[k].location && fixed[k].message@
                == plain[k].message@ && fixed[k].corrected && !plain[k].corrected,
        none.len() == 0,
        edits_of(fixes) == report_edits(rs),
{
    assert(edits_of(none).len() == none.len());
    assert forall|k: int| 0 <= k < plain.len() implies (#[trigger] fixed[k]).location == plain[k].location by {
        assert(fixed[k].location.line == plain[k].location.line);
        assert(fixed[k].location.column == plain[k].location.column);
    }
}

/// Appends one offense and, with `autocorrect`, its edits.
pub(crate) fn push_report(
    source: &[u8],
    diags: &mut Vec<Diagnostic>,
    corrections: &mut Vec<Correction>,
    autocorrect: bool,
    at: usize,
    msg: Vec<u8>,
    edits: Vec<Correction>,
    Ghost(rs): Ghost<Seq<Report>>,
)
    requires
        source@.len() < usize::MAX,
        at <= source@.len(),
        reports_all(source@, rs, autocorrect, old(diags)@, old(corrections)@),
    ensures
        reports_all(source@, rs.push(report(at as int, msg@, edits_of(edits@))), autocorrect, final(diags)@, final(corrections)@),
{
    let ghost r = report(at as int, msg@, edits_of(edits@));
    let ghost c0 = corrections@;
    let (line, column) = crate::text::offset_to_line_col(source, at);
    diags.push(Diagnostic { location: Location { line, column }, message: msg, corrected: autocorrect });
    assert(rs.push(r).drop_last() =~= rs);
    if autocorrect {
        let mut e = edits;
        corrections.append(&mut e);
        assert(edits_of(corrections@) =~= edits_of(c0) + edits_of(edits@));
    }
    assert forall|k: int| 0 <= k < rs.push(r).len() implies {
        &&& (#[trigger] diags@[k]).location.line == spec_line_col(source@, rs.push(r)[k].at).0
        &&& diags@[k].location.column == spec_line_col(source@, rs.push(r)[k].at).1
        &&& diags@[k].message@ == rs.push(r)[k].msg
        &&& diags@[k].corrected == autocorrect
    } by {
        if k < rs.len() {
            assert(diags@[k] == old(diags)@[k]);
        }
    }
}

/// A correction that replaces `[start, end)` by `text`.
pub fn correction(start: usize, end: usize, text: &str) -> (r: Correction)
    ensures
        edit_of(r) == edit(start as int, end as int, text.spec_bytes()),
{
    Correction { start, end, replacement: message(text) }
}

/// `diags` holds one report at each offset of `offs`, in order, all with
/// message `msg` and no edit.
pub open spec fn reports_at(s: Seq<u8>, offs: Seq<int>, msg: Seq<u8>, diags: Seq<Diagnostic>) -> bool {
    &&& diags.len() == offs.len()
    &&& forall|k: int|
        0 <= k < offs.len() ==> {
            &&& (#[trigger] diags[k]).location.line == spec_line_col(s, offs[k]).0
            &&& diags[k].location.column == spec_line_col(s, offs[k]).1
            &&& diags[k].message@ == msg
            &&& !diags[k].corrected
        }
}

} // verus!
