//! Lint/ConstantReassignment: a constant assigned twice in the same
//! namespace of one file, where both assignments run unconditionally.
//! A walk of the parse tree hands the cop its events in order; the cop
//! keeps the namespace, the nesting in conditional contexts and the
//! constants assigned so far.
use vstd::prelude::*;
use vstd::string::StringSliceAdditionalSpecFns;
use crate::bytes::append;
use crate::diagnostic::{message, Diagnostic, Location};
use crate::text::{bytes_eq, offset_to_line_col, spec_line_col, utf8_or, utf8_valid, views};

verus! {

pub struct ConstantReassignment;

/// What the walk of the tree meets, in order.
pub enum ConstantEvent {
    /// Entering the body of a class or module named `name`.
    EnterNamespace { name: Vec<u8> },
    LeaveNamespace,
    /// Entering a conditional, a loop, a block, a method, a lambda or a
    /// `begin` with `rescue`.
    EnterConditional,
    LeaveConditional,
    /// `NAME = value`, the name starting at `start`.
    Write { name: Vec<u8>, start: usize },
    /// `A::NAME = value` starting at `start`: the segments of the path,
    /// `None` when a variable stands in it, and whether it starts at `::`.
    PathWrite { segments: Option<Vec<Vec<u8>>>, absolute: bool, name: Vec<u8>, start: usize },
    /// `remove_const :NAME` or `remove_const 'NAME'`.
    RemoveConst { name: Vec<u8> },
}

/// `::A::B::C` for the parts `A`, `B`, `C`.
pub open spec fn qualified(parts: Seq<Seq<u8>>) -> Seq<u8>
    decreases parts.len(),
{
    if parts.len() == 0 {
        seq![]
    } else {
        qualified(parts.drop_last()) + "::".spec_bytes() + parts.last()
    }
}

pub open spec fn text_of(b: Seq<u8>) -> Seq<u8> {
    utf8_or(b, seq![])
}

/// `s` without the occurrences of `x`.
pub open spec fn without(s: Seq<Seq<u8>>, x: Seq<u8>) -> Seq<Seq<u8>>
    decreases s.len(),
{
    if s.len() == 0 {
        seq![]
    } else {
        without(s.drop_last(), x) + if s.last() == x {
            seq![]
        } else {
            seq![s.last()]
        }
    }
}

/// The state of the walk: the enclosing namespaces, the depth in
/// conditional contexts, the depths saved on entering each namespace, and
/// the qualified names assigned so far.
pub struct WalkState {
    pub namespace: Seq<Seq<u8>>,
    pub depth: int,
    pub saved: Seq<int>,
    pub seen: Seq<Seq<u8>>,
}

pub open spec fn initial_state() -> WalkState {
    WalkState { namespace: seq![], depth: 0, saved: seq![], seen: seq![] }
}

pub open spec fn reassigned_message(name: Seq<u8>) -> Seq<u8> {
    "Constant `".spec_bytes() + text_of(name) + "` is already assigned in this namespace.".spec_bytes()
}

/// Records an assignment of `fqn`: the report when it was assigned before.
pub open spec fn record(st: WalkState, fqn: Seq<u8>, name: Seq<u8>, start: int) -> (WalkState, Option<(int, Seq<u8>)>) {
    if st.seen.contains(fqn) {
        (st, Some((start, reassigned_message(name))))
    } else {
        (WalkState { seen: st.seen.push(fqn), ..st }, None)
    }
}

/// One event: the next state and the report, if any.
pub open spec fn walk_step(st: WalkState, e: ConstantEvent) -> (WalkState, Option<(int, Seq<u8>)>) {
    match e {
        ConstantEvent::EnterNamespace { name } => (
            WalkState { namespace: st.namespace.push(text_of(name@)), depth: 0, saved: st.saved.push(st.depth), ..st },
            None,
        ),
        ConstantEvent::LeaveNamespace => (
            WalkState {
                namespace: if st.namespace.len() > 0 { st.namespace.drop_last() } else { st.namespace },
                depth: if st.saved.len() > 0 { st.saved.last() } else { 0 },
                saved: if st.saved.len() > 0 { st.saved.drop_last() } else { st.saved },
                ..st
            },
            None,
        ),
        ConstantEvent::EnterConditional => (WalkState { depth: st.depth + 1, ..st }, None),
        ConstantEvent::LeaveConditional => (WalkState { depth: if st.depth > 0 { st.depth - 1 } else { 0 }, ..st }, None),
        ConstantEvent::Write { name, start } => if st.depth == 0 {
            record(st, qualified(st.namespace.push(text_of(name@))), name@, start as int)
        } else {
            (st, None)
        },
        ConstantEvent::PathWrite { segments, absolute, name, start } => match segments {
            Some(segs) => if st.depth == 0 {
                let parts = views(segs@).map_values(|p: Seq<u8>| text_of(p));
                record(st, qualified(if absolute { parts } else { st.namespace + parts }), name@, start as int)
            } else {
                (st, None)
            },
            None => (st, None),
        },
        ConstantEvent::RemoveConst { name } => (
            WalkState { seen: without(st.seen, qualified(st.namespace.push(text_of(name@)))), ..st },
            None,
        ),
    }
}

/// The state after the first `n` events, and the reports so far.
pub open spec fn walk(events: Seq<ConstantEvent>, n: int) -> (WalkState, Seq<(int, Seq<u8>)>)
    decreases n,
{
    if n <= 0 {
        (initial_state(), seq![])
    } else {
        let (st, reps) = walk(events, n - 1);
        let (next, r) = walk_step(st, events[n - 1]);
        (next, reps + match r {
            Some(x) => seq![x],
            None => seq![],
        })
    }
}

pub open spec fn events_in(len: int, events: Seq<ConstantEvent>) -> bool {
    forall|k: int|
        0 <= k < events.len() ==> match #[trigger] events[k] {
            ConstantEvent::Write { start, .. } => start <= len,
            ConstantEvent::PathWrite { start, .. } => start <= len,
            _ => true,
        }
}

fn text_exec(b: &[u8]) -> (r: Vec<u8>)
    ensures
        r@ == text_of(b@),
{
    let mut v: Vec<u8> = Vec::new();
    if utf8_valid(b) {
        append(&mut v, b);
    }
    assert(v@ =~= text_of(b@));
    v
}

/// Appends `::part` for each of `parts` to `out`.
fn push_qualified(out: &mut Vec<u8>, parts: &Vec<Vec<u8>>)
    ensures
        final(out)@ == old(out)@ + qualified(views(parts@)),
{
    let ghost o = out@;
    let mut i: usize = 0;
    while i < parts.len()
        invariant
            i <= parts@.len(),
            out@ == o + qualified(views(parts@).subrange(0, i as int)),
        decreases parts@.len() - i,
    {
        append(out, "::".as_bytes());
        append(out, parts[i].as_slice());
        i = i + 1;
        assert(views(parts@).subrange(0, i as int).drop_last() =~= views(parts@).subrange(0, i - 1));
        assert(out@ =~= o + qualified(views(parts@).subrange(0, i as int)));
    }
    assert(views(parts@).subrange(0, parts@.len() as int) =~= views(parts@));
}

fn remove_all(seen: &Vec<Vec<u8>>, x: &[u8]) -> (r: Vec<Vec<u8>>)
    ensures
        views(r@) == without(views(seen@), x@),
{
    let mut out: Vec<Vec<u8>> = Vec::new();
    let mut i: usize = 0;
    while i < seen.len()
        invariant
            i <= seen@.len(),
            views(out@) == without(views(seen@).subrange(0, i as int), x@),
        decreases seen@.len() - i,
    {
        let ghost before = out@;
        if !bytes_eq(seen[i].as_slice(), x) {
            out.push(vstd::slice::slice_to_vec(seen[i].as_slice()));
        }
        i = i + 1;
        assert(views(seen@).subrange(0, i as int).drop_last() =~= views(seen@).subrange(0, i - 1));
        assert(views(out@) =~= without(views(seen@).subrange(0, i as int), x@));
    }
    assert(views(seen@).subrange(0, seen@.len() as int) =~= views(seen@));
    out
}

/// The state of the walk as the cop holds it.
struct Walk {
    namespace: Vec<Vec<u8>>,
    depth: usize,
    saved: Vec<usize>,
    seen: Vec<Vec<u8>>,
}

spec fn walk_view(w: Walk) -> WalkState {
    WalkState {
        namespace: views(w.namespace@),
        depth: w.depth as int,
        saved: w.saved@.map_values(|d: usize| d as int),
        seen: views(w.seen@),
    }
}

/// Every depth the walk holds is at most `bound`.
spec fn depths_below(w: Walk, bound: int) -> bool {
    &&& w.depth <= bound
    &&& forall|j: int| 0 <= j < w.saved@.len() ==> #[trigger] w.saved@[j] <= bound
}

spec fn report_matches(r: Option<(usize, Vec<u8>)>, m: Option<(int, Seq<u8>)>) -> bool {
    match r {
        Some((at, msg)) => m == Some((at as int, msg@)),
        None => m is None,
    }
}

fn contains_name(list: &Vec<Vec<u8>>, x: &[u8]) -> (r: bool)
    ensures
        r == views(list@).contains(x@),
{
    crate::text::contains_bytes(list, x)
}

/// Records the assignment of `fqn` to a constant named `name` at `start`.
fn record_exec(w: &mut Walk, fqn: Vec<u8>, name: &[u8], start: usize) -> (r: Option<(usize, Vec<u8>)>)
    ensures
        walk_view(*final(w)) == record(walk_view(*old(w)), fqn@, name@, start as int).0,
        report_matches(r, record(walk_view(*old(w)), fqn@, name@, start as int).1),
        final(w).depth == old(w).depth,
        final(w).saved@ == old(w).saved@,
{
    if contains_name(&w.seen, fqn.as_slice()) {
        let mut m = message("Constant `");
        append(&mut m, text_exec(name).as_slice());
        append(&mut m, "` is already assigned in this namespace.".as_bytes());
        Some((start, m))
    } else {
        let ghost s0 = w.seen@;
        let ghost f = fqn@;
        w.seen.push(fqn);
        assert(views(w.seen@) =~= views(s0).push(f));
        None
    }
}

/// The qualified name of constant `name` in the current namespace.
fn name_in_namespace(w: &Walk, name: &[u8]) -> (r: Vec<u8>)
    ensures
        r@ == qualified(views(w.namespace@).push(text_of(name@))),
{
    let mut f: Vec<u8> = Vec::new();
    push_qualified(&mut f, &w.namespace);
    append(&mut f, "::".as_bytes());
    append(&mut f, text_exec(name).as_slice());
    assert(views(w.namespace@).push(text_of(name@)).drop_last() =~= views(w.namespace@));
    f
}

/// The qualified name of a path assignment.
fn path_name(w: &Walk, segs: &Vec<Vec<u8>>, absolute: bool) -> (r: Vec<u8>)
    ensures
        r@ == qualified(
            if absolute {
                views(segs@).map_values(|p: Seq<u8>| text_of(p))
            } else {
                views(w.namespace@) + views(segs@).map_values(|p: Seq<u8>| text_of(p))
            },
        ),
{
    let mut parts: Vec<Vec<u8>> = Vec::new();
    if !absolute {
        let mut i: usize = 0;
        while i < w.namespace.len()
            invariant
                i <= w.namespace@.len(),
                views(parts@) == views(w.namespace@).subrange(0, i as int),
            decreases w.namespace@.len() - i,
        {
            let ghost before = parts@;
            let item = vstd::slice::slice_to_vec(w.namespace[i].as_slice());
            assert(item@ == views(w.namespace@)[i as int]);
            parts.push(item);
            assert(views(parts@) =~= views(before).push(views(w.namespace@)[i as int]));
            i = i + 1;
            assert(views(parts@) =~= views(w.namespace@).subrange(0, i as int));
        }
        assert(views(w.namespace@).subrange(0, w.namespace@.len() as int) =~= views(w.namespace@));
    } else {
        assert(views(parts@) =~= Seq::<Seq<u8>>::empty());
    }
    let ghost base = views(parts@);
    let ghost mapped = views(segs@).map_values(|p: Seq<u8>| text_of(p));
    let mut j: usize = 0;
    while j < segs.len()
        invariant
            j <= segs@.len(),
            mapped == views(segs@).map_values(|p: Seq<u8>| text_of(p)),
            views(parts@) == base + mapped.subrange(0, j as int),
        decreases segs@.len() - j,
    {
        let ghost before = parts@;
        let item = text_exec(segs[j].as_slice());
        assert(item@ == mapped[j as int]);
        parts.push(item);
        assert(views(parts@) =~= views(before).push(mapped[j as int]));
        j = j + 1;
        assert(views(parts@) =~= base + mapped.subrange(0, j as int));
    }
    assert(mapped.subrange(0, segs@.len() as int) =~= mapped);
    assert(base + mapped =~= views(parts@));
    if absolute {
        assert(base + mapped =~= mapped);
    }
    let mut f: Vec<u8> = Vec::new();
    push_qualified(&mut f, &parts);
    f
}

/// Applies one event to the walk.
fn apply_event(w: &mut Walk, e: &ConstantEvent, bound: usize) -> (r: Option<(usize, Vec<u8>)>)
    requires
        depths_below(*old(w), bound as int),
        bound < usize::MAX,
    ensures
        walk_view(*final(w)) == walk_step(walk_view(*old(w)), *e).0,
        report_matches(r, walk_step(walk_view(*old(w)), *e).1),
        depths_below(*final(w), bound + 1),
{
    let ghost v0 = walk_view(*w);
    match e {
        ConstantEvent::EnterNamespace { name } => {
            let t = text_exec(name.as_slice());
            let ghost n0 = w.namespace@;
            let ghost s0 = w.saved@;
            w.namespace.push(t);
            w.saved.push(w.depth);
            w.depth = 0;
            assert(views(w.namespace@) =~= views(n0).push(text_of(name@)));
            assert(w.saved@.map_values(|d: usize| d as int) =~= s0.map_values(|d: usize| d as int).push(v0.depth));
            None
        },
        ConstantEvent::LeaveNamespace => {
            let ghost n0 = w.namespace@;
            let ghost s0 = w.saved@;
            if w.namespace.len() > 0 {
                w.namespace.pop();
                assert(views(w.namespace@) =~= views(n0).drop_last());
            }
            if w.saved.len() > 0 {
                w.depth = w.saved.pop().unwrap();
                assert(w.saved@.map_values(|d: usize| d as int) =~= s0.map_values(|d: usize| d as int).drop_last());
                assert(s0[s0.len() - 1] <= bound);
            } else {
                w.depth = 0;
            }
            None
        },
        ConstantEvent::EnterConditional => {
            w.depth = w.depth + 1;
            None
        },
        ConstantEvent::LeaveConditional => {
            if w.depth > 0 {
                w.depth = w.depth - 1;
            }
            None
        },
        ConstantEvent::Write { name, start } => {
            if w.depth == 0 {
                let f = name_in_namespace(w, name.as_slice());
                record_exec(w, f, name.as_slice(), *start)
            } else {
                None
            }
        },
        ConstantEvent::PathWrite { segments, absolute, name, start } => {
            match segments {
                Some(segs) => {
                    if w.depth == 0 {
                        let f = path_name(w, segs, *absolute);
                        record_exec(w, f, name.as_slice(), *start)
                    } else {
                        None
                    }
                },
                None => None,
            }
        },
        ConstantEvent::RemoveConst { name } => {
            let f = name_in_namespace(w, name.as_slice());
            w.seen = remove_all(&w.seen, f.as_slice());
            None
        },
    }
}

impl ConstantReassignment {
    pub fn name(&self) -> (r: &'static str)
        ensures
            r@ == "Lint/ConstantReassignment"@,
    {
        "Lint/ConstantReassignment"
    }

    /// Reports each reassignment among the events of one walk.
    pub fn check_source(&self, source: &[u8], events: &Vec<ConstantEvent>) -> (r: Vec<Diagnostic>)
        requires
            source@.len() < usize::MAX,
            events_in(source@.len() as int, events@),
        ensures
            ({
                let reps = walk(events@, events@.len() as int).1;
                &&& r@.len() == reps.len()
                &&& forall|k: int|
                    0 <= k < reps.len() ==> {
                        &&& (#[trigger] r@[k]).location.line == spec_line_col(source@, reps[k].0).0
                        &&& r@[k].location.column == spec_line_col(source@, reps[k].0).1
                        &&& r@[k].message@ == reps[k].1
                        &&& !r@[k].corrected
                    }
            }),
    {
        let mut w = Walk { namespace: Vec::new(), depth: 0, saved: Vec::new(), seen: Vec::new() };
        proof {
            assert(walk_view(w) =~= initial_state()) by {
                assert(views(w.namespace@) =~= Seq::<Seq<u8>>::empty());
                assert(w.saved@.map_values(|d: usize| d as int) =~= Seq::<int>::empty());
                assert(views(w.seen@) =~= Seq::<Seq<u8>>::empty());
            }
        }
        let mut diags: Vec<Diagnostic> = Vec::new();
        let mut k: usize = 0;
        while k < events.len()
            invariant
                k <= events@.len(),
                source@.len() < usize::MAX,
                events_in(source@.len() as int, events@),
                depths_below(w, k as int),
                walk_view(w) == walk(events@, k as int).0,
                ({
                    let reps = walk(events@, k as int).1;
                    &&& diags@.len() == reps.len()
                    &&& forall|j: int|
                        0 <= j < reps.len() ==> {
                            &&& (#[trigger] diags@[j]).location.line == spec_line_col(source@, reps[j].0).0
                            &&& diags@[j].location.column == spec_line_col(source@, reps[j].0).1
                            &&& diags@[j].message@ == reps[j].1
                            &&& !diags@[j].corrected
                        }
                }),
            decreases events@.len() - k,
        {
            let ghost reps = walk(events@, k as int).1;
            let ghost d0 = diags@;
            let r = apply_event(&mut w, &events[k], k);
            match r {
                Some((at, m)) => {
                    assert(events_in(source@.len() as int, events@));
                    assert(match events@[k as int] {
                        ConstantEvent::Write { start, .. } => start <= source@.len(),
                        ConstantEvent::PathWrite { start, .. } => start <= source@.len(),
                        _ => true,
                    });
                    let (line, column) = offset_to_line_col(source, at);
                    diags.push(Diagnostic { location: Location { line, column }, message: m, corrected: false });
                    let ghost now = walk(events@, k + 1).1;
                    assert forall|j: int| 0 <= j < now.len() implies {
                        &&& (#[trigger] diags@[j]).location.line == spec_line_col(source@, now[j].0).0
                        &&& diags@[j].location.column == spec_line_col(source@, now[j].0).1
                        &&& diags@[j].message@ == now[j].1
                        &&& !diags@[j].corrected
                    } by {
                        if j < d0.len() {
                            assert(diags@[j] == d0[j]);
                            assert(now[j] == reps[j]);
                        }
                    }
                },
                None => {
                    assert(walk(events@, k + 1).1 =~= reps);
                },
            }
            k = k + 1;
        }
        diags
    }
}


/// Two unconditional assignments of the same name in the same namespace,
/// one right after the other: the second is reported, at its start.
pub proof fn law_second_write_reported(st: WalkState, first: Vec<u8>, a: usize, second: Vec<u8>, b: usize)
    requires
        st.depth == 0,
        first@ == second@,
    ensures
        ({
            let (mid, _) = walk_step(st, ConstantEvent::Write { name: first, start: a });
            walk_step(mid, ConstantEvent::Write { name: second, start: b }).1 == Some(
                (b as int, reassigned_message(second@)),
            )
        }),
{
    let fqn = qualified(st.namespace.push(text_of(first@)));
    if !st.seen.contains(fqn) {
        assert(st.seen.push(fqn)[st.seen.len() as int] == fqn);
    }
}

proof fn lemma_without_drops(s: Seq<Seq<u8>>, x: Seq<u8>)
    ensures
        !without(s, x).contains(x),
    decreases s.len(),
{
    if s.len() > 0 {
        lemma_without_drops(s.drop_last(), x);
        let w = without(s, x);
        let p = without(s.drop_last(), x);
        if w.contains(x) {
            let i = choose|i: int| 0 <= i < w.len() && w[i] == x;
            if i < p.len() {
                assert(w[i] == p[i]);
            }
        }
    }
}

/// After `remove_const` of a name, assigning that name in the same
/// namespace, unconditionally, is not reported.
pub proof fn law_write_after_remove_const_not_reported(st: WalkState, removed: Vec<u8>, name: Vec<u8>, start: usize)
    requires
        st.depth == 0,
        removed@ == name@,
    ensures
        ({
            let (mid, _) = walk_step(st, ConstantEvent::RemoveConst { name: removed });
            walk_step(mid, ConstantEvent::Write { name, start }).1 is None
        }),
{
    lemma_without_drops(st.seen, qualified(st.namespace.push(text_of(removed@))));
}

/// Inside a conditional context no assignment is reported.
pub proof fn law_conditional_write_not_reported(st: WalkState, name: Vec<u8>, start: usize)
    requires
        st.depth >= 0,
    ensures
        ({
            let (mid, _) = walk_step(st, ConstantEvent::EnterConditional);
            walk_step(mid, ConstantEvent::Write { name, start }).1 is None
        }),
{
}

} // verus!
