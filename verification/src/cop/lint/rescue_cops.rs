//! Lint/DuplicateRescueException, Lint/ConstantOverwrittenInRescue and
//! Lint/AmbiguousAssignment.
use vstd::prelude::*;
use vstd::string::StringSliceAdditionalSpecFns;
use crate::ascii::{BANG, EQUALS, MINUS, PLUS, STAR};
use crate::bytes::append;
use crate::diagnostic::{message, reports_at, Diagnostic, Location};
use crate::text::{bytes_eq, offset_to_line_col, spec_line_col, utf8_or, utf8_valid};

verus! {

pub struct DuplicateRescueException;

pub struct ConstantOverwrittenInRescue;

pub struct AmbiguousAssignment;

pub const DUPLICATE_RESCUE_MESSAGE: &'static str = "Duplicate `rescue` exception detected.";

/// The source texts of the exceptions `spans[..n]`.
pub open spec fn span_texts(s: Seq<u8>, spans: Seq<(usize, usize)>) -> Seq<Seq<u8>> {
    spans.map_values(|p: (usize, usize)| s.subrange(p.0 as int, p.1 as int))
}

/// The exceptions among the first `n` whose text repeats an earlier one.
pub open spec fn duplicate_exceptions(s: Seq<u8>, spans: Seq<(usize, usize)>, n: int) -> Seq<int>
    decreases n,
{
    if n <= 0 {
        seq![]
    } else {
        duplicate_exceptions(s, spans, n - 1) + if span_texts(s, spans).subrange(0, n - 1).contains(span_texts(s, spans)[n - 1]) {
            seq![spans[n - 1].0 as int]
        } else {
            seq![]
        }
    }
}

pub open spec fn spans_in(len: int, spans: Seq<(usize, usize)>) -> bool {
    forall|k: int| 0 <= k < spans.len() ==> #[trigger] spans[k].0 <= spans[k].1 <= len
}

impl DuplicateRescueException {
    pub fn name(&self) -> (r: &'static str)
        ensures
            r@ == "Lint/DuplicateRescueException"@,
    {
        "Lint/DuplicateRescueException"
    }

    /// Reports each exception of the `rescue` clauses of one `begin` whose
    /// source text repeats an earlier one. `exceptions` lists the spans of
    /// the exceptions of all clauses, in order.
    pub fn check_node(&self, source: &[u8], exceptions: &Vec<(usize, usize)>) -> (r: Vec<Diagnostic>)
        requires
            source@.len() < usize::MAX,
            spans_in(source@.len() as int, exceptions@),
        ensures
            reports_at(source@, duplicate_exceptions(source@, exceptions@, exceptions@.len() as int), DUPLICATE_RESCUE_MESSAGE.spec_bytes(), r@),
    {
        let mut diags: Vec<Diagnostic> = Vec::new();
        let ghost texts = span_texts(source@, exceptions@);
        let mut k: usize = 0;
        while k < exceptions.len()
            invariant
                k <= exceptions@.len(),
                source@.len() < usize::MAX,
                spans_in(source@.len() as int, exceptions@),
                texts == span_texts(source@, exceptions@),
                reports_at(source@, duplicate_exceptions(source@, exceptions@, k as int), DUPLICATE_RESCUE_MESSAGE.spec_bytes(), diags@),
            decreases exceptions@.len() - k,
        {
            let (a, b) = exceptions[k];
            assert(exceptions@[k as int].0 <= exceptions@[k as int].1 <= source@.len());
            let text = &source[a..b];
            let mut dup = false;
            let mut j: usize = 0;
            while j < k
                invariant
                    j <= k < exceptions@.len(),
                    spans_in(source@.len() as int, exceptions@),
                    texts == span_texts(source@, exceptions@),
                    text@ == texts[k as int],
                    dup == texts.subrange(0, j as int).contains(texts[k as int]),
                decreases k - j,
            {
                let (c, d) = exceptions[j];
                assert(exceptions@[j as int].0 <= exceptions@[j as int].1 <= source@.len());
                if bytes_eq(&source[c..d], text) {
                    dup = true;
                    assert(texts.subrange(0, j + 1)[j as int] == texts[k as int]);
                }
                proof {
                    if dup && !texts.subrange(0, j as int).contains(texts[k as int]) {
                        assert(texts.subrange(0, j + 1)[j as int] == texts[k as int]);
                    }
                    if texts.subrange(0, j + 1).contains(texts[k as int]) {
                        let i = choose|i: int| 0 <= i < j + 1 && #[trigger] texts.subrange(0, j + 1)[i] == texts[k as int];
                        if i < j {
                            assert(texts.subrange(0, j as int)[i] == texts[k as int]);
                        }
                    }
                    if texts.subrange(0, j as int).contains(texts[k as int]) {
                        let i = choose|i: int| 0 <= i < j && #[trigger] texts.subrange(0, j as int)[i] == texts[k as int];
                        assert(texts.subrange(0, j + 1)[i] == texts[k as int]);
                    }
                }
                j = j + 1;
            }
            if dup {
                let (line, column) = offset_to_line_col(source, a);
                diags.push(Diagnostic { location: Location { line, column }, message: message(DUPLICATE_RESCUE_MESSAGE), corrected: false });
            }
            k = k + 1;
        }
        diags
    }
}

proof fn lemma_duplicate_exceptions_grow(s: Seq<u8>, spans: Seq<(usize, usize)>, x: int, m: int, n: int)
    requires
        0 <= m <= n <= spans.len(),
        duplicate_exceptions(s, spans, m).contains(x),
    ensures
        duplicate_exceptions(s, spans, n).contains(x),
    decreases n - m,
{
    if m < n {
        lemma_duplicate_exceptions_grow(s, spans, x, m, n - 1);
        let d = duplicate_exceptions(s, spans, n - 1);
        let w = choose|w: int| 0 <= w < d.len() && d[w] == x;
        assert(duplicate_exceptions(s, spans, n)[w] == x);
    }
}

/// An exception whose source text an earlier exception of the same
/// `begin` has is reported at its start.
pub proof fn law_repeated_exception_reported(s: Seq<u8>, spans: Seq<(usize, usize)>, i: int, j: int)
    requires
        0 <= i < j < spans.len(),
        s.subrange(spans[i].0 as int, spans[i].1 as int) == s.subrange(spans[j].0 as int, spans[j].1 as int),
    ensures
        duplicate_exceptions(s, spans, spans.len() as int).contains(spans[j].0 as int),
{
    let texts = span_texts(s, spans);
    assert(texts.subrange(0, j)[i] == texts[j]);
    let d = duplicate_exceptions(s, spans, j);
    assert(duplicate_exceptions(s, spans, j + 1)[d.len() as int] == spans[j].0 as int);
    lemma_duplicate_exceptions_grow(s, spans, spans[j].0 as int, j + 1, spans.len() as int);
}

proof fn lemma_distinct_exceptions_prefix(s: Seq<u8>, spans: Seq<(usize, usize)>, n: int)
    requires
        0 <= n <= spans.len(),
        forall|i: int, j: int|
            0 <= i < j < spans.len() ==> s.subrange(spans[i].0 as int, spans[i].1 as int) != s.subrange(
                spans[j].0 as int,
                spans[j].1 as int,
            ),
    ensures
        duplicate_exceptions(s, spans, n) == Seq::<int>::empty(),
    decreases n,
{
    if n > 0 {
        lemma_distinct_exceptions_prefix(s, spans, n - 1);
        let texts = span_texts(s, spans);
        if texts.subrange(0, n - 1).contains(texts[n - 1]) {
            let i = choose|i: int| 0 <= i < n - 1 && #[trigger] texts.subrange(0, n - 1)[i] == texts[n - 1];
            assert(texts[i] == texts[n - 1]);
        }
        assert(duplicate_exceptions(s, spans, n) =~= Seq::<int>::empty());
    }
}

/// Exceptions whose source texts all differ are never reported.
pub proof fn law_distinct_exceptions_not_reported(s: Seq<u8>, spans: Seq<(usize, usize)>)
    requires
        forall|i: int, j: int|
            0 <= i < j < spans.len() ==> s.subrange(spans[i].0 as int, spans[i].1 as int) != s.subrange(
                spans[j].0 as int,
                spans[j].1 as int,
            ),
    ensures
        duplicate_exceptions(s, spans, spans.len() as int) == Seq::<int>::empty(),
{
    lemma_distinct_exceptions_prefix(s, spans, spans.len() as int);
}

/// What a `rescue => ref` clause reads of its reference.
pub enum RescueReference {
    /// `rescue => Foo`.
    ConstantTarget { name: Vec<u8> },
    /// `rescue => Foo::Bar`, spanning `[start, end)`.
    ConstantPathTarget { start: usize, end: usize },
    Other,
}

/// One `rescue` clause.
pub struct RescueClause {
    pub has_exceptions: bool,
    pub has_statements: bool,
    pub reference: Option<RescueReference>,
    /// Where `=>` starts, if there is one.
    pub operator_start: Option<usize>,
}

/// The report for a clause that has no exception list and no body and
/// rescues into a constant: where `=>` is and the message.
pub open spec fn overwritten_offense(s: Seq<u8>, c: RescueClause) -> Option<(int, Seq<u8>)> {
    if c.has_exceptions || c.has_statements {
        None
    } else {
        match (c.reference, c.operator_start) {
            (Some(RescueReference::ConstantTarget { name }), Some(op)) => Some((op as int, "`".spec_bytes() + utf8_or(name@, "constant".spec_bytes()) + "` is overwritten by `rescue =>`.".spec_bytes())),
            (Some(RescueReference::ConstantPathTarget { start, end }), Some(op)) => Some((op as int, "`".spec_bytes() + utf8_or(s.subrange(start as int, end as int), "constant".spec_bytes()) + "` is overwritten by `rescue =>`.".spec_bytes())),
            _ => None,
        }
    }
}

pub open spec fn overwritten_offenses(s: Seq<u8>, cs: Seq<RescueClause>, n: int) -> Seq<(int, Seq<u8>)>
    decreases n,
{
    if n <= 0 {
        seq![]
    } else {
        overwritten_offenses(s, cs, n - 1) + match overwritten_offense(s, cs[n - 1]) {
            Some(o) => seq![o],
            None => seq![],
        }
    }
}

pub open spec fn clauses_in(len: int, cs: Seq<RescueClause>) -> bool {
    forall|k: int| 0 <= k < cs.len() ==> {
        &&& (#[trigger] cs[k]).operator_start matches Some(op) ==> op <= len
        &&& cs[k].reference matches Some(RescueReference::ConstantPathTarget { start, end }) ==> start <= end <= len
    }
}

impl ConstantOverwrittenInRescue {
    pub fn name(&self) -> (r: &'static str)
        ensures
            r@ == "Lint/ConstantOverwrittenInRescue"@,
    {
        "Lint/ConstantOverwrittenInRescue"
    }

    /// Reports each `rescue => Const` clause of one `begin` that would
    /// overwrite a constant.
    pub fn check_node(&self, source: &[u8], clauses: &Vec<RescueClause>) -> (r: Vec<Diagnostic>)
        requires
            source@.len() < usize::MAX,
            clauses_in(source@.len() as int, clauses@),
        ensures
            ({
                let offs = overwritten_offenses(source@, clauses@, clauses@.len() as int);
                &&& r@.len() == offs.len()
                &&& forall|k: int| 0 <= k < offs.len() ==> {
                    &&& (#[trigger] r@[k]).location.line == spec_line_col(source@, offs[k].0).0
                    &&& r@[k].location.column == spec_line_col(source@, offs[k].0).1
                    &&& r@[k].message@ == offs[k].1
                    &&& !r@[k].corrected
                }
            }),
    {
        let mut diags: Vec<Diagnostic> = Vec::new();
        let mut k: usize = 0;
        while k < clauses.len()
            invariant
                k <= clauses@.len(),
                source@.len() < usize::MAX,
                clauses_in(source@.len() as int, clauses@),
                ({
                    let offs = overwritten_offenses(source@, clauses@, k as int);
                    &&& diags@.len() == offs.len()
                    &&& forall|i: int| 0 <= i < offs.len() ==> {
                        &&& (#[trigger] diags@[i]).location.line == spec_line_col(source@, offs[i].0).0
                        &&& diags@[i].location.column == spec_line_col(source@, offs[i].0).1
                        &&& diags@[i].message@ == offs[i].1
                        &&& !diags@[i].corrected
                    }
                }),
            decreases clauses@.len() - k,
        {
            let c = &clauses[k];
            assert(clauses_in(source@.len() as int, clauses@));
            let ghost ck = clauses@[k as int];
            if !c.has_exceptions && !c.has_statements {
                match (&c.reference, c.operator_start) {
                    (Some(r), Some(op)) => {
                        let text: Option<&[u8]> = match r {
                            RescueReference::ConstantTarget { name } => Some(name.as_slice()),
                            RescueReference::ConstantPathTarget { start, end } => {
                                assert(ck.reference matches Some(RescueReference::ConstantPathTarget { start, end }));
                                Some(&source[*start..*end])
                            },
                            RescueReference::Other => None,
                        };
                        match text {
                            Some(t) => {
                                let mut msg = message("`");
                                if utf8_valid(t) {
                                    append(&mut msg, t);
                                } else {
                                    append(&mut msg, "constant".as_bytes());
                                }
                                append(&mut msg, "` is overwritten by `rescue =>`.".as_bytes());
                                let (line, column) = offset_to_line_col(source, op);
                                diags.push(Diagnostic { location: Location { line, column }, message: msg, corrected: false });
                            },
                            None => {},
                        }
                    },
                    _ => {},
                }
            }
            k = k + 1;
        }
        diags
    }
}

/// The operator meant by a suspicious `=x`: `=-`, `=+`, `=*`, `=!`.
pub open spec fn mistake_correction(pair: Seq<u8>) -> Option<Seq<u8>> {
    if pair == seq![EQUALS, MINUS] {
        Some("-=".spec_bytes())
    } else if pair == seq![EQUALS, PLUS] {
        Some("+=".spec_bytes())
    } else if pair == seq![EQUALS, STAR] {
        Some("*=".spec_bytes())
    } else if pair == seq![EQUALS, BANG] {
        Some("!=".spec_bytes())
    } else {
        None
    }
}

/// The report for an assignment whose operator ends at `eq_end` and whose
/// value starts at `value_start`: the last byte of the operator and the
/// first of the value form `=-`, `=+`, `=*` or `=!`.
pub open spec fn ambiguous_assignment_offense(s: Seq<u8>, eq_end: int, value_start: int) -> Option<(int, Seq<u8>)> {
    if eq_end == 0 || value_start >= s.len() {
        None
    } else {
        let rs = eq_end - 1;
        let re = value_start + 1;
        if re > s.len() || rs >= re {
            None
        } else {
            match mistake_correction(s.subrange(rs, re)) {
                Some(c) => Some((rs, "Suspicious assignment detected. Did you mean `".spec_bytes() + c + "`?".spec_bytes())),
                None => None,
            }
        }
    }
}

impl AmbiguousAssignment {
    pub fn name(&self) -> (r: &'static str)
        ensures
            r@ == "Lint/AmbiguousAssignment"@,
    {
        "Lint/AmbiguousAssignment"
    }

    /// Checks an assignment whose `=` ends at `eq_end` and whose value
    /// starts at `value_start`.
    pub fn check_node(&self, source: &[u8], eq_end: usize, value_start: usize) -> (r: Option<Diagnostic>)
        requires
            source@.len() < usize::MAX,
        ensures
            match ambiguous_assignment_offense(source@, eq_end as int, value_start as int) {
                Some((at, msg)) => r matches Some(d) && d.location.line == spec_line_col(source@, at).0
                    && d.location.column == spec_line_col(source@, at).1 && d.message@ == msg && !d.corrected,
                None => r is None,
            },
    {
        if eq_end == 0 || value_start >= source.len() {
            return None;
        }
        let rs = eq_end - 1;
        let re = value_start + 1;
        if re > source.len() || rs >= re {
            return None;
        }
        let pair = &source[rs..re];
        let corr: &str = if pair.len() == 2 && pair[0] == EQUALS {
            if pair[1] == MINUS {
                "-="
            } else if pair[1] == PLUS {
                "+="
            } else if pair[1] == STAR {
                "*="
            } else if pair[1] == BANG {
                "!="
            } else {
                return None;
            }
        } else {
            proof {
                if pair@.len() == 2 {
                    assert(pair@ != seq![EQUALS, MINUS] && pair@ != seq![EQUALS, PLUS]);
                    assert(pair@ != seq![EQUALS, STAR] && pair@ != seq![EQUALS, BANG]);
                }
            }
            return None;
        };
        proof {
            if pair[1] == MINUS {
                assert(pair@ =~= seq![EQUALS, MINUS]);
            } else if pair[1] == PLUS {
                assert(pair@ =~= seq![EQUALS, PLUS]);
            } else if pair[1] == STAR {
                assert(pair@ =~= seq![EQUALS, STAR]);
            } else {
                assert(pair@ =~= seq![EQUALS, BANG]);
            }
        }
        let mut msg = message("Suspicious assignment detected. Did you mean `");
        append(&mut msg, corr.as_bytes());
        append(&mut msg, "`?".as_bytes());
        let (line, column) = offset_to_line_col(source, rs);
        Some(Diagnostic { location: Location { line, column }, message: msg, corrected: false })
    }
}


/// A suspicious `=x` is one of `=-`, `=+`, `=*` and `=!`, and the
/// operator it suggests is the same two bytes the other way round.
pub proof fn law_mistake_correction_swaps(pair: Seq<u8>)
    ensures
        mistake_correction(pair) matches Some(c) ==> pair.len() == 2 && c == seq![pair[1], pair[0]],
        mistake_correction(pair) is Some <==> (pair == seq![EQUALS, MINUS] || pair == seq![EQUALS, PLUS]
            || pair == seq![EQUALS, STAR] || pair == seq![EQUALS, BANG]),
{
    reveal_strlit("-=");
    vstd::string::is_ascii_spec_bytes("-=");
    reveal_strlit("+=");
    vstd::string::is_ascii_spec_bytes("+=");
    reveal_strlit("*=");
    vstd::string::is_ascii_spec_bytes("*=");
    reveal_strlit("!=");
    vstd::string::is_ascii_spec_bytes("!=");
    if mistake_correction(pair) is Some {
        assert(pair.len() == 2);
        assert(mistake_correction(pair)->0 =~= seq![pair[1], pair[0]]);
    }
}

} // verus!
