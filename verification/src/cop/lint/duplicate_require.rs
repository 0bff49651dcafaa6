//! Lint/DuplicateRequire: a `require` or `require_relative` of a path that
//! the same parent node already required.
use vstd::prelude::*;
use vstd::string::StringSliceAdditionalSpecFns;
use crate::diagnostic::{message, reports_at, Diagnostic, Location};
use crate::text::{bytes_eq, offset_to_line_col, spec_line_col};

verus! {

pub struct DuplicateRequire;

/// The receiver of the call: none, `Kernel` (or `::Kernel`), or another.
#[derive(Clone, Copy, PartialEq, Eq, Structural)]
pub enum RequireReceiver {
    NoReceiver,
    Kernel,
    Other,
}

/// A method call in the order of a walk of the tree: its name, receiver,
/// its sole argument's content when that is one plain string, the start
/// of the node it stands in, and its own start.
pub struct RequireCall {
    pub name: Vec<u8>,
    pub receiver: RequireReceiver,
    pub argument: Option<Vec<u8>>,
    pub parent: usize,
    pub start: usize,
}

pub const DUPLICATE_REQUIRE_MESSAGE: &'static str = "Duplicate `require` detected.";

/// The call requires a file.
pub open spec fn is_require(c: RequireCall) -> bool {
    &&& (c.name@ == "require".spec_bytes() || c.name@ == "require_relative".spec_bytes())
    &&& c.receiver != RequireReceiver::Other
    &&& c.argument is Some
}

/// What two requires are compared by: parent, method and path.
pub open spec fn require_key(c: RequireCall) -> (int, Seq<u8>, Seq<u8>) {
    (c.parent as int, c.name@, c.argument.unwrap()@)
}

/// The keys of the requires among the first `n` calls.
pub open spec fn require_keys(cs: Seq<RequireCall>, n: int) -> Seq<(int, Seq<u8>, Seq<u8>)>
    decreases n,
{
    if n <= 0 {
        seq![]
    } else {
        require_keys(cs, n - 1) + if is_require(cs[n - 1]) {
            seq![require_key(cs[n - 1])]
        } else {
            seq![]
        }
    }
}

/// Where the first `n` calls repeat an earlier require.
pub open spec fn duplicate_requires(cs: Seq<RequireCall>, n: int) -> Seq<int>
    decreases n,
{
    if n <= 0 {
        seq![]
    } else {
        duplicate_requires(cs, n - 1) + if is_require(cs[n - 1]) && require_keys(cs, n - 1).contains(require_key(cs[n - 1])) {
            seq![cs[n - 1].start as int]
        } else {
            seq![]
        }
    }
}

pub open spec fn key_views(v: Seq<(usize, Vec<u8>, Vec<u8>)>) -> Seq<(int, Seq<u8>, Seq<u8>)> {
    v.map_values(|k: (usize, Vec<u8>, Vec<u8>)| (k.0 as int, k.1@, k.2@))
}

fn contains_key(seen: &Vec<(usize, Vec<u8>, Vec<u8>)>, parent: usize, name: &[u8], arg: &[u8]) -> (r: bool)
    ensures
        r == key_views(seen@).contains((parent as int, name@, arg@)),
{
    let mut i: usize = 0;
    while i < seen.len()
        invariant
            i <= seen@.len(),
            forall|j: int| 0 <= j < i ==> key_views(seen@)[j] != (parent as int, name@, arg@),
        decreases seen@.len() - i,
    {
        let (p, n, a) = &seen[i];
        if *p == parent && bytes_eq(n.as_slice(), name) && bytes_eq(a.as_slice(), arg) {
            assert(key_views(seen@)[i as int] == (parent as int, name@, arg@));
            return true;
        }
        assert(key_views(seen@)[i as int] == (seen@[i as int].0 as int, seen@[i as int].1@, seen@[i as int].2@));
        i = i + 1;
    }
    false
}

impl DuplicateRequire {
    pub fn name(&self) -> (r: &'static str)
        ensures
            r@ == "Lint/DuplicateRequire"@,
    {
        "Lint/DuplicateRequire"
    }

    /// Reports each require that repeats an earlier one of the same parent.
    pub fn check_source(&self, source: &[u8], calls: &Vec<RequireCall>) -> (r: Vec<Diagnostic>)
        requires
            source@.len() < usize::MAX,
            forall|k: int| 0 <= k < calls@.len() ==> #[trigger] calls@[k].start <= source@.len(),
        ensures
            reports_at(source@, duplicate_requires(calls@, calls@.len() as int), DUPLICATE_REQUIRE_MESSAGE.spec_bytes(), r@),
    {
        proof {
            reveal_strlit("require");
            reveal_strlit("require_relative");
        }
        let mut diags: Vec<Diagnostic> = Vec::new();
        let mut seen: Vec<(usize, Vec<u8>, Vec<u8>)> = Vec::new();
        let mut k: usize = 0;
        while k < calls.len()
            invariant
                k <= calls@.len(),
                source@.len() < usize::MAX,
                forall|j: int| 0 <= j < calls@.len() ==> #[trigger] calls@[j].start <= source@.len(),
                key_views(seen@) == require_keys(calls@, k as int),
                reports_at(source@, duplicate_requires(calls@, k as int), DUPLICATE_REQUIRE_MESSAGE.spec_bytes(), diags@),
            decreases calls@.len() - k,
        {
            let c = &calls[k];
            let ghost prev = duplicate_requires(calls@, k as int);
            let ghost d0 = diags@;
            let named = bytes_eq(c.name.as_slice(), "require".as_bytes()) || bytes_eq(c.name.as_slice(), "require_relative".as_bytes());
            if named && c.receiver != RequireReceiver::Other {
                match &c.argument {
                    Some(arg) => {
                        if contains_key(&seen, c.parent, c.name.as_slice(), arg.as_slice()) {
                            assert(calls@[k as int].start <= source@.len());
                            let (line, column) = offset_to_line_col(source, c.start);
                            diags.push(Diagnostic { location: Location { line, column }, message: message(DUPLICATE_REQUIRE_MESSAGE), corrected: false });
                            let ghost now = duplicate_requires(calls@, k + 1);
                            assert(now =~= prev.push(c.start as int));
                            assert forall|j: int| 0 <= j < now.len() implies {
                                &&& (#[trigger] diags@[j]).location.line == spec_line_col(source@, now[j]).0
                                &&& diags@[j].location.column == spec_line_col(source@, now[j]).1
                                &&& diags@[j].message@ == DUPLICATE_REQUIRE_MESSAGE.spec_bytes()
                                &&& !diags@[j].corrected
                            } by {
                                if j < d0.len() {
                                    assert(diags@[j] == d0[j]);
                                }
                            }
                        } else {
                            assert(duplicate_requires(calls@, k + 1) =~= prev);
                        }
                        let ghost s0 = seen@;
                        seen.push((c.parent, c.name.clone(), arg.clone()));
                        assert(key_views(seen@) =~= key_views(s0).push(require_key(calls@[k as int])));
                    },
                    None => {
                        assert(duplicate_requires(calls@, k + 1) =~= prev);
                        assert(require_keys(calls@, k + 1) =~= require_keys(calls@, k as int));
                    },
                }
            } else {
                assert(duplicate_requires(calls@, k + 1) =~= prev);
                assert(require_keys(calls@, k + 1) =~= require_keys(calls@, k as int));
            }
            k = k + 1;
        }
        diags
    }
}


proof fn lemma_require_keys_contain(cs: Seq<RequireCall>, i: int, n: int)
    requires
        0 <= i < n <= cs.len(),
        is_require(cs[i]),
    ensures
        require_keys(cs, n).contains(require_key(cs[i])),
    decreases n,
{
    let prev = require_keys(cs, n - 1);
    if i == n - 1 {
        assert(require_keys(cs, n)[prev.len() as int] == require_key(cs[i]));
    } else {
        lemma_require_keys_contain(cs, i, n - 1);
        let w = choose|w: int| 0 <= w < prev.len() && prev[w] == require_key(cs[i]);
        assert(require_keys(cs, n)[w] == require_key(cs[i]));
    }
}

proof fn lemma_require_keys_from(cs: Seq<RequireCall>, n: int, w: int)
    requires
        0 <= n <= cs.len(),
        0 <= w < require_keys(cs, n).len(),
    ensures
        exists|i: int| 0 <= i < n && is_require(cs[i]) && require_key(cs[i]) == #[trigger] require_keys(cs, n)[w],
    decreases n,
{
    let prev = require_keys(cs, n - 1);
    if w < prev.len() {
        lemma_require_keys_from(cs, n - 1, w);
        let i = choose|i: int| 0 <= i < n - 1 && is_require(cs[i]) && require_key(cs[i]) == #[trigger] prev[w];
        assert(require_keys(cs, n)[w] == prev[w]);
        assert(0 <= i < n && is_require(cs[i]) && require_key(cs[i]) == require_keys(cs, n)[w]);
    } else {
        assert(require_keys(cs, n)[w] == require_key(cs[n - 1]));
        assert(is_require(cs[n - 1]) && require_key(cs[n - 1]) == require_keys(cs, n)[w]);
    }
}

proof fn lemma_duplicate_requires_grow(cs: Seq<RequireCall>, x: int, m: int, n: int)
    requires
        0 <= m <= n <= cs.len(),
        duplicate_requires(cs, m).contains(x),
    ensures
        duplicate_requires(cs, n).contains(x),
    decreases n - m,
{
    if m < n {
        lemma_duplicate_requires_grow(cs, x, m, n - 1);
        let d = duplicate_requires(cs, n - 1);
        let w = choose|w: int| 0 <= w < d.len() && d[w] == x;
        assert(duplicate_requires(cs, n)[w] == x);
    }
}

/// A require of the same path, by the same method and under the same
/// parent as an earlier one is reported at its start.
pub proof fn law_repeated_require_reported(cs: Seq<RequireCall>, i: int, j: int)
    requires
        0 <= i < j < cs.len(),
        is_require(cs[i]),
        is_require(cs[j]),
        require_key(cs[i]) == require_key(cs[j]),
    ensures
        duplicate_requires(cs, cs.len() as int).contains(cs[j].start as int),
{
    lemma_require_keys_contain(cs, i, j);
    let d = duplicate_requires(cs, j);
    assert(duplicate_requires(cs, j + 1)[d.len() as int] == cs[j].start as int);
    lemma_duplicate_requires_grow(cs, cs[j].start as int, j + 1, cs.len() as int);
}

proof fn lemma_distinct_prefix(cs: Seq<RequireCall>, n: int)
    requires
        0 <= n <= cs.len(),
        forall|i: int, j: int|
            0 <= i < j < cs.len() && is_require(cs[i]) && is_require(cs[j]) ==> require_key(cs[i]) != require_key(
                cs[j],
            ),
    ensures
        duplicate_requires(cs, n) == Seq::<int>::empty(),
    decreases n,
{
    if n > 0 {
        lemma_distinct_prefix(cs, n - 1);
        let ks = require_keys(cs, n - 1);
        if is_require(cs[n - 1]) && ks.contains(require_key(cs[n - 1])) {
            let w = choose|w: int| 0 <= w < ks.len() && ks[w] == require_key(cs[n - 1]);
            lemma_require_keys_from(cs, n - 1, w);
            let i = choose|i: int| 0 <= i < n - 1 && is_require(cs[i]) && require_key(cs[i]) == #[trigger] ks[w];
            assert(require_key(cs[i]) != require_key(cs[n - 1]));
        }
        assert(duplicate_requires(cs, n) =~= Seq::<int>::empty());
    }
}

/// Requires that all differ in parent, method or path are never reported.
pub proof fn law_distinct_requires_not_reported(cs: Seq<RequireCall>)
    requires
        forall|i: int, j: int|
            0 <= i < j < cs.len() && is_require(cs[i]) && is_require(cs[j]) ==> require_key(cs[i]) != require_key(
                cs[j],
            ),
    ensures
        duplicate_requires(cs, cs.len() as int) == Seq::<int>::empty(),
{
    lemma_distinct_prefix(cs, cs.len() as int);
}


/// The calls that require a file are `require` and `require_relative`,
/// without receiver or on `Kernel`, with a path argument.
pub proof fn law_require_methods(c: RequireCall)
    ensures
        is_require(c) ==> c.name@ == "require".spec_bytes() || c.name@ == "require_relative".spec_bytes(),
        (c.name@ == "require".spec_bytes() || c.name@ == "require_relative".spec_bytes())
            && c.receiver != RequireReceiver::Other && c.argument is Some ==> is_require(c),
{
}

} // verus!
