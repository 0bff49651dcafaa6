//! Byte strings: search, splitting, joining and decimal rendering.
use vstd::prelude::*;

verus! {

/// Whether `pat` occurs in `s` at `i`.
pub open spec fn occurs_at(s: Seq<u8>, pat: Seq<u8>, i: int) -> bool {
    0 <= i && i + pat.len() <= s.len() && s.subrange(i, i + pat.len()) == pat
}

/// The first index `i >= from` where `pat` occurs in `s`.
pub open spec fn find_from(s: Seq<u8>, pat: Seq<u8>, from: int) -> Option<int>
    decreases s.len() + 1 - from,
{
    if from < 0 || from + pat.len() > s.len() {
        None
    } else if occurs_at(s, pat, from) {
        Some(from)
    } else {
        find_from(s, pat, from + 1)
    }
}

pub proof fn lemma_find_from(s: Seq<u8>, pat: Seq<u8>, from: int)
    requires
        0 <= from,
    ensures
        find_from(s, pat, from) matches Some(i) ==> from <= i && occurs_at(s, pat, i),
        find_from(s, pat, from) matches Some(i) ==> forall|j: int|
            from <= j < i ==> !occurs_at(s, pat, j),
        find_from(s, pat, from) is None ==> forall|j: int|
            from <= j ==> !occurs_at(s, pat, j),
    decreases s.len() + 1 - from,
{
    if !(from + pat.len() > s.len()) && !occurs_at(s, pat, from) {
        lemma_find_from(s, pat, from + 1);
    }
}

/// Whether `s` starts with `p`.
pub open spec fn starts_with(s: Seq<u8>, p: Seq<u8>) -> bool {
    p.len() <= s.len() && s.subrange(0, p.len() as int) == p
}

/// Whether `s` ends with `p`.
pub open spec fn ends_with(s: Seq<u8>, p: Seq<u8>) -> bool {
    p.len() <= s.len() && s.subrange(s.len() - p.len(), s.len() as int) == p
}

/// The parts of `s` between the occurrences of `sep`, as Rust's `split`
/// gives them.
pub open spec fn split_on(s: Seq<u8>, sep: Seq<u8>) -> Seq<Seq<u8>>
    decreases s.len(),
{
    if sep.len() == 0 {
        seq![s]
    } else {
        match find_from(s, sep, 0) {
            Some(i) => {
                proof {
                    lemma_find_from(s, sep, 0);
                }
                seq![s.subrange(0, i)] + split_on(s.subrange(i + sep.len(), s.len() as int), sep)
            },
            None => seq![s],
        }
    }
}

/// The parts joined with `sep` between them.
pub open spec fn join_with(parts: Seq<Seq<u8>>, sep: Seq<u8>) -> Seq<u8>
    decreases parts.len(),
{
    if parts.len() == 0 {
        seq![]
    } else if parts.len() == 1 {
        parts[0]
    } else {
        join_with(parts.drop_last(), sep) + sep + parts.last()
    }
}

/// Whether `pat` occurs in `s` at `i`.
pub fn occurs_at_exec(s: &[u8], pat: &[u8], i: usize) -> (r: bool)
    ensures
        r == occurs_at(s@, pat@, i as int),
{
    if i > s.len() || s.len() - i < pat.len() {
        return false;
    }
    let n = s.len();
    let mut k: usize = 0;
    while k < pat.len()
        invariant
            n == s@.len(),
            i + pat@.len() <= s@.len(),
            k <= pat@.len(),
            forall|j: int| 0 <= j < k ==> s@[i + j] == pat@[j],
        decreases pat@.len() - k,
    {
        if s[i + k] != pat[k] {
            assert(s@.subrange(i as int, i + pat@.len())[k as int] != pat@[k as int]);
            return false;
        }
        k = k + 1;
    }
    assert(s@.subrange(i as int, i + pat@.len()) =~= pat@);
    true
}

/// The first index at or after `from` where `pat` occurs in `s`.
pub fn find_from_exec(s: &[u8], pat: &[u8], from: usize) -> (r: Option<usize>)
    ensures
        match r {
            Some(i) => find_from(s@, pat@, from as int) == Some(i as int),
            None => find_from(s@, pat@, from as int) is None,
        },
{
    let n = s.len();
    let mut i = from;
    while i <= s.len() && s.len() - i >= pat.len()
        invariant
            n == s@.len(),
            from <= i,
            find_from(s@, pat@, from as int) == find_from(s@, pat@, i as int),
        decreases s@.len() + 1 - i,
    {
        if occurs_at_exec(s, pat, i) {
            return Some(i);
        }
        assert(i < n) by {
            if i == n {
                assert(s@.subrange(i as int, i as int) =~= pat@);
            }
        }
        i = i + 1;
    }
    None
}

/// `a` followed by `b`.
pub fn concat(a: &[u8], b: &[u8]) -> (r: Vec<u8>)
    ensures
        r@ == a@ + b@,
{
    let mut out = vstd::slice::slice_to_vec(a);
    append(&mut out, b);
    out
}

/// Appends `b` to `v`.
pub fn append(v: &mut Vec<u8>, b: &[u8])
    ensures
        final(v)@ == old(v)@ + b@,
{
    let ghost start = v@;
    let mut i: usize = 0;
    while i < b.len()
        invariant
            i <= b@.len(),
            v@ == start + b@.subrange(0, i as int),
        decreases b@.len() - i,
    {
        v.push(b[i]);
        i = i + 1;
        assert(v@ =~= start + b@.subrange(0, i as int));
    }
    assert(b@.subrange(0, i as int) =~= b@);
}

/// The decimal digits of `n`, most significant first.
pub open spec fn decimal(n: nat) -> Seq<u8>
    decreases n,
{
    if n < 10 {
        seq![(0x30 + n) as u8]
    } else {
        decimal(n / 10).push((0x30 + n % 10) as u8)
    }
}

/// Appends the decimal rendering of `n` to `v`.
pub fn push_decimal(v: &mut Vec<u8>, n: usize)
    ensures
        final(v)@ == old(v)@ + decimal(n as nat),
    decreases n,
{
    if n < 10 {
        v.push((0x30 + n) as u8);
        assert(decimal(n as nat) =~= seq![(0x30 + n) as u8]);
    } else {
        let ghost start = v@;
        push_decimal(v, n / 10);
        v.push((0x30 + n % 10) as u8);
        assert(v@ =~= start + decimal(n as nat));
    }
}

} // verus!

verus! {

/// Searching a suffix of `s` is searching `s` from further on.
pub proof fn lemma_find_from_suffix(s: Seq<u8>, pat: Seq<u8>, pos: int, from: int)
    requires
        0 <= pos <= s.len(),
        0 <= from,
    ensures
        find_from(s.subrange(pos, s.len() as int), pat, from) == match find_from(s, pat, pos + from) {
            Some(i) => Some(i - pos),
            None => None::<int>,
        },
    decreases s.len() + 1 - pos - from,
{
    let t = s.subrange(pos, s.len() as int);
    if from + pat.len() > t.len() {
    } else {
        assert(occurs_at(t, pat, from) == occurs_at(s, pat, pos + from)) by {
            assert(t.subrange(from, from + pat.len()) =~= s.subrange(pos + from, pos + from + pat.len()));
        }
        if !occurs_at(t, pat, from) {
            lemma_find_from_suffix(s, pat, pos, from + 1);
        }
    }
}

/// Whether `part` is one of the parts of `s` between occurrences of the
/// nonempty separator `sep`.
pub fn split_has_part(s: &[u8], sep: &[u8], part: &[u8]) -> (r: bool)
    requires
        sep@.len() > 0,
    ensures
        r == split_on(s@, sep@).contains(part@),
{
    let mut pos: usize = 0;
    let n = s.len();
    assert(s@.subrange(0, n as int) =~= s@);
    loop
        invariant
            n == s@.len(),
            pos <= n,
            sep@.len() > 0,
            split_on(s@, sep@).contains(part@) == split_on(s@.subrange(pos as int, n as int), sep@).contains(part@),
        decreases n - pos,
    {
        let ghost rest = s@.subrange(pos as int, n as int);
        proof {
            lemma_find_from_suffix(s@, sep@, pos as int, 0);
            lemma_find_from(s@, sep@, pos as int);
            lemma_find_from(rest, sep@, 0);
        }
        match find_from_exec(s, sep, pos) {
            Some(i) => {
                let piece_eq = bytes_eq_range(s, pos, i, part);
                let ghost first = rest.subrange(0, i - pos);
                let ghost tail = rest.subrange(i - pos + sep@.len(), rest.len() as int);
                assert(split_on(rest, sep@) == seq![first] + split_on(tail, sep@));
                assert(first =~= s@.subrange(pos as int, i as int));
                assert(tail =~= s@.subrange(i + sep@.len(), n as int));
                assert((seq![first] + split_on(tail, sep@)).contains(part@) == (first == part@
                    || split_on(tail, sep@).contains(part@))) by {
                    let whole = seq![first] + split_on(tail, sep@);
                    if split_on(tail, sep@).contains(part@) {
                        let j = choose|j: int| 0 <= j < split_on(tail, sep@).len() && split_on(tail, sep@)[j] == part@;
                        assert(whole[j + 1] == part@);
                    }
                    if whole.contains(part@) {
                        let j = choose|j: int| 0 <= j < whole.len() && whole[j] == part@;
                        if j > 0 {
                            assert(split_on(tail, sep@)[j - 1] == part@);
                        }
                    }
                    if first == part@ {
                        assert(whole[0] == part@);
                    }
                }
                if piece_eq {
                    return true;
                }
                pos = i + sep.len();
            },
            None => {
                assert(split_on(rest, sep@) == seq![rest]);
                let r = bytes_eq_range(s, pos, n, part);
                assert(rest =~= s@.subrange(pos as int, n as int));
                assert(seq![rest].contains(part@) == (rest == part@)) by {
                    if seq![rest].contains(part@) {
                        let j = choose|j: int| 0 <= j < 1 && seq![rest][j] == part@;
                    }
                    if rest == part@ {
                        assert(seq![rest][0] == part@);
                    }
                }
                return r;
            },
        }
    }
}

/// Whether `s[start..end]` equals `b`.
pub fn bytes_eq_range(s: &[u8], start: usize, end: usize, b: &[u8]) -> (r: bool)
    requires
        start <= end <= s@.len(),
    ensures
        r == (s@.subrange(start as int, end as int) == b@),
{
    if end - start != b.len() {
        assert(s@.subrange(start as int, end as int).len() != b@.len());
        return false;
    }
    let mut k: usize = 0;
    while k < b.len()
        invariant
            end - start == b@.len(),
            start <= end <= s@.len(),
            k <= b@.len(),
            forall|j: int| 0 <= j < k ==> s@[start + j] == b@[j],
        decreases b@.len() - k,
    {
        if s[start + k] != b[k] {
            assert(s@.subrange(start as int, end as int)[k as int] != b@[k as int]);
            return false;
        }
        k = k + 1;
    }
    assert(s@.subrange(start as int, end as int) =~= b@);
    true
}

} // verus!
