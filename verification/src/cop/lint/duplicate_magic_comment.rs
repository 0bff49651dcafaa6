//! Lint/DuplicateMagicComment: a magic comment at the top of a file that
//! repeats an earlier one (aliases such as `coding`/`encoding` count as the
//! same key).
use vstd::prelude::*;
use vstd::string::StringSliceAdditionalSpecFns;
use crate::ascii::{BANG, COLON};
use crate::bytes::{find_from, find_from_exec};
use crate::diagnostic::{message, Correction, Diagnostic, Location};
use crate::text::{
    blank_run_back, blank_run_end, bytes_eq, is_line_split, line_spans, skip_blanks,
    skip_blanks_back, views, HASH, SPACE, TAB,
};

verus! {

pub struct DuplicateMagicComment;

pub const DUPLICATE_MAGIC_COMMENT_MESSAGE: &'static str = "Duplicate magic comment detected.";

pub open spec fn ascii_lower(b: u8) -> u8 {
    if 0x41u8 <= b <= 0x5au8 {
        (b + 32) as u8
    } else {
        b
    }
}

pub open spec fn lowercase(s: Seq<u8>) -> Seq<u8> {
    s.map_values(|b: u8| ascii_lower(b))
}

/// `s` without its leading spaces and tabs.
pub open spec fn trim_leading(s: Seq<u8>) -> Seq<u8> {
    s.subrange(blank_run_end(s, 0), s.len() as int)
}

/// The key part of a comment: leading blanks go unless the key is all
/// blanks, then trailing blanks go unless it is all blanks.
pub open spec fn trim_key(k0: Seq<u8>) -> Seq<u8> {
    let a = blank_run_end(k0, 0);
    let k1 = if a < k0.len() {
        k0.subrange(a, k0.len() as int)
    } else {
        k0
    };
    let b = blank_run_back(k1, k1.len() as int, 0);
    if b > 0 {
        k1.subrange(0, b)
    } else {
        k1
    }
}

pub open spec fn is_magic_key(k: Seq<u8>) -> bool {
    k == "frozen_string_literal".spec_bytes() || k == "frozen-string-literal".spec_bytes() || k
        == "encoding".spec_bytes() || k == "coding".spec_bytes() || k == "warn_indent".spec_bytes()
        || k == "warn-indent".spec_bytes() || k == "shareable_constant_value".spec_bytes() || k
        == "shareable-constant-value".spec_bytes() || k == "typed".spec_bytes()
}

/// The name a magic key is compared by.
pub open spec fn canonical_key(k: Seq<u8>) -> Seq<u8> {
    if k == "coding".spec_bytes() {
        "encoding".spec_bytes()
    } else if k == "frozen-string-literal".spec_bytes() {
        "frozen_string_literal".spec_bytes()
    } else if k == "warn-indent".spec_bytes() {
        "warn_indent".spec_bytes()
    } else if k == "shareable-constant-value".spec_bytes() {
        "shareable_constant_value".spec_bytes()
    } else {
        k
    }
}

/// The comment text after `#` and blanks; in an Emacs-style comment
/// `-*- ... -*-`, the part between the markers.
pub open spec fn comment_body(trimmed: Seq<u8>) -> (Seq<u8>, bool) {
    let c1 = trim_leading(trimmed.subrange(1, trimmed.len() as int));
    let emacs = c1.len() >= 3 && c1.subrange(0, 3) == "-*-".spec_bytes();
    if emacs {
        let inner = c1.subrange(3, c1.len() as int);
        match find_from(inner, "-*-".spec_bytes(), 0) {
            Some(e) => (inner.subrange(0, e), true),
            None => (inner, true),
        }
    } else {
        (c1, false)
    }
}

/// What a line means at the top of a file: `None` ends the scan (code
/// was reached); `Some(None)` is a line to pass over; `Some(Some(k))` is a
/// magic comment with canonical key `k`.
pub open spec fn magic_line_key(line: Seq<u8>) -> Option<Option<Seq<u8>>> {
    let trimmed = trim_leading(line);
    if trimmed.len() == 0 {
        Some(None)
    } else if trimmed.len() >= 2 && trimmed[0] == HASH && trimmed[1] == BANG {
        Some(None)
    } else if trimmed[0] != HASH {
        None
    } else {
        let (comment, emacs) = comment_body(trimmed);
        match find_from(comment, seq![COLON], 0) {
            Some(colon) => {
                let lower = lowercase(trim_key(comment.subrange(0, colon)));
                if !emacs && (lower == "encoding".spec_bytes() || lower == "coding".spec_bytes())
                    && colon + 1 < comment.len() && comment[colon + 1] != SPACE && comment[colon
                    + 1] != TAB {
                    Some(None)
                } else if is_magic_key(lower) {
                    Some(Some(canonical_key(lower)))
                } else {
                    Some(None)
                }
            },
            None => Some(None),
        }
    }
}

/// The scan over the first `n` lines: the keys seen, whether it stopped,
/// and the lines that repeat a key.
pub open spec fn magic_run(s: Seq<u8>, spans: Seq<(usize, usize)>, n: int) -> (Seq<Seq<u8>>, bool, Seq<int>)
    decreases n,
{
    if n <= 0 {
        (seq![], false, seq![])
    } else {
        let prev = magic_run(s, spans, n - 1);
        if prev.1 {
            prev
        } else {
            let line = s.subrange(spans[n - 1].0 as int, spans[n - 1].1 as int);
            match magic_line_key(line) {
                None => (prev.0, true, prev.2),
                Some(None) => prev,
                Some(Some(k)) => if prev.0.contains(k) {
                    (prev.0, false, prev.2.push(n - 1))
                } else {
                    (prev.0.push(k), false, prev.2)
                },
            }
        }
    }
}

/// What the cop reports for the duplicate lines `offs`.
pub open spec fn reports_duplicates(
    s: Seq<u8>,
    spans: Seq<(usize, usize)>,
    offs: Seq<int>,
    autocorrect: bool,
    diags: Seq<Diagnostic>,
    corrections: Seq<Correction>,
) -> bool {
    &&& diags.len() == offs.len()
    &&& forall|k: int|
        0 <= k < offs.len() ==> {
            &&& (#[trigger] diags[k]).location.line == offs[k] + 1
            &&& diags[k].location.column == 0
            &&& diags[k].message@ == DUPLICATE_MAGIC_COMMENT_MESSAGE.spec_bytes()
            &&& diags[k].corrected == autocorrect
        }
    &&& corrections.len() == (if autocorrect {
        offs.len()
    } else {
        0
    })
    &&& forall|k: int|
        0 <= k < corrections.len() ==> {
            &&& (#[trigger] corrections[k]).start == spans[offs[k]].0
            &&& corrections[k].end == if spans[offs[k]].1 + 1 <= s.len() {
                spans[offs[k]].1 + 1
            } else {
                s.len() as int
            }
            &&& corrections[k].replacement@.len() == 0
        }
}

fn lowercase_exec(s: &[u8]) -> (r: Vec<u8>)
    ensures
        r@ == lowercase(s@),
{
    let mut out: Vec<u8> = Vec::new();
    let mut k: usize = 0;
    while k < s.len()
        invariant
            k <= s@.len(),
            out@ =~= lowercase(s@.subrange(0, k as int)),
        decreases s@.len() - k,
    {
        let b = s[k];
        let l = if 0x41 <= b && b <= 0x5a {
            b + 32
        } else {
            b
        };
        out.push(l);
        k = k + 1;
        assert(lowercase(s@.subrange(0, k as int)) =~= lowercase(s@.subrange(0, k - 1)).push(l));
    }
    assert(s@.subrange(0, s@.len() as int) =~= s@);
    out
}

fn trim_key_exec(k0: &[u8]) -> (r: &[u8])
    ensures
        r@ == trim_key(k0@),
{
    let a = skip_blanks(k0, 0);
    let k1 = if a < k0.len() {
        &k0[a..k0.len()]
    } else {
        k0
    };
    let b = skip_blanks_back(k1, k1.len(), 0);
    if b > 0 {
        &k1[0..b]
    } else {
        k1
    }
}

fn is_magic_key_exec(k: &[u8]) -> (r: bool)
    ensures
        r == is_magic_key(k@),
{
    bytes_eq(k, "frozen_string_literal".as_bytes()) || bytes_eq(k, "frozen-string-literal".as_bytes())
        || bytes_eq(k, "encoding".as_bytes()) || bytes_eq(k, "coding".as_bytes()) || bytes_eq(k, "warn_indent".as_bytes())
        || bytes_eq(k, "warn-indent".as_bytes()) || bytes_eq(k, "shareable_constant_value".as_bytes())
        || bytes_eq(k, "shareable-constant-value".as_bytes()) || bytes_eq(k, "typed".as_bytes())
}

fn canonical_key_exec(k: Vec<u8>) -> (r: Vec<u8>)
    ensures
        r@ == canonical_key(k@),
{
    if bytes_eq(k.as_slice(), "coding".as_bytes()) {
        message("encoding")
    } else if bytes_eq(k.as_slice(), "frozen-string-literal".as_bytes()) {
        message("frozen_string_literal")
    } else if bytes_eq(k.as_slice(), "warn-indent".as_bytes()) {
        message("warn_indent")
    } else if bytes_eq(k.as_slice(), "shareable-constant-value".as_bytes()) {
        message("shareable_constant_value")
    } else {
        k
    }
}

/// What a line means at the top of a file; see `magic_line_key`.
pub fn magic_comment_key(line: &[u8]) -> (r: Option<Option<Vec<u8>>>)
    ensures
        match r {
            None => magic_line_key(line@) is None,
            Some(None) => magic_line_key(line@) == Some(None::<Seq<u8>>),
            Some(Some(k)) => magic_line_key(line@) == Some(Some(k@)),
        },
{
    let t0 = skip_blanks(line, 0);
    let trimmed = &line[t0..line.len()];
    if trimmed.len() == 0 {
        return Some(None);
    }
    if trimmed.len() >= 2 && trimmed[0] == HASH && trimmed[1] == BANG {
        return Some(None);
    }
    if trimmed[0] != HASH {
        return None;
    }
    let after_hash = &trimmed[1..trimmed.len()];
    let c0 = skip_blanks(after_hash, 0);
    let c1 = &after_hash[c0..after_hash.len()];
    let emacs = c1.len() >= 3 && crate::bytes::bytes_eq_range(c1, 0, 3, "-*-".as_bytes());
    let comment: &[u8] = if emacs {
        let inner = &c1[3..c1.len()];
        match find_from_exec(inner, "-*-".as_bytes(), 0) {
            Some(e) => {
                proof {
                    crate::bytes::lemma_find_from(inner@, "-*-".spec_bytes(), 0);
                }
                &inner[0..e]
            },
            None => inner,
        }
    } else {
        c1
    };
    assert((comment@, emacs) == comment_body(trimmed@));
    let colon_pat: [u8; 1] = [COLON];
    let colon = match find_from_exec(comment, colon_pat.as_slice(), 0) {
        Some(c) => c,
        None => {
            assert(colon_pat@ =~= seq![COLON]);
            return Some(None);
        },
    };
    assert(colon_pat@ =~= seq![COLON]);
    proof {
        crate::bytes::lemma_find_from(comment@, seq![COLON], 0);
    }
    let lower = lowercase_exec(trim_key_exec(&comment[0..colon]));
    let enc = bytes_eq(lower.as_slice(), "encoding".as_bytes()) || bytes_eq(lower.as_slice(), "coding".as_bytes());
    if !emacs && enc && colon + 1 < comment.len() && comment[colon + 1] != SPACE && comment[colon + 1] != TAB {
        return Some(None);
    }
    if is_magic_key_exec(lower.as_slice()) {
        Some(Some(canonical_key_exec(lower)))
    } else {
        Some(None)
    }
}

fn contains_key(seen: &Vec<Vec<u8>>, k: &[u8]) -> (r: bool)
    ensures
        r == views(seen@).contains(k@),
{
    let mut i: usize = 0;
    while i < seen.len()
        invariant
            i <= seen@.len(),
            forall|j: int| 0 <= j < i ==> seen@[j]@ != k@,
        decreases seen@.len() - i,
    {
        if bytes_eq(seen[i].as_slice(), k) {
            assert(views(seen@)[i as int] == k@);
            return true;
        }
        i = i + 1;
    }
    assert forall|j: int| 0 <= j < views(seen@).len() implies views(seen@)[j] != k@ by {
        assert(views(seen@)[j] == seen@[j]@);
    }
    false
}

impl DuplicateMagicComment {
    pub fn name(&self) -> (r: &'static str)
        ensures
            r@ == "Lint/DuplicateMagicComment"@,
    {
        "Lint/DuplicateMagicComment"
    }

    pub fn supports_autocorrect(&self) -> (r: bool)
        ensures
            r,
    {
        true
    }

    /// Scans the comments at the top of `source` and reports each magic
    /// comment whose key was already set; with `autocorrect`, each comes
    /// with the edit that deletes its line.
    pub fn check_lines(&self, source: &[u8], autocorrect: bool) -> (r: (Vec<Diagnostic>, Vec<Correction>))
        requires
            source@.len() < usize::MAX,
        ensures
            forall|spans: Seq<(usize, usize)>|
                is_line_split(source@, spans) ==> reports_duplicates(
                    source@,
                    spans,
                    magic_run(source@, spans, spans.len() as int).2,
                    autocorrect,
                    r.0@,
                    r.1@,
                ),
    {
        let spans = line_spans(source);
        let mut seen: Vec<Vec<u8>> = Vec::new();
        let mut diags: Vec<Diagnostic> = Vec::new();
        let mut corrs: Vec<Correction> = Vec::new();
        let mut stopped = false;
        let mut i: usize = 0;
        while i < spans.len()
            invariant
                is_line_split(source@, spans@),
                source@.len() < usize::MAX,
                i <= spans@.len(),
                ({
                    let run = magic_run(source@, spans@, i as int);
                    &&& views(seen@) == run.0
                    &&& stopped == run.1
                    &&& reports_duplicates(source@, spans@, run.2, autocorrect, diags@, corrs@)
                }),
            decreases spans@.len() - i,
        {
            let ghost prev = magic_run(source@, spans@, i as int);
            if !stopped {
                let (ls, le) = spans[i];
                assert(spans@[i as int].0 <= spans@[i as int].1 <= source@.len());
                let line = &source[ls..le];
                match magic_comment_key(line) {
                    None => {
                        stopped = true;
                    },
                    Some(None) => {},
                    Some(Some(k)) => {
                        if contains_key(&seen, k.as_slice()) {
                            diags.push(
                                Diagnostic {
                                    location: Location { line: i + 1, column: 0 },
                                    message: message(DUPLICATE_MAGIC_COMMENT_MESSAGE),
                                    corrected: autocorrect,
                                },
                            );
                            if autocorrect {
                                let end = if le + 1 <= source.len() {
                                    le + 1
                                } else {
                                    source.len()
                                };
                                corrs.push(Correction { start: ls, end, replacement: Vec::new() });
                            }
                        } else {
                            let ghost before = seen@;
                            seen.push(k);
                            assert(views(seen@) =~= views(before).push(k@));
                        }
                    },
                }
            }
            i = i + 1;
        }
        proof {
            assert forall|spans2: Seq<(usize, usize)>| is_line_split(source@, spans2) implies spans2 == spans@ by {
                crate::text::lemma_line_split_unique(source@, spans2, spans@);
            }
        }
        (diags, corrs)
    }
}


/// Line `m` of `s`, split as `spans`.
pub open spec fn line_at(s: Seq<u8>, spans: Seq<(usize, usize)>, m: int) -> Seq<u8> {
    s.subrange(spans[m].0 as int, spans[m].1 as int)
}

proof fn lemma_magic_run_open(s: Seq<u8>, spans: Seq<(usize, usize)>, n: int)
    requires
        0 <= n <= spans.len(),
        forall|m: int| 0 <= m < n ==> #[trigger] magic_line_key(line_at(s, spans, m)) is Some,
    ensures
        !magic_run(s, spans, n).1,
    decreases n,
{
    if n > 0 {
        lemma_magic_run_open(s, spans, n - 1);
        assert(magic_line_key(line_at(s, spans, n - 1)) is Some);
    }
}

proof fn lemma_magic_run_keeps_key(s: Seq<u8>, spans: Seq<(usize, usize)>, i: int, n: int, k: Seq<u8>)
    requires
        0 <= i < n <= spans.len(),
        forall|m: int| 0 <= m < n ==> #[trigger] magic_line_key(line_at(s, spans, m)) is Some,
        magic_line_key(line_at(s, spans, i)) == Some(Some(k)),
    ensures
        magic_run(s, spans, n).0.contains(k),
    decreases n,
{
    lemma_magic_run_open(s, spans, n - 1);
    assert(magic_line_key(line_at(s, spans, n - 1)) is Some);
    let prev = magic_run(s, spans, n - 1);
    if i == n - 1 {
        if !prev.0.contains(k) {
            assert(prev.0.push(k)[prev.0.len() as int] == k);
        }
    } else {
        lemma_magic_run_keeps_key(s, spans, i, n - 1, k);
        if let Some(Some(k2)) = magic_line_key(line_at(s, spans, n - 1)) {
            if !prev.0.contains(k2) {
                let w = choose|w: int| 0 <= w < prev.0.len() && prev.0[w] == k;
                assert(prev.0.push(k2)[w] == k);
            }
        }
    }
}

proof fn lemma_magic_run_reports_grow(s: Seq<u8>, spans: Seq<(usize, usize)>, x: int, m: int, n: int)
    requires
        0 <= m <= n <= spans.len(),
        magic_run(s, spans, m).2.contains(x),
    ensures
        magic_run(s, spans, n).2.contains(x),
    decreases n - m,
{
    if m < n {
        lemma_magic_run_reports_grow(s, spans, x, m, n - 1);
        let d = magic_run(s, spans, n - 1).2;
        let w = choose|w: int| 0 <= w < d.len() && d[w] == x;
        assert(magic_run(s, spans, n).2[w] == x);
    }
}

/// In the leading run of comment and blank lines, a magic comment whose
/// key an earlier one set is reported.
pub proof fn law_repeated_magic_comment_reported(s: Seq<u8>, spans: Seq<(usize, usize)>, i: int, j: int, k: Seq<u8>)
    requires
        0 <= i < j < spans.len(),
        forall|m: int| 0 <= m < j ==> #[trigger] magic_line_key(line_at(s, spans, m)) is Some,
        magic_line_key(line_at(s, spans, i)) == Some(Some(k)),
        magic_line_key(line_at(s, spans, j)) == Some(Some(k)),
    ensures
        magic_run(s, spans, spans.len() as int).2.contains(j),
{
    lemma_magic_run_open(s, spans, j);
    lemma_magic_run_keeps_key(s, spans, i, j, k);
    let d = magic_run(s, spans, j).2;
    assert(magic_run(s, spans, j + 1).2[d.len() as int] == j);
    lemma_magic_run_reports_grow(s, spans, j, j + 1, spans.len() as int);
}

proof fn lemma_magic_run_reports_before(s: Seq<u8>, spans: Seq<(usize, usize)>, n: int)
    requires
        0 <= n <= spans.len(),
    ensures
        forall|w: int| 0 <= w < magic_run(s, spans, n).2.len() ==> #[trigger] magic_run(s, spans, n).2[w] < n,
    decreases n,
{
    if n > 0 {
        lemma_magic_run_reports_before(s, spans, n - 1);
        let prev = magic_run(s, spans, n - 1).2;
        let cur = magic_run(s, spans, n).2;
        assert forall|w: int| 0 <= w < cur.len() implies #[trigger] cur[w] < n by {
            if w < prev.len() {
                assert(cur[w] == prev[w]);
            }
        }
    }
}

proof fn lemma_magic_run_keys_from(s: Seq<u8>, spans: Seq<(usize, usize)>, n: int, k: Seq<u8>)
    requires
        0 <= n <= spans.len(),
        magic_run(s, spans, n).0.contains(k),
    ensures
        exists|m: int| 0 <= m < n && #[trigger] magic_line_key(line_at(s, spans, m)) == Some(Some(k)),
    decreases n,
{
    let prev = magic_run(s, spans, n - 1);
    if prev.0.contains(k) {
        lemma_magic_run_keys_from(s, spans, n - 1, k);
        let m = choose|m: int| 0 <= m < n - 1 && #[trigger] magic_line_key(line_at(s, spans, m)) == Some(Some(k));
        assert(magic_line_key(line_at(s, spans, m)) == Some(Some(k)));
    } else {
        let cur = magic_run(s, spans, n).0;
        let w = choose|w: int| 0 <= w < cur.len() && cur[w] == k;
        assert(cur == prev.0.push(k));
        assert(magic_line_key(line_at(s, spans, n - 1)) == Some(Some(k)));
    }
}

proof fn lemma_first_key_not_reported(s: Seq<u8>, spans: Seq<(usize, usize)>, i: int, n: int, k: Seq<u8>)
    requires
        0 <= i < spans.len(),
        0 <= n <= spans.len(),
        magic_line_key(line_at(s, spans, i)) == Some(Some(k)),
        forall|m: int| 0 <= m < i ==> #[trigger] magic_line_key(line_at(s, spans, m)) != Some(Some(k)),
    ensures
        !magic_run(s, spans, n).2.contains(i),
    decreases n,
{
    if n > 0 {
        lemma_first_key_not_reported(s, spans, i, n - 1, k);
        let prev = magic_run(s, spans, n - 1);
        let cur = magic_run(s, spans, n);
        if cur.2.contains(i) {
            let w = choose|w: int| 0 <= w < cur.2.len() && cur.2[w] == i;
            if w < prev.2.len() && !prev.1 {
                if cur.2 == prev.2.push(n - 1) {
                    assert(cur.2[w] == prev.2[w]);
                }
            }
            if n - 1 == i && !prev.1 && cur.2 == prev.2.push(i) {
                lemma_magic_run_keys_from(s, spans, n - 1, k);
            }
            lemma_magic_run_reports_before(s, spans, n - 1);
        }
    }
}

/// The first line that sets a magic key is never reported.
pub proof fn law_first_magic_comment_not_reported(s: Seq<u8>, spans: Seq<(usize, usize)>, i: int, k: Seq<u8>)
    requires
        0 <= i < spans.len(),
        magic_line_key(line_at(s, spans, i)) == Some(Some(k)),
        forall|m: int| 0 <= m < i ==> #[trigger] magic_line_key(line_at(s, spans, m)) != Some(Some(k)),
    ensures
        !magic_run(s, spans, spans.len() as int).2.contains(i),
{
    lemma_first_key_not_reported(s, spans, i, spans.len() as int, k);
}


/// The magic comment keys: `frozen_string_literal`, `encoding`,
/// `warn_indent` and `shareable_constant_value` (each also with hyphens,
/// and `coding` for `encoding`), and `typed`.
pub proof fn law_magic_keys_listed(k: Seq<u8>)
    ensures
        is_magic_key(k) <==> (k == "frozen_string_literal".spec_bytes() || k == "frozen-string-literal".spec_bytes() || k == "encoding".spec_bytes() || k == "coding".spec_bytes() || k == "warn_indent".spec_bytes() || k == "warn-indent".spec_bytes() || k == "shareable_constant_value".spec_bytes() || k == "shareable-constant-value".spec_bytes() || k == "typed".spec_bytes()),
{
}


/// Spellings of one magic comment share a key: `coding` is `encoding`,
/// and the hyphenated `frozen-string-literal`, `warn-indent` and
/// `shareable-constant-value` are their underscored forms; every other
/// key is its own.
pub proof fn law_canonical_magic_keys(k: Seq<u8>)
    ensures
        canonical_key("coding".spec_bytes()) == "encoding".spec_bytes(),
        canonical_key("frozen-string-literal".spec_bytes()) == "frozen_string_literal".spec_bytes(),
        canonical_key("warn-indent".spec_bytes()) == "warn_indent".spec_bytes(),
        canonical_key("shareable-constant-value".spec_bytes()) == "shareable_constant_value".spec_bytes(),
        !(k == "coding".spec_bytes() || k == "frozen-string-literal".spec_bytes() || k == "warn-indent".spec_bytes() || k == "shareable-constant-value".spec_bytes()) ==> canonical_key(k) == k,
{
    reveal_strlit("coding");
    vstd::string::is_ascii_spec_bytes("coding");
    reveal_strlit("frozen-string-literal");
    vstd::string::is_ascii_spec_bytes("frozen-string-literal");
    reveal_strlit("warn-indent");
    vstd::string::is_ascii_spec_bytes("warn-indent");
    reveal_strlit("shareable-constant-value");
    vstd::string::is_ascii_spec_bytes("shareable-constant-value");
}

} // verus!
