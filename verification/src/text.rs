//! Byte classification and line arithmetic shared by the cops.
use vstd::prelude::*;

verus! {

pub const NEWLINE: u8 = 0x0a;
pub const CARRIAGE_RETURN: u8 = 0x0d;
pub const SPACE: u8 = 0x20;
pub const TAB: u8 = 0x09;
pub const HASH: u8 = 0x23;
pub const UNDERSCORE: u8 = 0x5f;

/// A space or a tab.
pub open spec fn spec_is_blank(b: u8) -> bool {
    b == SPACE || b == TAB
}

/// ASCII whitespace as Rust's `u8::is_ascii_whitespace` defines it:
/// space, tab, line feed, form feed and carriage return.
pub open spec fn spec_is_ascii_whitespace(b: u8) -> bool {
    b == SPACE || b == TAB || b == NEWLINE || b == 0x0cu8 || b == CARRIAGE_RETURN
}

pub open spec fn spec_is_ascii_digit(b: u8) -> bool {
    0x30u8 <= b <= 0x39u8
}

pub open spec fn spec_is_ascii_alpha(b: u8) -> bool {
    (0x41u8 <= b <= 0x5au8) || (0x61u8 <= b <= 0x7au8)
}

pub open spec fn spec_is_ascii_alnum(b: u8) -> bool {
    spec_is_ascii_alpha(b) || spec_is_ascii_digit(b)
}

/// A byte that can continue a Ruby identifier.
pub open spec fn spec_is_word_byte(b: u8) -> bool {
    spec_is_ascii_alnum(b) || b == UNDERSCORE
}

pub fn is_blank(b: u8) -> (r: bool)
    ensures
        r == spec_is_blank(b),
{
    b == SPACE || b == TAB
}

pub fn is_ascii_whitespace(b: u8) -> (r: bool)
    ensures
        r == spec_is_ascii_whitespace(b),
{
    b == SPACE || b == TAB || b == NEWLINE || b == 0x0c || b == CARRIAGE_RETURN
}

pub fn is_ascii_digit(b: u8) -> (r: bool)
    ensures
        r == spec_is_ascii_digit(b),
{
    0x30 <= b && b <= 0x39
}

pub fn is_ascii_alpha(b: u8) -> (r: bool)
    ensures
        r == spec_is_ascii_alpha(b),
{
    (0x41 <= b && b <= 0x5a) || (0x61 <= b && b <= 0x7a)
}

pub fn is_ascii_alnum(b: u8) -> (r: bool)
    ensures
        r == spec_is_ascii_alnum(b),
{
    is_ascii_alpha(b) || is_ascii_digit(b)
}

/// The spans `[start, end)` of the lines of `s`, split at each line feed
/// (the line feed belongs to no span): a text with `n` line feeds has
/// `n + 1` lines, the last one possibly empty.
pub open spec fn is_line_split(s: Seq<u8>, spans: Seq<(usize, usize)>) -> bool {
    &&& spans.len() >= 1
    &&& spans[0].0 == 0
    &&& spans.last().1 == s.len()
    &&& forall|k: int| 0 <= k < spans.len() ==> #[trigger] spans[k].0 <= spans[k].1 <= s.len()
    &&& forall|k: int|
        0 <= k < spans.len() - 1 ==> s[#[trigger] spans[k].1 as int] == NEWLINE && spans[k
            + 1].0 == spans[k].1 + 1
    &&& forall|k: int, j: int|
        #![trigger spans[k], s[j]]
        0 <= k < spans.len() && spans[k].0 <= j < spans[k].1 ==> s[j] != NEWLINE
}

/// Splits `s` into line spans.
pub fn line_spans(s: &[u8]) -> (spans: Vec<(usize, usize)>)
    ensures
        is_line_split(s@, spans@),
{
    let mut spans: Vec<(usize, usize)> = Vec::new();
    let mut start: usize = 0;
    let mut i: usize = 0;
    while i < s.len()
        invariant
            start <= i <= s.len(),
            spans@.len() >= 1 ==> spans@[0].0 == 0,
            spans@.len() == 0 ==> start == 0,
            spans@.len() >= 1 ==> start == spans@.last().1 + 1 && s@[spans@.last().1 as int] == NEWLINE,
            forall|k: int| 0 <= k < spans@.len() ==> #[trigger] spans@[k].0 <= spans@[k].1 < s@.len(),
            forall|k: int|
                0 <= k < spans@.len() - 1 ==> s@[#[trigger] spans@[k].1 as int] == NEWLINE
                && spans@[k + 1].0 == spans@[k].1 + 1,
            forall|k: int, j: int|
                #![trigger spans@[k], s@[j]]
                0 <= k < spans@.len() && spans@[k].0 <= j < spans@[k].1 ==> s@[j] != NEWLINE,
            forall|j: int| start <= j < i ==> s@[j] != NEWLINE,
        decreases s.len() - i,
    {
        if s[i] == NEWLINE {
            spans.push((start, i));
            start = i + 1;
        }
        i = i + 1;
    }
    spans.push((start, s.len()));
    spans
}

} // verus!

verus! {

/// There is exactly one line split of a text.
pub proof fn lemma_line_split_unique(s: Seq<u8>, a: Seq<(usize, usize)>, b: Seq<(usize, usize)>)
    requires
        is_line_split(s, a),
        is_line_split(s, b),
    ensures
        a == b,
{
    let n = if a.len() < b.len() { a.len() } else { b.len() };
    assert forall|k: int| 0 <= k < n implies a[k] == b[k] by {
        lemma_line_split_prefix_agree(s, a, b, k);
    }
    if a.len() < b.len() {
        let m = a.len() - 1;
        assert(a[m] == b[m]);
        assert(b[m + 1].0 == b[m].1 + 1);
        assert(b[m + 1].0 <= s.len());
    } else if b.len() < a.len() {
        let m = b.len() - 1;
        assert(a[m] == b[m]);
        assert(a[m + 1].0 == a[m].1 + 1);
        assert(a[m + 1].0 <= s.len());
    }
    assert(a =~= b);
}

proof fn lemma_line_split_prefix_agree(s: Seq<u8>, a: Seq<(usize, usize)>, b: Seq<(usize, usize)>, k: int)
    requires
        is_line_split(s, a),
        is_line_split(s, b),
        0 <= k < a.len(),
        k < b.len(),
    ensures
        a[k] == b[k],
    decreases k,
{
    if k > 0 {
        lemma_line_split_prefix_agree(s, a, b, k - 1);
    }
    assert(a[k].0 == b[k].0);
    if a[k].1 < b[k].1 {
        let j = a[k].1 as int;
        assert(b[k].0 <= j < b[k].1);
        assert(s[j] != NEWLINE);
        if k < a.len() - 1 {
            assert(s[j] == NEWLINE);
        }
    } else if b[k].1 < a[k].1 {
        let j = b[k].1 as int;
        assert(a[k].0 <= j < a[k].1);
        assert(s[j] != NEWLINE);
        if k < b.len() - 1 {
            assert(s[j] == NEWLINE);
        }
    }
}

} // verus!

verus! {

/// Whether two byte strings are equal.
pub fn bytes_eq(a: &[u8], b: &[u8]) -> (r: bool)
    ensures
        r == (a@ == b@),
{
    if a.len() != b.len() {
        return false;
    }
    let mut i: usize = 0;
    while i < a.len()
        invariant
            a@.len() == b@.len(),
            i <= a@.len(),
            forall|j: int| 0 <= j < i ==> a@[j] == b@[j],
        decreases a@.len() - i,
    {
        if a[i] != b[i] {
            return false;
        }
        i = i + 1;
    }
    assert(a@ =~= b@);
    true
}

/// The views of a sequence of byte vectors.
pub open spec fn views(v: Seq<Vec<u8>>) -> Seq<Seq<u8>> {
    v.map_values(|x: Vec<u8>| x@)
}

/// Whether `key` is among `list`.
pub fn contains_bytes(list: &Vec<Vec<u8>>, key: &[u8]) -> (r: bool)
    ensures
        r == views(list@).contains(key@),
{
    let mut i: usize = 0;
    while i < list.len()
        invariant
            i <= list@.len(),
            forall|j: int| 0 <= j < i ==> list@[j]@ != key@,
        decreases list@.len() - i,
    {
        if bytes_eq(list[i].as_slice(), key) {
            assert(views(list@)[i as int] == key@);
            return true;
        }
        i = i + 1;
    }
    assert forall|j: int| 0 <= j < views(list@).len() implies views(list@)[j] != key@ by {
        assert(views(list@)[j] == list@[j]@);
    }
    false
}

/// The end of the run of spaces and tabs that starts at `i`.
pub open spec fn blank_run_end(s: Seq<u8>, i: int) -> int
    decreases s.len() - i,
{
    if 0 <= i < s.len() && spec_is_blank(s[i]) {
        blank_run_end(s, i + 1)
    } else {
        i
    }
}

pub proof fn lemma_blank_run_end_bounds(s: Seq<u8>, i: int)
    requires
        0 <= i <= s.len(),
    ensures
        i <= blank_run_end(s, i) <= s.len(),
        forall|j: int| i <= j < blank_run_end(s, i) ==> spec_is_blank(#[trigger] s[j]),
        blank_run_end(s, i) < s.len() ==> !spec_is_blank(s[blank_run_end(s, i)]),
    decreases s.len() - i,
{
    if i < s.len() && spec_is_blank(s[i]) {
        lemma_blank_run_end_bounds(s, i + 1);
    }
}

/// The end of the run of spaces and tabs in `s` that starts at `i`.
pub fn skip_blanks(s: &[u8], i: usize) -> (r: usize)
    requires
        i <= s@.len(),
    ensures
        r == blank_run_end(s@, i as int),
        i <= r <= s@.len(),
{
    proof {
        lemma_blank_run_end_bounds(s@, i as int);
    }
    let mut j = i;
    while j < s.len() && is_blank(s[j])
        invariant
            i <= j <= s@.len(),
            blank_run_end(s@, i as int) == blank_run_end(s@, j as int),
        decreases s@.len() - j,
    {
        j = j + 1;
    }
    j
}

} // verus!

verus! {

/// The offset where the line holding offset `i` starts: just after the
/// last line feed before `i`, or 0.
pub open spec fn line_start(s: Seq<u8>, i: int) -> int
    decreases i,
{
    if i <= 0 {
        0
    } else if s[i - 1] == NEWLINE {
        i
    } else {
        line_start(s, i - 1)
    }
}

/// The number of line feeds among the first `i` bytes.
pub open spec fn newline_count(s: Seq<u8>, i: int) -> nat
    decreases i,
{
    if i <= 0 {
        0
    } else {
        newline_count(s, i - 1) + if s[i - 1] == NEWLINE {
            1nat
        } else {
            0nat
        }
    }
}

/// The 1-based line and 0-based byte column of offset `i`.
pub open spec fn spec_line_col(s: Seq<u8>, i: int) -> (int, int) {
    ((newline_count(s, i) + 1) as int, i - line_start(s, i))
}

pub proof fn lemma_line_start_bounds(s: Seq<u8>, i: int)
    requires
        0 <= i <= s.len(),
    ensures
        0 <= line_start(s, i) <= i,
        newline_count(s, i) <= i,
        forall|j: int| line_start(s, i) <= j < i ==> s[j] != NEWLINE,
    decreases i,
{
    if i > 0 {
        lemma_line_start_bounds(s, i - 1);
    }
}

/// The 1-based line and 0-based byte column of `offset` in `s`.
pub fn offset_to_line_col(s: &[u8], offset: usize) -> (r: (usize, usize))
    requires
        offset <= s@.len() < usize::MAX,
    ensures
        r.0 == spec_line_col(s@, offset as int).0,
        r.1 == spec_line_col(s@, offset as int).1,
{
    let mut k: usize = 0;
    let mut count: usize = 0;
    let mut start: usize = 0;
    while k < offset
        invariant
            k <= offset <= s@.len(),
            count == newline_count(s@, k as int),
            start == line_start(s@, k as int),
            count <= k,
        decreases offset - k,
    {
        if s[k] == NEWLINE {
            count = count + 1;
            start = k + 1;
        }
        k = k + 1;
    }
    proof {
        lemma_line_start_bounds(s@, offset as int);
    }
    (count + 1, offset - start)
}

} // verus!

verus! {

/// Going back from `i`, but not below `lo`, the start of the run of spaces
/// and tabs that ends at `i`.
pub open spec fn blank_run_back(s: Seq<u8>, i: int, lo: int) -> int
    decreases i - lo,
{
    if i > lo && spec_is_blank(s[i - 1]) {
        blank_run_back(s, i - 1, lo)
    } else {
        i
    }
}

pub proof fn lemma_blank_run_back_bounds(s: Seq<u8>, i: int, lo: int)
    requires
        0 <= lo <= i <= s.len(),
    ensures
        lo <= blank_run_back(s, i, lo) <= i,
        forall|j: int| blank_run_back(s, i, lo) <= j < i ==> spec_is_blank(#[trigger] s[j]),
        blank_run_back(s, i, lo) > lo && blank_run_back(s, i, lo) > 0 ==> !spec_is_blank(
            s[blank_run_back(s, i, lo) - 1],
        ),
    decreases i - lo,
{
    if i > lo && spec_is_blank(s[i - 1]) {
        lemma_blank_run_back_bounds(s, i - 1, lo);
    }
}

/// The start of the run of spaces and tabs that ends at `i`, not going
/// below `lo`.
pub fn skip_blanks_back(s: &[u8], i: usize, lo: usize) -> (r: usize)
    requires
        lo <= i <= s@.len(),
    ensures
        r == blank_run_back(s@, i as int, lo as int),
        lo <= r <= i,
{
    proof {
        lemma_blank_run_back_bounds(s@, i as int, lo as int);
    }
    let mut j = i;
    while j > lo && is_blank(s[j - 1])
        invariant
            lo <= j <= i <= s@.len(),
            blank_run_back(s@, j as int, lo as int) == blank_run_back(s@, i as int, lo as int),
        decreases j,
    {
        j = j - 1;
    }
    j
}

/// Whether a space or tab occurs in `s[from..to)`.
pub open spec fn has_blank(s: Seq<u8>, from: int, to: int) -> bool {
    exists|j: int| from <= j < to && spec_is_blank(#[trigger] s[j])
}

pub fn contains_blank(s: &[u8], from: usize, to: usize) -> (r: bool)
    requires
        from <= to <= s@.len(),
    ensures
        r == has_blank(s@, from as int, to as int),
{
    let mut k = from;
    while k < to
        invariant
            from <= k <= to <= s@.len(),
            forall|j: int| from <= j < k ==> !spec_is_blank(#[trigger] s@[j]),
        decreases to - k,
    {
        if is_blank(s[k]) {
            return true;
        }
        k = k + 1;
    }
    false
}

/// The start of the line that holds offset `i`.
pub fn line_start_of(s: &[u8], i: usize) -> (r: usize)
    requires
        i <= s@.len(),
    ensures
        r == line_start(s@, i as int),
        r <= i,
{
    proof {
        lemma_line_start_bounds(s@, i as int);
    }
    let mut j = i;
    while j > 0 && s[j - 1] != NEWLINE
        invariant
            j <= i <= s@.len(),
            line_start(s@, j as int) == line_start(s@, i as int),
        decreases j,
    {
        j = j - 1;
    }
    j
}

} // verus!

verus! {

pub open spec fn is_cont(b: u8) -> bool {
    0x80u8 <= b <= 0xbfu8
}

/// The length of the well-formed UTF-8 sequence that starts at `i`, or 0
/// when none does (the table of well-formed byte sequences of the Unicode
/// standard).
pub open spec fn utf8_seq_len(s: Seq<u8>, i: int) -> int {
    let n = s.len() as int;
    let b = s[i];
    if b <= 0x7fu8 {
        1
    } else if 0xc2u8 <= b <= 0xdfu8 {
        if i + 1 < n && is_cont(s[i + 1]) { 2 } else { 0 }
    } else if 0xe0u8 <= b <= 0xefu8 {
        let lo: u8 = if b == 0xe0u8 { 0xa0u8 } else { 0x80u8 };
        let hi: u8 = if b == 0xedu8 { 0x9fu8 } else { 0xbfu8 };
        if n - i > 2 && lo <= s[i + 1] <= hi && is_cont(s[i + 2]) { 3 } else { 0 }
    } else if 0xf0u8 <= b <= 0xf4u8 {
        let lo: u8 = if b == 0xf0u8 { 0x90u8 } else { 0x80u8 };
        let hi: u8 = if b == 0xf4u8 { 0x8fu8 } else { 0xbfu8 };
        if n - i > 3 && lo <= s[i + 1] <= hi && is_cont(s[i + 2]) && is_cont(s[i + 3]) { 4 } else { 0 }
    } else {
        0
    }
}

/// Whether `s[i..]` is well-formed UTF-8.
pub open spec fn utf8_from(s: Seq<u8>, i: int) -> bool
    decreases s.len() - i,
{
    if i >= s.len() {
        true
    } else {
        let l = utf8_seq_len(s, i);
        l > 0 && utf8_from(s, i + l)
    }
}

pub open spec fn is_utf8(s: Seq<u8>) -> bool {
    utf8_from(s, 0)
}

/// `b` where it is well-formed UTF-8, else `fallback`.
pub open spec fn utf8_or(b: Seq<u8>, fallback: Seq<u8>) -> Seq<u8> {
    if is_utf8(b) { b } else { fallback }
}

fn utf8_len_at(s: &[u8], i: usize) -> (r: usize)
    requires
        i < s@.len(),
    ensures
        r == utf8_seq_len(s@, i as int),
{
    let n = s.len();
    let b = s[i];
    if b <= 0x7f {
        1
    } else if 0xc2 <= b && b <= 0xdf {
        if n - i > 1 && 0x80 <= s[i + 1] && s[i + 1] <= 0xbf { 2 } else { 0 }
    } else if 0xe0 <= b && b <= 0xef {
        let lo: u8 = if b == 0xe0 { 0xa0 } else { 0x80 };
        let hi: u8 = if b == 0xed { 0x9f } else { 0xbf };
        if n - i > 2 && lo <= s[i + 1] && s[i + 1] <= hi && 0x80 <= s[i + 2] && s[i + 2] <= 0xbf { 3 } else { 0 }
    } else if 0xf0 <= b && b <= 0xf4 {
        let lo: u8 = if b == 0xf0 { 0x90 } else { 0x80 };
        let hi: u8 = if b == 0xf4 { 0x8f } else { 0xbf };
        if n - i > 3 && lo <= s[i + 1] && s[i + 1] <= hi && 0x80 <= s[i + 2] && s[i + 2] <= 0xbf
            && 0x80 <= s[i + 3] && s[i + 3] <= 0xbf { 4 } else { 0 }
    } else {
        0
    }
}

/// Whether `s` is well-formed UTF-8.
pub fn utf8_valid(s: &[u8]) -> (r: bool)
    ensures
        r == is_utf8(s@),
{
    let mut i: usize = 0;
    while i < s.len()
        invariant
            i <= s@.len(),
            utf8_from(s@, 0) == utf8_from(s@, i as int),
        decreases s@.len() - i,
    {
        let l = utf8_len_at(s, i);
        if l == 0 {
            return false;
        }
        if l > s.len() - i {
            assert(utf8_seq_len(s@, i as int) <= s@.len() - i);
        }
        i = i + l;
    }
    true
}

} // verus!

verus! {

pub proof fn lemma_newline_count_flat(s: Seq<u8>, a: int, b: int)
    requires
        0 <= a <= b <= s.len(),
        forall|j: int| a <= j < b ==> s[j] != NEWLINE,
    ensures
        newline_count(s, b) == newline_count(s, a),
    decreases b - a,
{
    if b > a {
        lemma_newline_count_flat(s, a, b - 1);
    }
}

pub proof fn lemma_newline_count_monotone(s: Seq<u8>, a: int, b: int)
    requires
        0 <= a <= b <= s.len(),
    ensures
        newline_count(s, a) <= newline_count(s, b),
    decreases b - a,
{
    if b > a {
        lemma_newline_count_monotone(s, a, b - 1);
    }
}

/// A text with a line split into `n` lines has `n - 1` line feeds, and the
/// line of any offset (as `spec_line_col` counts it) is one of the `n`.
pub proof fn lemma_line_split_count(s: Seq<u8>, spans: Seq<(usize, usize)>, k: int)
    requires
        is_line_split(s, spans),
        0 <= k < spans.len(),
    ensures
        newline_count(s, spans[k].0 as int) == k,
        newline_count(s, spans[k].1 as int) == k,
    decreases k,
{
    if k > 0 {
        lemma_line_split_count(s, spans, k - 1);
        assert(s[spans[k - 1].1 as int] == NEWLINE);
        assert(spans[k].0 == spans[k - 1].1 + 1);
    }
    assert forall|j: int| spans[k].0 <= j < spans[k].1 implies s[j] != NEWLINE by {
        assert(spans[k].0 <= j < spans[k].1);
    }
    lemma_newline_count_flat(s, spans[k].0 as int, spans[k].1 as int);
}

pub proof fn lemma_line_in_split(s: Seq<u8>, spans: Seq<(usize, usize)>, o: int)
    requires
        is_line_split(s, spans),
        0 <= o <= s.len(),
    ensures
        1 <= spec_line_col(s, o).0 <= spans.len(),
{
    lemma_line_split_count(s, spans, spans.len() - 1);
    lemma_newline_count_monotone(s, o, s.len() as int);
}

} // verus!
