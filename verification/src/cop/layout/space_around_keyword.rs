//! Layout/SpaceAroundKeyword: a keyword needs a space before and after it.
use vstd::prelude::*;
use vstd::string::StringSliceAdditionalSpecFns;
use crate::ascii::{
    AMP, AT, BACKSLASH, BANG, COLON, COMMA, DOLLAR, DOT, EQUALS, GT, LBRACE, LBRACKET, LPAREN, LT,
    MINUS, PIPE, PLUS, QUESTION, RBRACE, RBRACKET, RPAREN, SEMICOLON, SLASH, STAR,
};
use crate::bytes::append;
use crate::code_map::CodeMap;
use crate::diagnostic::{
    appends_events, event, event_if, lemma_appends_concat, lemma_appends_nothing, message,
    push_event_msg, reports_events, Correction, Diagnostic, Event,
};
use crate::text::{
    bytes_eq, is_ascii_alpha, is_ascii_alnum, is_ascii_digit, spec_is_ascii_alpha,
    spec_is_ascii_alnum, spec_is_ascii_digit, spec_is_word_byte, CARRIAGE_RETURN, HASH, NEWLINE,
    SPACE, TAB, UNDERSCORE,
};

verus! {

pub struct SpaceAroundKeyword;

/// Bytes before a keyword that never ask for a space: whitespace and the
/// openers, separators and operators after which a keyword may follow.
pub open spec fn plain_accepted_before(ch: u8) -> bool {
    ch == SPACE || ch == TAB || ch == NEWLINE || ch == CARRIAGE_RETURN || ch == LPAREN || ch == PIPE
        || ch == LBRACE || ch == LBRACKET || ch == SEMICOLON || ch == COMMA || ch == STAR
        || ch == EQUALS || ch == PLUS || ch == MINUS || ch == SLASH || ch == LT || ch == AMP
        || ch == DOT
}

/// Whether a keyword that starts at `i` needs no space before it. `>` is
/// accepted unless it ends the lambda arrow `->`; `!` and `?` only as unary
/// operators, not as the last byte of a method name.
pub open spec fn spec_accepted_before(s: Seq<u8>, i: int) -> bool {
    if i == 0 {
        true
    } else {
        let ch = s[i - 1];
        if plain_accepted_before(ch) {
            true
        } else if ch == GT {
            !(i >= 2 && s[i - 2] == MINUS)
        } else if ch == BANG || ch == QUESTION {
            !(i >= 2 && spec_is_word_byte(s[i - 2]))
        } else {
            false
        }
    }
}

/// Bytes after a keyword that need no space between them and the keyword.
pub open spec fn spec_accepted_after(ch: u8) -> bool {
    ch == SPACE || ch == TAB || ch == NEWLINE || ch == CARRIAGE_RETURN || ch == SEMICOLON
        || ch == COMMA || ch == HASH || ch == BACKSLASH || ch == RPAREN || ch == RBRACE
        || ch == RBRACKET || ch == DOT
}

/// Whether the keyword `kw` that ends at `kw_end` ends a word: the source
/// ends there, the keyword ends in `?`, or the next byte cannot continue an
/// identifier.
pub open spec fn spec_is_word_end(s: Seq<u8>, kw: Seq<u8>, kw_end: int) -> bool {
    kw_end >= s.len() || (kw.len() > 0 && kw.last() == QUESTION) || !spec_is_word_byte(s[kw_end])
}

/// The start of the run of digits that ends just before `j`.
pub open spec fn digit_run_start(s: Seq<u8>, j: int) -> int
    decreases j,
{
    if j > 0 && spec_is_ascii_digit(s[j - 1]) {
        digit_run_start(s, j - 1)
    } else {
        j
    }
}

/// Whether the byte before `i` belongs to an identifier or a variable name,
/// so that a keyword-like word at `i` is no keyword: a letter, `_`, a
/// sigil `@` or `$`, or digits that follow a letter or `_`.
pub open spec fn spec_is_word_before(s: Seq<u8>, i: int) -> bool {
    if i == 0 {
        false
    } else {
        let ch = s[i - 1];
        if spec_is_ascii_alpha(ch) || ch == UNDERSCORE || ch == AT || ch == DOLLAR {
            true
        } else if spec_is_ascii_digit(ch) {
            let j = digit_run_start(s, i - 1);
            j > 0 && (spec_is_ascii_alpha(s[j - 1]) || s[j - 1] == UNDERSCORE)
        } else {
            false
        }
    }
}

pub open spec fn is_space_or_line_break(b: u8) -> bool {
    b == SPACE || b == TAB || b == NEWLINE || b == CARRIAGE_RETURN
}

/// Going back from `j`, the first position that is 0 or holds no space,
/// tab or line break.
pub open spec fn skip_space_back(s: Seq<u8>, j: int) -> int
    decreases j,
{
    if j > 0 && is_space_or_line_break(s[j]) {
        skip_space_back(s, j - 1)
    } else {
        j
    }
}

/// Whether the keyword at `i` is called as a method: the code before it,
/// across whitespace, is a `.` or `::` that is itself code.
pub open spec fn spec_is_method_call(s: Seq<u8>, i: int, map: CodeMap) -> bool {
    if i == 0 {
        false
    } else {
        let j = skip_space_back(s, i - 1);
        if s[j] == DOT {
            map.spec_is_code(j)
        } else if s[j] == COLON && j > 0 && s[j - 1] == COLON {
            map.spec_is_code(j)
        } else {
            false
        }
    }
}

pub open spec fn spec_preceded_by_def(s: Seq<u8>, i: int) -> bool {
    i >= 4 && s.subrange(i - 4, i) == "def ".spec_bytes()
}

/// Whether the keyword at `i` is the name of a symbol `:kw`: a single `:`
/// before it that does not follow `)`, `]` or `}` (there it is the else
/// branch of a ternary).
pub open spec fn spec_is_symbol_literal(s: Seq<u8>, i: int) -> bool {
    i > 0 && s[i - 1] == COLON && !(i >= 2 && s[i - 2] == COLON) && !(i >= 2 && (s[i - 2]
        == RPAREN || s[i - 2] == RBRACKET || s[i - 2] == RBRACE))
}

/// The keywords that may be followed directly by `(`.
pub open spec fn spec_accepts_left_paren(kw: Seq<u8>) -> bool {
    kw == "break".spec_bytes() || kw == "defined?".spec_bytes() || kw == "next".spec_bytes()
        || kw == "not".spec_bytes() || kw == "rescue".spec_bytes() || kw == "super".spec_bytes()
        || kw == "yield".spec_bytes()
}

/// The keywords that may be followed directly by `[`.
pub open spec fn spec_accepts_left_bracket(kw: Seq<u8>) -> bool {
    kw == "super".spec_bytes() || kw == "yield".spec_bytes()
}

/// Whether a keyword that starts at `i` needs no space before it.
pub fn accepted_before(bytes: &[u8], i: usize) -> (r: bool)
    requires
        i <= bytes@.len(),
    ensures
        r == spec_accepted_before(bytes@, i as int),
{
    if i == 0 {
        return true;
    }
    let ch = bytes[i - 1];
    if ch == SPACE || ch == TAB || ch == NEWLINE || ch == CARRIAGE_RETURN || ch == LPAREN
        || ch == PIPE || ch == LBRACE || ch == LBRACKET || ch == SEMICOLON || ch == COMMA
        || ch == STAR || ch == EQUALS || ch == PLUS || ch == MINUS || ch == SLASH || ch == LT
        || ch == AMP || ch == DOT {
        return true;
    }
    if ch == GT {
        return !(i >= 2 && bytes[i - 2] == MINUS);
    }
    if ch == BANG || ch == QUESTION {
        return !(i >= 2 && (is_ascii_alnum(bytes[i - 2]) || bytes[i - 2] == UNDERSCORE));
    }
    false
}

/// Whether the byte after a keyword needs no space before it.
pub fn accepted_after(ch: u8) -> (r: bool)
    ensures
        r == spec_accepted_after(ch),
{
    ch == SPACE || ch == TAB || ch == NEWLINE || ch == CARRIAGE_RETURN || ch == SEMICOLON
        || ch == COMMA || ch == HASH || ch == BACKSLASH || ch == RPAREN || ch == RBRACE
        || ch == RBRACKET || ch == DOT
}

/// Whether the keyword `kw` ending at `kw_end` ends a word.
pub fn is_word_end(bytes: &[u8], kw: &[u8], kw_end: usize) -> (r: bool)
    ensures
        r == spec_is_word_end(bytes@, kw@, kw_end as int),
{
    if kw_end >= bytes.len() {
        return true;
    }
    if kw.len() > 0 && kw[kw.len() - 1] == QUESTION {
        return true;
    }
    let ch = bytes[kw_end];
    !(is_ascii_alnum(ch) || ch == UNDERSCORE)
}

/// Whether the byte before `i` makes a word at `i` part of an identifier.
pub fn is_word_before(bytes: &[u8], i: usize) -> (r: bool)
    requires
        i <= bytes@.len(),
    ensures
        r == spec_is_word_before(bytes@, i as int),
{
    if i == 0 {
        return false;
    }
    let ch = bytes[i - 1];
    if is_ascii_alpha(ch) || ch == UNDERSCORE {
        return true;
    }
    if ch == AT || ch == DOLLAR {
        return true;
    }
    if is_ascii_digit(ch) {
        let mut j = i - 1;
        while j > 0 && is_ascii_digit(bytes[j - 1])
            invariant
                j < i <= bytes@.len(),
                digit_run_start(bytes@, j as int) == digit_run_start(bytes@, i - 1),
            decreases j,
        {
            j = j - 1;
        }
        if j > 0 && (is_ascii_alpha(bytes[j - 1]) || bytes[j - 1] == UNDERSCORE) {
            return true;
        }
    }
    false
}

/// Whether the keyword at `i` is preceded, across whitespace, by a `.` or
/// `::` that is code.
pub fn is_method_call(bytes: &[u8], i: usize, code_map: &CodeMap) -> (r: bool)
    requires
        i <= bytes@.len(),
    ensures
        r == spec_is_method_call(bytes@, i as int, *code_map),
{
    if i == 0 {
        return false;
    }
    let mut j = i - 1;
    while j > 0 && (bytes[j] == SPACE || bytes[j] == TAB || bytes[j] == NEWLINE || bytes[j]
        == CARRIAGE_RETURN)
        invariant
            j < i <= bytes@.len(),
            skip_space_back(bytes@, j as int) == skip_space_back(bytes@, i - 1),
        decreases j,
    {
        j = j - 1;
    }
    if bytes[j] == DOT {
        return code_map.is_code(j);
    }
    if bytes[j] == COLON && j > 0 && bytes[j - 1] == COLON {
        return code_map.is_code(j);
    }
    false
}

/// Whether `def ` comes right before `i`.
pub fn preceded_by_def(bytes: &[u8], i: usize) -> (r: bool)
    requires
        i <= bytes@.len(),
    ensures
        r == spec_preceded_by_def(bytes@, i as int),
{
    if i < 4 {
        return false;
    }
    let d = "def ".as_bytes();
    let r = crate::bytes::bytes_eq_range(bytes, i - 4, i, d);
    r
}

/// Whether the keyword at `i` is written as a symbol `:kw`.
pub fn is_symbol_literal(bytes: &[u8], i: usize) -> (r: bool)
    requires
        i <= bytes@.len(),
    ensures
        r == spec_is_symbol_literal(bytes@, i as int),
{
    if i == 0 {
        return false;
    }
    if bytes[i - 1] != COLON {
        return false;
    }
    if i >= 2 && bytes[i - 2] == COLON {
        return false;
    }
    if i >= 2 && (bytes[i - 2] == RPAREN || bytes[i - 2] == RBRACKET || bytes[i - 2] == RBRACE) {
        return false;
    }
    true
}

/// Whether `kw` may be followed directly by `(`.
pub fn is_accept_left_paren(kw: &[u8]) -> (r: bool)
    ensures
        r == spec_accepts_left_paren(kw@),
{
    bytes_eq(kw, "break".as_bytes()) || bytes_eq(kw, "defined?".as_bytes()) || bytes_eq(
        kw,
        "next".as_bytes(),
    ) || bytes_eq(kw, "not".as_bytes()) || bytes_eq(kw, "rescue".as_bytes()) || bytes_eq(
        kw,
        "super".as_bytes(),
    ) || bytes_eq(kw, "yield".as_bytes())
}

/// Whether `kw` may be followed directly by `[`.
pub fn is_accept_left_bracket(kw: &[u8]) -> (r: bool)
    ensures
        r == spec_accepts_left_bracket(kw@),
{
    bytes_eq(kw, "super".as_bytes()) || bytes_eq(kw, "yield".as_bytes())
}

/// The keywords that may start at a byte, in the order they are tried.
pub open spec fn keyword_candidates(b: u8) -> Seq<Seq<u8>> {
    if b == 0x61u8 {
        seq!["and".spec_bytes()]
    } else if b == 0x62u8 {
        seq!["begin".spec_bytes(), "break".spec_bytes()]
    } else if b == 0x63u8 {
        seq!["case".spec_bytes()]
    } else if b == 0x64u8 {
        seq!["defined?".spec_bytes(), "do".spec_bytes()]
    } else if b == 0x65u8 {
        seq!["else".spec_bytes(), "elsif".spec_bytes(), "end".spec_bytes(), "ensure".spec_bytes()]
    } else if b == 0x69u8 {
        seq!["if".spec_bytes(), "in".spec_bytes()]
    } else if b == 0x6eu8 {
        seq!["next".spec_bytes(), "not".spec_bytes()]
    } else if b == 0x6fu8 {
        seq!["or".spec_bytes()]
    } else if b == 0x72u8 {
        seq!["rescue".spec_bytes(), "return".spec_bytes()]
    } else if b == 0x73u8 {
        seq!["super".spec_bytes()]
    } else if b == 0x74u8 {
        seq!["then".spec_bytes()]
    } else if b == 0x75u8 {
        seq!["unless".spec_bytes(), "until".spec_bytes()]
    } else if b == 0x77u8 {
        seq!["when".spec_bytes(), "while".spec_bytes()]
    } else if b == 0x79u8 {
        seq!["yield".spec_bytes()]
    } else if b == 0x42u8 {
        seq!["BEGIN".spec_bytes()]
    } else if b == 0x45u8 {
        seq!["END".spec_bytes()]
    } else {
        seq![]
    }
}

/// Whether `kw` at `i` is a keyword the cop checks: it stands there as a
/// whole word, in code, and is not a method name, a method call, a symbol,
/// or a position that the parse tree marks as no keyword.
pub open spec fn checked_keyword_at(s: Seq<u8>, map: CodeMap, skip: Seq<usize>, i: int, kw: Seq<u8>) -> bool {
    let kl = kw.len() as int;
    let len = s.len() as int;
    &&& i + kl <= len
    &&& s.subrange(i, i + kl) == kw
    &&& spec_is_word_end(s, kw, i + kl)
    &&& !spec_is_word_before(s, i)
    &&& (map.spec_is_code(i) || (map.spec_is_heredoc_interpolation(i) && !map.spec_is_non_code_in_heredoc_interpolation(i)))
    &&& !spec_is_method_call(s, i, map)
    &&& !spec_preceded_by_def(s, i)
    &&& !spec_is_symbol_literal(s, i)
    &&& !(i + kl < len && (s[i + kl] == BANG || (kw != "defined?".spec_bytes() && s[i + kl] == QUESTION))
        && !(i + kl + 1 < len && s[i + kl + 1] == EQUALS))
    &&& !skip.contains(i as usize)
}

/// Whether no space is needed between `kw` and the byte after it.
pub open spec fn after_accepted(s: Seq<u8>, i: int, kw: Seq<u8>) -> bool {
    let kl = kw.len() as int;
    let a = s[i + kl];
    spec_accepted_after(a) || (a == LPAREN && spec_accepts_left_paren(kw)) || (a == LBRACKET
        && spec_accepts_left_bracket(kw)) || (a == COLON && kw == "super".spec_bytes() && i + kl
        + 1 < s.len() && s[i + kl + 1] == COLON) || (a == AMP && i + kl + 1 < s.len() && s[i + kl
        + 1] == DOT)
}

pub open spec fn before_message(kw: Seq<u8>) -> Seq<u8> {
    "Space before keyword `".spec_bytes() + kw + "` is missing.".spec_bytes()
}

pub open spec fn after_message(kw: Seq<u8>) -> Seq<u8> {
    "Space after keyword `".spec_bytes() + kw + "` is missing.".spec_bytes()
}

/// The events for `kw` at `i`: a missing space before it, then one after
/// it (never after `end`).
pub open spec fn keyword_events(s: Seq<u8>, map: CodeMap, skip: Seq<usize>, i: int, kw: Seq<u8>) -> Seq<Event> {
    if !checked_keyword_at(s, map, skip, i, kw) {
        seq![]
    } else {
        let kl = kw.len() as int;
        event_if(i > 0 && !spec_accepted_before(s, i), event(i, before_message(kw), i, i, " ".spec_bytes()))
            + event_if(
            kw != "end".spec_bytes() && i + kl < s.len() && !after_accepted(s, i, kw),
            event(i, after_message(kw), i + kl, i + kl, " ".spec_bytes()),
        )
    }
}

pub open spec fn candidates_events(s: Seq<u8>, map: CodeMap, skip: Seq<usize>, i: int, cands: Seq<Seq<u8>>, n: int) -> Seq<Event>
    decreases n,
{
    if n <= 0 {
        seq![]
    } else {
        candidates_events(s, map, skip, i, cands, n - 1) + keyword_events(s, map, skip, i, cands[n - 1])
    }
}

/// The events of the keywords that start among the first `n` bytes.
pub open spec fn keyword_scan(s: Seq<u8>, map: CodeMap, skip: Seq<usize>, n: int) -> Seq<Event>
    decreases n,
{
    if n <= 0 {
        seq![]
    } else {
        let c = keyword_candidates(s[n - 1]);
        keyword_scan(s, map, skip, n - 1) + candidates_events(s, map, skip, n - 1, c, c.len() as int)
    }
}

fn candidates_for(b: u8) -> (r: Vec<&'static str>)
    ensures
        r@.len() == keyword_candidates(b).len(),
        forall|k: int| 0 <= k < r@.len() ==> (#[trigger] r@[k]).spec_bytes() == keyword_candidates(b)[k],
{
    if b == 0x61 {
        vec!["and"]
    } else if b == 0x62 {
        vec!["begin", "break"]
    } else if b == 0x63 {
        vec!["case"]
    } else if b == 0x64 {
        vec!["defined?", "do"]
    } else if b == 0x65 {
        vec!["else", "elsif", "end", "ensure"]
    } else if b == 0x69 {
        vec!["if", "in"]
    } else if b == 0x6e {
        vec!["next", "not"]
    } else if b == 0x6f {
        vec!["or"]
    } else if b == 0x72 {
        vec!["rescue", "return"]
    } else if b == 0x73 {
        vec!["super"]
    } else if b == 0x74 {
        vec!["then"]
    } else if b == 0x75 {
        vec!["unless", "until"]
    } else if b == 0x77 {
        vec!["when", "while"]
    } else if b == 0x79 {
        vec!["yield"]
    } else if b == 0x42 {
        vec!["BEGIN"]
    } else if b == 0x45 {
        vec!["END"]
    } else {
        vec![]
    }
}

fn keyword_message(prefix: &str, kw: &[u8]) -> (r: Vec<u8>)
    ensures
        r@ == prefix.spec_bytes() + kw@ + "` is missing.".spec_bytes(),
{
    let mut m = message(prefix);
    append(&mut m, kw);
    append(&mut m, "` is missing.".as_bytes());
    m
}

fn check_keyword(
    source: &[u8],
    code_map: &CodeMap,
    skip: &[usize],
    i: usize,
    kw: &[u8],
    diags: &mut Vec<Diagnostic>,
    corrs: &mut Vec<Correction>,
    autocorrect: bool,
)
    requires
        source@.len() < usize::MAX,
        i < source@.len(),
    ensures
        appends_events(source@, keyword_events(source@, *code_map, skip@, i as int, kw@), autocorrect, old(diags)@, old(corrs)@, final(diags)@, final(corrs)@),
{
    proof {
        lemma_appends_nothing(source@, autocorrect, diags@, corrs@);
    }
    let len = source.len();
    let kl = kw.len();
    if kl > len - i {
        return ;
    }
    if !crate::bytes::bytes_eq_range(source, i, i + kl, kw) {
        return ;
    }
    if !is_word_end(source, kw, i + kl) {
        return ;
    }
    if is_word_before(source, i) {
        return ;
    }
    if !code_map.is_code(i) && (!code_map.is_heredoc_interpolation(i) || code_map.is_non_code_in_heredoc_interpolation(i)) {
        return ;
    }
    if is_method_call(source, i, code_map) {
        return ;
    }
    if preceded_by_def(source, i) {
        return ;
    }
    if is_symbol_literal(source, i) {
        return ;
    }
    let is_defined = bytes_eq(kw, "defined?".as_bytes());
    if i + kl < len && (source[i + kl] == BANG || (!is_defined && source[i + kl] == QUESTION)) {
        if !(i + kl + 1 < len && source[i + kl + 1] == EQUALS) {
            return ;
        }
    }
    if crate::cop::layout::space_before_comma::contains_offset(skip, i) {
        return ;
    }
    assert(checked_keyword_at(source@, *code_map, skip@, i as int, kw@));
    let ghost d0 = diags@;
    let ghost c0 = corrs@;
    let c1 = i > 0 && !accepted_before(source, i);
    if c1 {
        push_event_msg(source, diags, corrs, autocorrect, i, keyword_message("Space before keyword `", kw), i, i, " ");
    } else {
        proof {
            lemma_appends_nothing(source@, autocorrect, d0, c0);
        }
    }
    let ghost d1 = diags@;
    let ghost c1s = corrs@;
    let is_end = bytes_eq(kw, "end".as_bytes());
    let mut c2 = false;
    if !is_end && i + kl < len {
        let a = source[i + kl];
        let skip_after = accepted_after(a) || (a == LPAREN && is_accept_left_paren(kw)) || (a == LBRACKET
            && is_accept_left_bracket(kw)) || (a == COLON && bytes_eq(kw, "super".as_bytes()) && i + kl + 1 < len
            && source[i + kl + 1] == COLON) || (a == AMP && i + kl + 1 < len && source[i + kl + 1] == DOT);
        c2 = !skip_after;
    }
    if c2 {
        push_event_msg(source, diags, corrs, autocorrect, i, keyword_message("Space after keyword `", kw), i + kl, i + kl, " ");
    } else {
        proof {
            lemma_appends_nothing(source@, autocorrect, d1, c1s);
        }
    }
    proof {
        let kws = kw@;
        let e1 = event_if(c1, event(i as int, before_message(kws), i as int, i as int, " ".spec_bytes()));
        let e2 = event_if(c2, event(i as int, after_message(kws), i + kl, i + kl, " ".spec_bytes()));
        lemma_appends_concat(source@, e1, e2, autocorrect, d0, c0, d1, c1s, diags@, corrs@);
        assert(keyword_events(source@, *code_map, skip@, i as int, kws) == e1 + e2);
    }
}

impl SpaceAroundKeyword {
    pub fn name(&self) -> (r: &'static str)
        ensures
            r@ == "Layout/SpaceAroundKeyword"@,
    {
        "Layout/SpaceAroundKeyword"
    }

    pub fn supports_autocorrect(&self) -> (r: bool)
        ensures
            r,
    {
        true
    }

    /// Scans `source` for keywords and reports a missing space before or
    /// after each. `skip` holds the offsets that the parse tree marks as
    /// no checked keyword (labels, method names, `end` of definitions,
    /// keyword parameters, modifiers of `begin ... end while`).
    pub fn check_source(&self, source: &[u8], code_map: &CodeMap, skip: &[usize], autocorrect: bool) -> (r: (Vec<Diagnostic>, Vec<Correction>))
        requires
            source@.len() < usize::MAX,
        ensures
            reports_events(source@, keyword_scan(source@, *code_map, skip@, source@.len() as int), autocorrect, r.0@, r.1@),
    {
        let mut diags: Vec<Diagnostic> = Vec::new();
        let mut corrs: Vec<Correction> = Vec::new();
        let ghost d0 = diags@;
        let ghost c0 = corrs@;
        proof {
            lemma_appends_nothing(source@, autocorrect, d0, c0);
        }
        let mut i: usize = 0;
        while i < source.len()
            invariant
                i <= source@.len() < usize::MAX,
                d0.len() == 0,
                c0.len() == 0,
                appends_events(source@, keyword_scan(source@, *code_map, skip@, i as int), autocorrect, d0, c0, diags@, corrs@),
            decreases source@.len() - i,
        {
            let cands = candidates_for(source[i]);
            let ghost cs = keyword_candidates(source@[i as int]);
            let ghost d1 = diags@;
            let ghost c1 = corrs@;
            proof {
                lemma_appends_nothing(source@, autocorrect, d1, c1);
            }
            let mut k: usize = 0;
            while k < cands.len()
                invariant
                    i < source@.len() < usize::MAX,
                    k <= cands@.len(),
                    cands@.len() == cs.len(),
                    forall|j: int| 0 <= j < cands@.len() ==> (#[trigger] cands@[j]).spec_bytes() == cs[j],
                    appends_events(source@, candidates_events(source@, *code_map, skip@, i as int, cs, k as int), autocorrect, d1, c1, diags@, corrs@),
                decreases cands@.len() - k,
            {
                let ghost d2 = diags@;
                let ghost c2 = corrs@;
                let kw = cands[k].as_bytes();
                check_keyword(source, code_map, skip, i, kw, &mut diags, &mut corrs, autocorrect);
                proof {
                    lemma_appends_concat(
                        source@,
                        candidates_events(source@, *code_map, skip@, i as int, cs, k as int),
                        keyword_events(source@, *code_map, skip@, i as int, cs[k as int]),
                        autocorrect, d1, c1, d2, c2, diags@, corrs@,
                    );
                }
                k = k + 1;
            }
            proof {
                lemma_appends_concat(
                    source@,
                    keyword_scan(source@, *code_map, skip@, i as int),
                    candidates_events(source@, *code_map, skip@, i as int, cs, cs.len() as int),
                    autocorrect, d0, c0, d1, c1, diags@, corrs@,
                );
            }
            i = i + 1;
        }
        proof {
            assert(diags@.subrange(0, diags@.len() as int) =~= diags@);
            assert(corrs@.subrange(0, corrs@.len() as int) =~= corrs@);
            assert(diags@.subrange(d0.len() as int, diags@.len() as int) =~= diags@);
            assert(corrs@.subrange(c0.len() as int, corrs@.len() as int) =~= corrs@);
        }
        (diags, corrs)
    }
}


/// A node that may make a keyword-spelled word no keyword.
pub enum SkipSite {
    /// The `end` of a method, class, module or singleton class.
    DefinitionEnd { end_start: Option<usize> },
    /// A pair of a hash: whether it has `=>`, and its key when that is a
    /// symbol: where it starts and whether it has an opening `:` or quote.
    Pair { has_operator: bool, symbol_key: Option<(usize, bool)> },
    /// A `when` clause with its `then`, if written.
    When { then_start: Option<usize> },
    /// A method call with its name, if written.
    Call { message_start: Option<usize> },
    /// A keyword parameter `name:`.
    KeywordParameter { name_start: usize },
    /// `while` or `until`: whether it is `begin ... end while`, and where
    /// its keyword starts.
    Loop { begin_modifier: bool, keyword_start: usize },
    Other,
}

/// Where a site makes the word that starts there no keyword, if it does:
/// the `end` of a definition, a symbol key such as `if:`, the `then` of a
/// `when`, a method name, a keyword parameter, and the keyword of a loop
/// after `begin ... end`.
pub open spec fn spec_skip_offset(site: SkipSite) -> Option<usize> {
    match site {
        SkipSite::DefinitionEnd { end_start } => end_start,
        SkipSite::Pair { has_operator, symbol_key } => match symbol_key {
            Some((start, has_opening)) => if !has_operator && !has_opening { Some(start) } else { None },
            None => None,
        },
        SkipSite::When { then_start } => then_start,
        SkipSite::Call { message_start } => message_start,
        SkipSite::KeywordParameter { name_start } => Some(name_start),
        SkipSite::Loop { begin_modifier, keyword_start } => if begin_modifier { Some(keyword_start) } else { None },
        SkipSite::Other => None,
    }
}

/// The offset a site adds to the skipped keyword positions, if any.
pub fn skip_offset(site: &SkipSite) -> (r: Option<usize>)
    ensures
        r == spec_skip_offset(*site),
{
    match site {
        SkipSite::DefinitionEnd { end_start } => *end_start,
        SkipSite::Pair { has_operator, symbol_key } => match symbol_key {
            Some((start, has_opening)) => if !*has_operator && !*has_opening { Some(*start) } else { None },
            None => None,
        },
        SkipSite::When { then_start } => *then_start,
        SkipSite::Call { message_start } => *message_start,
        SkipSite::KeywordParameter { name_start } => Some(*name_start),
        SkipSite::Loop { begin_modifier, keyword_start } => if *begin_modifier { Some(*keyword_start) } else { None },
        SkipSite::Other => None,
    }
}


/// A keyword that the cop checks: `and begin break case defined? do else
/// elsif end ensure if in next not or rescue return super then unless
/// until when while yield BEGIN END`.
pub open spec fn is_checked_keyword(kw: Seq<u8>) -> bool {
    kw == "and".spec_bytes() || kw == "begin".spec_bytes() || kw == "break".spec_bytes() || kw == "case".spec_bytes() || kw == "defined?".spec_bytes() || kw == "do".spec_bytes() || kw == "else".spec_bytes() || kw == "elsif".spec_bytes() || kw == "end".spec_bytes() || kw == "ensure".spec_bytes() || kw == "if".spec_bytes() || kw == "in".spec_bytes() || kw == "next".spec_bytes() || kw == "not".spec_bytes() || kw == "or".spec_bytes() || kw == "rescue".spec_bytes() || kw == "return".spec_bytes() || kw == "super".spec_bytes() || kw == "then".spec_bytes() || kw == "unless".spec_bytes() || kw == "until".spec_bytes() || kw == "when".spec_bytes() || kw == "while".spec_bytes() || kw == "yield".spec_bytes() || kw == "BEGIN".spec_bytes() || kw == "END".spec_bytes()
}

/// Each checked keyword is among the candidates tried at its first byte.
pub proof fn lemma_keyword_is_candidate(kw: Seq<u8>)
    requires
        is_checked_keyword(kw),
    ensures
        kw.len() > 0,
        keyword_candidates(kw[0]).contains(kw),
{
    reveal_strlit("and");
    vstd::string::is_ascii_spec_bytes("and");
    reveal_strlit("begin");
    vstd::string::is_ascii_spec_bytes("begin");
    reveal_strlit("break");
    vstd::string::is_ascii_spec_bytes("break");
    reveal_strlit("case");
    vstd::string::is_ascii_spec_bytes("case");
    reveal_strlit("defined?");
    vstd::string::is_ascii_spec_bytes("defined?");
    reveal_strlit("do");
    vstd::string::is_ascii_spec_bytes("do");
    reveal_strlit("else");
    vstd::string::is_ascii_spec_bytes("else");
    reveal_strlit("elsif");
    vstd::string::is_ascii_spec_bytes("elsif");
    reveal_strlit("end");
    vstd::string::is_ascii_spec_bytes("end");
    reveal_strlit("ensure");
    vstd::string::is_ascii_spec_bytes("ensure");
    reveal_strlit("if");
    vstd::string::is_ascii_spec_bytes("if");
    reveal_strlit("in");
    vstd::string::is_ascii_spec_bytes("in");
    reveal_strlit("next");
    vstd::string::is_ascii_spec_bytes("next");
    reveal_strlit("not");
    vstd::string::is_ascii_spec_bytes("not");
    reveal_strlit("or");
    vstd::string::is_ascii_spec_bytes("or");
    reveal_strlit("rescue");
    vstd::string::is_ascii_spec_bytes("rescue");
    reveal_strlit("return");
    vstd::string::is_ascii_spec_bytes("return");
    reveal_strlit("super");
    vstd::string::is_ascii_spec_bytes("super");
    reveal_strlit("then");
    vstd::string::is_ascii_spec_bytes("then");
    reveal_strlit("unless");
    vstd::string::is_ascii_spec_bytes("unless");
    reveal_strlit("until");
    vstd::string::is_ascii_spec_bytes("until");
    reveal_strlit("when");
    vstd::string::is_ascii_spec_bytes("when");
    reveal_strlit("while");
    vstd::string::is_ascii_spec_bytes("while");
    reveal_strlit("yield");
    vstd::string::is_ascii_spec_bytes("yield");
    reveal_strlit("BEGIN");
    vstd::string::is_ascii_spec_bytes("BEGIN");
    reveal_strlit("END");
    vstd::string::is_ascii_spec_bytes("END");
    if kw == "and".spec_bytes() {
        assert(kw[0] == 0x61u8);
        assert(keyword_candidates(kw[0])[0] == kw);
    }
    if kw == "begin".spec_bytes() {
        assert(kw[0] == 0x62u8);
        assert(keyword_candidates(kw[0])[0] == kw);
    }
    if kw == "break".spec_bytes() {
        assert(kw[0] == 0x62u8);
        assert(keyword_candidates(kw[0])[1] == kw);
    }
    if kw == "case".spec_bytes() {
        assert(kw[0] == 0x63u8);
        assert(keyword_candidates(kw[0])[0] == kw);
    }
    if kw == "defined?".spec_bytes() {
        assert(kw[0] == 0x64u8);
        assert(keyword_candidates(kw[0])[0] == kw);
    }
    if kw == "do".spec_bytes() {
        assert(kw[0] == 0x64u8);
        assert(keyword_candidates(kw[0])[1] == kw);
    }
    if kw == "else".spec_bytes() {
        assert(kw[0] == 0x65u8);
        assert(keyword_candidates(kw[0])[0] == kw);
    }
    if kw == "elsif".spec_bytes() {
        assert(kw[0] == 0x65u8);
        assert(keyword_candidates(kw[0])[1] == kw);
    }
    if kw == "end".spec_bytes() {
        assert(kw[0] == 0x65u8);
        assert(keyword_candidates(kw[0])[2] == kw);
    }
    if kw == "ensure".spec_bytes() {
        assert(kw[0] == 0x65u8);
        assert(keyword_candidates(kw[0])[3] == kw);
    }
    if kw == "if".spec_bytes() {
        assert(kw[0] == 0x69u8);
        assert(keyword_candidates(kw[0])[0] == kw);
    }
    if kw == "in".spec_bytes() {
        assert(kw[0] == 0x69u8);
        assert(keyword_candidates(kw[0])[1] == kw);
    }
    if kw == "next".spec_bytes() {
        assert(kw[0] == 0x6eu8);
        assert(keyword_candidates(kw[0])[0] == kw);
    }
    if kw == "not".spec_bytes() {
        assert(kw[0] == 0x6eu8);
        assert(keyword_candidates(kw[0])[1] == kw);
    }
    if kw == "or".spec_bytes() {
        assert(kw[0] == 0x6fu8);
        assert(keyword_candidates(kw[0])[0] == kw);
    }
    if kw == "rescue".spec_bytes() {
        assert(kw[0] == 0x72u8);
        assert(keyword_candidates(kw[0])[0] == kw);
    }
    if kw == "return".spec_bytes() {
        assert(kw[0] == 0x72u8);
        assert(keyword_candidates(kw[0])[1] == kw);
    }
    if kw == "super".spec_bytes() {
        assert(kw[0] == 0x73u8);
        assert(keyword_candidates(kw[0])[0] == kw);
    }
    if kw == "then".spec_bytes() {
        assert(kw[0] == 0x74u8);
        assert(keyword_candidates(kw[0])[0] == kw);
    }
    if kw == "unless".spec_bytes() {
        assert(kw[0] == 0x75u8);
        assert(keyword_candidates(kw[0])[0] == kw);
    }
    if kw == "until".spec_bytes() {
        assert(kw[0] == 0x75u8);
        assert(keyword_candidates(kw[0])[1] == kw);
    }
    if kw == "when".spec_bytes() {
        assert(kw[0] == 0x77u8);
        assert(keyword_candidates(kw[0])[0] == kw);
    }
    if kw == "while".spec_bytes() {
        assert(kw[0] == 0x77u8);
        assert(keyword_candidates(kw[0])[1] == kw);
    }
    if kw == "yield".spec_bytes() {
        assert(kw[0] == 0x79u8);
        assert(keyword_candidates(kw[0])[0] == kw);
    }
    if kw == "BEGIN".spec_bytes() {
        assert(kw[0] == 0x42u8);
        assert(keyword_candidates(kw[0])[0] == kw);
    }
    if kw == "END".spec_bytes() {
        assert(kw[0] == 0x45u8);
        assert(keyword_candidates(kw[0])[0] == kw);
    }
}

proof fn lemma_candidates_events_contain(s: Seq<u8>, map: CodeMap, skip: Seq<usize>, i: int, cands: Seq<Seq<u8>>, n: int, j: int, e: Event)
    requires
        0 <= j < n <= cands.len(),
        keyword_events(s, map, skip, i, cands[j]).contains(e),
    ensures
        candidates_events(s, map, skip, i, cands, n).contains(e),
    decreases n,
{
    let prev = candidates_events(s, map, skip, i, cands, n - 1);
    let last = keyword_events(s, map, skip, i, cands[n - 1]);
    if j < n - 1 {
        lemma_candidates_events_contain(s, map, skip, i, cands, n - 1, j, e);
        let k = choose|k: int| 0 <= k < prev.len() && prev[k] == e;
        assert((prev + last)[k] == e);
    } else {
        let k = choose|k: int| 0 <= k < last.len() && last[k] == e;
        assert((prev + last)[prev.len() + k] == e);
    }
}

proof fn lemma_keyword_scan_contains(s: Seq<u8>, map: CodeMap, skip: Seq<usize>, m: int, i: int, e: Event)
    requires
        0 <= i < m <= s.len(),
        candidates_events(s, map, skip, i, keyword_candidates(s[i]), keyword_candidates(s[i]).len() as int).contains(e),
    ensures
        keyword_scan(s, map, skip, m).contains(e),
    decreases m,
{
    let prev = keyword_scan(s, map, skip, m - 1);
    let c = keyword_candidates(s[m - 1]);
    let last = candidates_events(s, map, skip, m - 1, c, c.len() as int);
    if i < m - 1 {
        lemma_keyword_scan_contains(s, map, skip, m - 1, i, e);
        let k = choose|k: int| 0 <= k < prev.len() && prev[k] == e;
        assert((prev + last)[k] == e);
    } else {
        let k = choose|k: int| 0 <= k < last.len() && last[k] == e;
        assert((prev + last)[prev.len() + k] == e);
    }
}

/// Every checked keyword that stands as a keyword at `i` is reported when
/// no space separates it from the code before it (at the start of the
/// keyword, inserting a space) and, but for `end`, when no space follows
/// it (after the keyword, inserting a space).
pub proof fn law_keyword_without_space_reported(s: Seq<u8>, map: CodeMap, skip: Seq<usize>, i: int, kw: Seq<u8>)
    requires
        is_checked_keyword(kw),
        0 <= i,
        checked_keyword_at(s, map, skip, i, kw),
    ensures
        i > 0 && !spec_accepted_before(s, i) ==> keyword_scan(s, map, skip, s.len() as int).contains(
            event(i, before_message(kw), i, i, " ".spec_bytes()),
        ),
        kw != "end".spec_bytes() && i + kw.len() < s.len() && !after_accepted(s, i, kw)
            ==> keyword_scan(s, map, skip, s.len() as int).contains(
            event(i, after_message(kw), i + kw.len(), i + kw.len(), " ".spec_bytes()),
        ),
{
    lemma_keyword_is_candidate(kw);
    let kl = kw.len() as int;
    assert(s.subrange(i, i + kl)[0] == s[i]);
    let c = keyword_candidates(s[i]);
    let j = choose|j: int| 0 <= j < c.len() && c[j] == kw;
    let evs = keyword_events(s, map, skip, i, kw);
    let before = event_if(i > 0 && !spec_accepted_before(s, i), event(i, before_message(kw), i, i, " ".spec_bytes()));
    let after = event_if(
        kw != "end".spec_bytes() && i + kl < s.len() && !after_accepted(s, i, kw),
        event(i, after_message(kw), i + kl, i + kl, " ".spec_bytes()),
    );
    assert(evs == before + after);
    if i > 0 && !spec_accepted_before(s, i) {
        let e = event(i, before_message(kw), i, i, " ".spec_bytes());
        assert(evs[0] == e);
        lemma_candidates_events_contain(s, map, skip, i, c, c.len() as int, j, e);
        lemma_keyword_scan_contains(s, map, skip, s.len() as int, i, e);
    }
    if kw != "end".spec_bytes() && i + kl < s.len() && !after_accepted(s, i, kw) {
        let e = event(i, after_message(kw), i + kl, i + kl, " ".spec_bytes());
        assert(evs[before.len() as int] == e);
        lemma_candidates_events_contain(s, map, skip, i, c, c.len() as int, j, e);
        lemma_keyword_scan_contains(s, map, skip, s.len() as int, i, e);
    }
}


/// The keywords that may be followed directly by `(`: `break defined?
/// next not rescue super yield`, and no other.
pub proof fn law_left_paren_keywords_listed(kw: Seq<u8>)
    ensures
        spec_accepts_left_paren(kw) <==> (kw == "break".spec_bytes() || kw == "defined?".spec_bytes() || kw == "next".spec_bytes() || kw == "not".spec_bytes() || kw == "rescue".spec_bytes() || kw == "super".spec_bytes() || kw == "yield".spec_bytes()),
{
}


/// The keywords that may be followed directly by `[`: `super` and
/// `yield`.
pub proof fn law_left_bracket_keywords_listed(kw: Seq<u8>)
    ensures
        spec_accepts_left_bracket(kw) <==> (kw == "super".spec_bytes() || kw == "yield".spec_bytes()),
{
}


/// A keyword needs no space after it when a space, tab, line break,
/// carriage return, `;`, `,`, `#`, backslash, `)`, `}`, `]` or `.` follows
/// it, and needs one before any other byte but the `(` and `[` that some
/// keywords take.
pub proof fn law_bytes_accepted_after_keywords(ch: u8)
    ensures
        spec_accepted_after(ch) <==> (ch == 0x20u8 || ch == 0x09u8 || ch == 0x0au8 || ch == 0x0du8 || ch == 0x3bu8 || ch == 0x2cu8 || ch == 0x23u8 || ch == 0x5cu8 || ch == 0x29u8 || ch == 0x7du8 || ch == 0x5du8 || ch == 0x2eu8),
{
}

/// A keyword needs no space before it at the start of the source, after a
/// space, tab, line break, carriage return, `(`, `|`, `{`, `[`, `;`, `,`,
/// `*`, `=`, `+`, `-`, `/`, `<`, `&` or `.`, after a `>` that does not end
/// `->`, and after a `!` or `?` that does not end a method name; after any
/// other byte it needs one.
pub proof fn law_bytes_accepted_before_keywords(s: Seq<u8>, i: int)
    requires
        0 <= i <= s.len(),
    ensures
        i == 0 ==> spec_accepted_before(s, i),
        i > 0 ==> (spec_accepted_before(s, i) <==> ((s[i - 1] == 0x20u8 || s[i - 1] == 0x09u8 || s[i - 1] == 0x0au8 || s[i - 1] == 0x0du8 || s[i - 1] == 0x28u8 || s[i - 1] == 0x7cu8 || s[i - 1] == 0x7bu8 || s[i - 1] == 0x5bu8 || s[i - 1] == 0x3bu8 || s[i - 1] == 0x2cu8 || s[i - 1] == 0x2au8 || s[i - 1] == 0x3du8 || s[i - 1] == 0x2bu8 || s[i - 1] == 0x2du8 || s[i - 1] == 0x2fu8 || s[i - 1] == 0x3cu8 || s[i - 1] == 0x26u8 || s[i - 1] == 0x2eu8)
            || (s[i - 1] == 0x3eu8 && !(i >= 2 && s[i - 2] == 0x2du8))
            || ((s[i - 1] == 0x21u8 || s[i - 1] == 0x3fu8) && !(i >= 2 && (spec_is_ascii_alnum(s[i - 2]) || s[i - 2] == 0x5fu8))))),
{
}


/// Only checked keywords are tried: every candidate at a byte is one of
/// them.
pub proof fn law_candidates_are_checked_keywords(b: u8)
    ensures
        forall|k: int| 0 <= k < keyword_candidates(b).len() ==> is_checked_keyword(#[trigger] keyword_candidates(b)[k]),
{
    let c = keyword_candidates(b);
    assert forall|k: int| 0 <= k < c.len() implies is_checked_keyword(#[trigger] c[k]) by {
        if b == 0x61u8 {
            if k == 0 { assert(c[0] == "and".spec_bytes()); }
        }
        if b == 0x62u8 {
            if k == 0 { assert(c[0] == "begin".spec_bytes()); } else if k == 1 { assert(c[1] == "break".spec_bytes()); }
        }
        if b == 0x63u8 {
            if k == 0 { assert(c[0] == "case".spec_bytes()); }
        }
        if b == 0x64u8 {
            if k == 0 { assert(c[0] == "defined?".spec_bytes()); } else if k == 1 { assert(c[1] == "do".spec_bytes()); }
        }
        if b == 0x65u8 {
            if k == 0 { assert(c[0] == "else".spec_bytes()); } else if k == 1 { assert(c[1] == "elsif".spec_bytes()); } else if k == 2 { assert(c[2] == "end".spec_bytes()); } else if k == 3 { assert(c[3] == "ensure".spec_bytes()); }
        }
        if b == 0x69u8 {
            if k == 0 { assert(c[0] == "if".spec_bytes()); } else if k == 1 { assert(c[1] == "in".spec_bytes()); }
        }
        if b == 0x6eu8 {
            if k == 0 { assert(c[0] == "next".spec_bytes()); } else if k == 1 { assert(c[1] == "not".spec_bytes()); }
        }
        if b == 0x6fu8 {
            if k == 0 { assert(c[0] == "or".spec_bytes()); }
        }
        if b == 0x72u8 {
            if k == 0 { assert(c[0] == "rescue".spec_bytes()); } else if k == 1 { assert(c[1] == "return".spec_bytes()); }
        }
        if b == 0x73u8 {
            if k == 0 { assert(c[0] == "super".spec_bytes()); }
        }
        if b == 0x74u8 {
            if k == 0 { assert(c[0] == "then".spec_bytes()); }
        }
        if b == 0x75u8 {
            if k == 0 { assert(c[0] == "unless".spec_bytes()); } else if k == 1 { assert(c[1] == "until".spec_bytes()); }
        }
        if b == 0x77u8 {
            if k == 0 { assert(c[0] == "when".spec_bytes()); } else if k == 1 { assert(c[1] == "while".spec_bytes()); }
        }
        if b == 0x79u8 {
            if k == 0 { assert(c[0] == "yield".spec_bytes()); }
        }
        if b == 0x42u8 {
            if k == 0 { assert(c[0] == "BEGIN".spec_bytes()); }
        }
        if b == 0x45u8 {
            if k == 0 { assert(c[0] == "END".spec_bytes()); }
        }
    }
}

} // verus!
