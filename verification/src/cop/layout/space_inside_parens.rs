//! Layout/SpaceInsideParens: spacing just inside parentheses.
use vstd::prelude::*;
use vstd::string::StringSliceAdditionalSpecFns;
use crate::ascii::{BACKSLASH, BANG, COLON, DOT, LPAREN, QUESTION, AT, RPAREN};
use crate::diagnostic::{
    appends_events, event, event_if, lemma_appends_concat, lemma_appends_nothing, push_event,
    push_event_if, reports_events, Correction, Diagnostic, Event,
};
use crate::text::{
    bytes_eq, is_ascii_alnum, is_ascii_alpha, lemma_line_start_bounds, line_start, line_start_of,
    spec_is_ascii_alnum, spec_is_ascii_alpha, CARRIAGE_RETURN, HASH, NEWLINE, SPACE, TAB,
    UNDERSCORE,
};

verus! {

pub struct SpaceInsideParens;

pub const PARENS_MSG: &'static str = "Space inside parentheses detected.";

pub const PARENS_MSG_NO_SPACE: &'static str = "No space inside parentheses detected.";

/// The node whose parentheses are checked, as source offsets.
pub enum ParenNode {
    /// A parenthesized expression `( ... )`.
    Parentheses { open_start: usize, open_end: usize, close_start: usize },
    /// Parentheses of a call, `yield`, `def`, a multiple assignment, a
    /// pattern, a pinned expression, `super` or block parameters. With
    /// `must_be_parens`, the delimiters count only when they are `(` and
    /// `)`.
    Delimited { open_start: usize, open_end: usize, close_start: usize, close_end: usize, must_be_parens: bool },
    /// `defined?(...)`, spanning `[start, end)`.
    Defined { start: usize, end: usize },
    Other,
}

/// What follows on the same line: nothing (or a line continuation), a
/// comment, or code at an offset.
pub enum NextSameLineItem {
    Nothing,
    Comment,
    Code(usize),
}

pub open spec fn spec_is_paren_whitespace(b: u8) -> bool {
    b == SPACE || b == TAB || b == NEWLINE || b == CARRIAGE_RETURN
}

pub open spec fn is_line_blank(b: u8) -> bool {
    b == SPACE || b == TAB || b == CARRIAGE_RETURN
}

pub open spec fn spec_is_identifier_tail(b: u8) -> bool {
    spec_is_ascii_alnum(b) || b == UNDERSCORE || b == QUESTION || b == BANG
}

/// Going back from `i` while the byte before is a space, tab or carriage
/// return, not below `lo`.
pub open spec fn line_blank_back(s: Seq<u8>, i: int, lo: int) -> int
    decreases i - lo,
{
    if i > lo && is_line_blank(s[i - 1]) {
        line_blank_back(s, i - 1, lo)
    } else {
        i
    }
}

/// Going forward from `i` while the byte is a space, tab or carriage
/// return, not reaching `hi`.
pub open spec fn line_blank_fwd(s: Seq<u8>, i: int, hi: int) -> int
    decreases hi - i,
{
    if i < hi && is_line_blank(s[i]) {
        line_blank_fwd(s, i + 1, hi)
    } else {
        i
    }
}

pub open spec fn ident_tail_back(s: Seq<u8>, i: int, lo: int) -> int
    decreases i - lo,
{
    if i > lo && spec_is_identifier_tail(s[i - 1]) {
        ident_tail_back(s, i - 1, lo)
    } else {
        i
    }
}

/// The first line feed at or after `i`, or the end.
pub open spec fn line_end_from(s: Seq<u8>, i: int) -> int
    decreases s.len() - i,
{
    if i >= s.len() {
        s.len() as int
    } else if s[i] == NEWLINE {
        i
    } else {
        line_end_from(s, i + 1)
    }
}

pub open spec fn spec_denied_command_prefix(w: Seq<u8>) -> bool {
    w == "if".spec_bytes() || w == "unless".spec_bytes() || w == "while".spec_bytes() || w
        == "until".spec_bytes() || w == "case".spec_bytes() || w == "for".spec_bytes() || w
        == "return".spec_bytes() || w == "break".spec_bytes() || w == "next".spec_bytes() || w
        == "redo".spec_bytes() || w == "retry".spec_bytes() || w == "then".spec_bytes() || w
        == "elsif".spec_bytes() || w == "when".spec_bytes() || w == "rescue".spec_bytes() || w
        == "super".spec_bytes() || w == "defined?".spec_bytes()
}

/// The span of a command name right before the `(` at `open_start`, as in
/// `puts (x)`: a word on the same line, after spaces, that starts with a
/// letter or `_`, does not follow `.`, `:` or `@`, and is no keyword.
pub open spec fn spec_command_form_prefix(s: Seq<u8>, open_start: int) -> Option<(int, int)> {
    if open_start == 0 {
        None
    } else {
        let ls = line_start(s, open_start);
        let we = line_blank_back(s, open_start, ls);
        if we == open_start || we == ls {
            None
        } else {
            let ws = ident_tail_back(s, we, ls);
            if ws == we {
                None
            } else if ws > ls && (spec_is_identifier_tail(s[ws - 1]) || s[ws - 1] == DOT || s[ws - 1] == COLON || s[ws - 1] == AT) {
                None
            } else if !(spec_is_ascii_alpha(s[ws]) || s[ws] == UNDERSCORE) {
                None
            } else if spec_denied_command_prefix(s.subrange(ws, we)) {
                None
            } else {
                Some((ws, we))
            }
        }
    }
}

pub open spec fn spec_is_trailing_backslash(s: Seq<u8>, idx: int, line_end: int) -> bool {
    line_blank_fwd(s, idx + 1, line_end) >= line_end
}

pub open spec fn spec_next_same_line_item(s: Seq<u8>, offset: int) -> NextSameLineItem {
    let le = line_end_from(s, offset);
    let idx = line_blank_fwd(s, offset, le);
    if idx >= le {
        NextSameLineItem::Nothing
    } else if s[idx] == HASH {
        NextSameLineItem::Comment
    } else if s[idx] == BACKSLASH && spec_is_trailing_backslash(s, idx, le) {
        NextSameLineItem::Nothing
    } else {
        NextSameLineItem::Code(idx as usize)
    }
}

pub open spec fn spec_previous_same_line_code(s: Seq<u8>, close_start: int) -> Option<int> {
    let ls = line_start(s, close_start);
    let idx = line_blank_back(s, close_start, ls);
    if idx == ls {
        None
    } else {
        Some(idx - 1)
    }
}

pub open spec fn remove_event(start: int, end: int, msg: Seq<u8>) -> Event {
    event(start, msg, start, end, seq![])
}

pub open spec fn insert_event(offset: int, msg: Seq<u8>) -> Event {
    event(offset, msg, offset, offset, " ".spec_bytes())
}

pub open spec fn extraneous_open_events(open_end: int, open_side: NextSameLineItem) -> Seq<Event> {
    match open_side {
        NextSameLineItem::Code(c) => event_if(c > open_end, remove_event(open_end, c as int, PARENS_MSG.spec_bytes())),
        _ => seq![],
    }
}

pub open spec fn extraneous_close_events(close_start: int, close_side: Option<int>) -> Seq<Event> {
    match close_side {
        Some(p) => event_if(p + 1 < close_start, remove_event(p + 1, close_start, PARENS_MSG.spec_bytes())),
        None => seq![],
    }
}

pub open spec fn missing_open_events(s: Seq<u8>, open_side: NextSameLineItem, allow: bool) -> Seq<Event> {
    match open_side {
        NextSameLineItem::Code(c) => event_if(
            !(allow && s[c as int] == LPAREN) && c != 0 && s[c - 1] != SPACE,
            insert_event(c as int, PARENS_MSG_NO_SPACE.spec_bytes()),
        ),
        _ => seq![],
    }
}

pub open spec fn missing_close_events(s: Seq<u8>, close_side: Option<int>, close_start: int, allow: bool) -> Seq<Event> {
    match close_side {
        Some(p) => event_if(
            !(allow && s[p] == RPAREN) && p + 1 == close_start,
            insert_event(close_start, PARENS_MSG_NO_SPACE.spec_bytes()),
        ),
        None => seq![],
    }
}

pub open spec fn is_parens_slice(s: Seq<u8>, a: int, b: int, c: u8) -> bool {
    s.subrange(a, b) == seq![c]
}

/// The last `)` in `s[start..end)`.
pub open spec fn last_rparen(s: Seq<u8>, start: int, end: int) -> Option<int>
    decreases end - start,
{
    if end <= start {
        None
    } else if s[end - 1] == RPAREN {
        Some(end - 1)
    } else {
        last_rparen(s, start, end - 1)
    }
}

/// The opening parenthesis span and the closing parenthesis start.
pub open spec fn spec_paren_offsets(s: Seq<u8>, node: ParenNode) -> Option<(int, int, int)> {
    match node {
        ParenNode::Parentheses { open_start, open_end, close_start } => Some((open_start as int, open_end as int, close_start as int)),
        ParenNode::Delimited { open_start, open_end, close_start, close_end, must_be_parens } => {
            if must_be_parens && !(is_parens_slice(s, open_start as int, open_end as int, LPAREN) && is_parens_slice(s, close_start as int, close_end as int, RPAREN)) {
                None
            } else {
                Some((open_start as int, open_end as int, close_start as int))
            }
        },
        ParenNode::Defined { start, end } => {
            if !(end - start >= 8 && s.subrange(start as int, start + 8) == "defined?".spec_bytes()) {
                None
            } else {
                let os = line_blank_fwd(s, start + 8, end as int);
                if os >= end || s[os] != LPAREN {
                    None
                } else {
                    match last_rparen(s, start as int, end as int) {
                        Some(cs) => if cs <= os {
                            None
                        } else {
                            Some((os, os + 1, cs))
                        },
                        None => None,
                    }
                }
            }
        },
        ParenNode::Other => None,
    }
}

pub open spec fn contains_newline(s: Seq<u8>, a: int, b: int) -> bool {
    exists|j: int| a <= j < b && s[j] == NEWLINE
}

/// The events for one node under `style` (`no_space`, `space` or
/// `compact`).
pub open spec fn paren_events(s: Seq<u8>, node: ParenNode, style: Seq<u8>) -> Seq<Event> {
    match spec_paren_offsets(s, node) {
        Some((os, oe, cs)) => if cs <= oe {
            seq![]
        } else if forall|j: int| oe <= j < cs ==> spec_is_paren_whitespace(#[trigger] s[j]) {
            if style == "no_space".spec_bytes() && contains_newline(s, oe, cs) {
                seq![]
            } else {
                seq![remove_event(oe, cs, PARENS_MSG.spec_bytes())]
            }
        } else {
            let open_side = spec_next_same_line_item(s, oe);
            let close_side = spec_previous_same_line_code(s, cs);
            let ignore = node is Parentheses && spec_command_form_prefix(s, os) is Some;
            if style == "space".spec_bytes() || style == "compact".spec_bytes() {
                let allow = style == "compact".spec_bytes();
                (if ignore {
                    seq![]
                } else {
                    missing_open_events(s, open_side, allow)
                }) + missing_close_events(s, close_side, cs, allow)
            } else {
                (if ignore {
                    seq![]
                } else {
                    extraneous_open_events(oe, open_side)
                }) + extraneous_close_events(cs, close_side)
            }
        },
        None => seq![],
    }
}

pub open spec fn paren_node_in_bounds(len: int, node: ParenNode) -> bool {
    match node {
        ParenNode::Parentheses { open_start, open_end, close_start } => open_start <= open_end <= len && close_start <= len,
        ParenNode::Delimited { open_start, open_end, close_start, close_end, .. } => open_start <= open_end <= len && close_start <= close_end <= len,
        ParenNode::Defined { start, end } => start <= end <= len,
        ParenNode::Other => true,
    }
}

pub fn is_paren_whitespace(byte: u8) -> (r: bool)
    ensures
        r == spec_is_paren_whitespace(byte),
{
    byte == SPACE || byte == TAB || byte == NEWLINE || byte == CARRIAGE_RETURN
}

pub fn is_identifier_tail(byte: u8) -> (r: bool)
    ensures
        r == spec_is_identifier_tail(byte),
{
    is_ascii_alnum(byte) || byte == UNDERSCORE || byte == QUESTION || byte == BANG
}

/// Whether `word` is a keyword that never starts a command call.
pub fn denied_command_prefix(word: &[u8]) -> (r: bool)
    ensures
        r == spec_denied_command_prefix(word@),
{
    bytes_eq(word, "if".as_bytes()) || bytes_eq(word, "unless".as_bytes()) || bytes_eq(word, "while".as_bytes())
        || bytes_eq(word, "until".as_bytes()) || bytes_eq(word, "case".as_bytes()) || bytes_eq(word, "for".as_bytes())
        || bytes_eq(word, "return".as_bytes()) || bytes_eq(word, "break".as_bytes()) || bytes_eq(word, "next".as_bytes())
        || bytes_eq(word, "redo".as_bytes()) || bytes_eq(word, "retry".as_bytes()) || bytes_eq(word, "then".as_bytes())
        || bytes_eq(word, "elsif".as_bytes()) || bytes_eq(word, "when".as_bytes()) || bytes_eq(word, "rescue".as_bytes())
        || bytes_eq(word, "super".as_bytes()) || bytes_eq(word, "defined?".as_bytes())
}

fn skip_line_blanks_back(s: &[u8], i: usize, lo: usize) -> (r: usize)
    requires
        lo <= i <= s@.len(),
    ensures
        r == line_blank_back(s@, i as int, lo as int),
        lo <= r <= i,
{
    let mut j = i;
    while j > lo && (s[j - 1] == SPACE || s[j - 1] == TAB || s[j - 1] == CARRIAGE_RETURN)
        invariant
            lo <= j <= i <= s@.len(),
            line_blank_back(s@, j as int, lo as int) == line_blank_back(s@, i as int, lo as int),
        decreases j,
    {
        j = j - 1;
    }
    j
}

fn skip_line_blanks_fwd(s: &[u8], i: usize, hi: usize) -> (r: usize)
    requires
        i <= hi <= s@.len(),
    ensures
        r == line_blank_fwd(s@, i as int, hi as int),
        i <= r <= hi,
{
    let mut j = i;
    while j < hi && (s[j] == SPACE || s[j] == TAB || s[j] == CARRIAGE_RETURN)
        invariant
            i <= j <= hi <= s@.len(),
            line_blank_fwd(s@, j as int, hi as int) == line_blank_fwd(s@, i as int, hi as int),
        decreases hi - j,
    {
        j = j + 1;
    }
    j
}

/// The command name right before the `(` at `open_start`, if there is one.
pub fn command_form_prefix(bytes: &[u8], open_start: usize) -> (r: Option<&[u8]>)
    requires
        open_start <= bytes@.len(),
    ensures
        match spec_command_form_prefix(bytes@, open_start as int) {
            Some((ws, we)) => r matches Some(w) && w@ == bytes@.subrange(ws, we),
            None => r is None,
        },
{
    if open_start == 0 {
        return None;
    }
    let ls = line_start_of(bytes, open_start);
    let we = skip_line_blanks_back(bytes, open_start, ls);
    if we == open_start || we == ls {
        return None;
    }
    let mut ws = we;
    while ws > ls && is_identifier_tail(bytes[ws - 1])
        invariant
            ls <= ws <= we <= bytes@.len(),
            ident_tail_back(bytes@, ws as int, ls as int) == ident_tail_back(bytes@, we as int, ls as int),
        decreases ws,
    {
        ws = ws - 1;
    }
    if ws == we {
        return None;
    }
    if ws > ls {
        let prev = bytes[ws - 1];
        if is_identifier_tail(prev) || prev == DOT || prev == COLON || prev == AT {
            return None;
        }
    }
    let word = &bytes[ws..we];
    if !(is_ascii_alpha(word[0]) || word[0] == UNDERSCORE) {
        return None;
    }
    if denied_command_prefix(word) {
        return None;
    }
    Some(word)
}

/// Whether only spaces, tabs and carriage returns follow the backslash at
/// `idx` up to `line_end`.
pub fn is_trailing_backslash(bytes: &[u8], idx: usize, line_end: usize) -> (r: bool)
    requires
        idx < line_end <= bytes@.len(),
    ensures
        r == spec_is_trailing_backslash(bytes@, idx as int, line_end as int),
{
    let i = skip_line_blanks_fwd(bytes, idx + 1, line_end);
    i >= line_end
}

/// What comes first after `offset` on its line.
pub fn next_same_line_item(bytes: &[u8], offset: usize) -> (r: NextSameLineItem)
    requires
        offset <= bytes@.len(),
    ensures
        r == spec_next_same_line_item(bytes@, offset as int),
        r matches NextSameLineItem::Code(c) ==> offset <= c < bytes@.len(),
{
    let mut le = offset;
    while le < bytes.len() && bytes[le] != NEWLINE
        invariant
            offset <= le <= bytes@.len(),
            line_end_from(bytes@, le as int) == line_end_from(bytes@, offset as int),
        decreases bytes@.len() - le,
    {
        le = le + 1;
    }
    let idx = skip_line_blanks_fwd(bytes, offset, le);
    if idx >= le {
        NextSameLineItem::Nothing
    } else if bytes[idx] == HASH {
        NextSameLineItem::Comment
    } else if bytes[idx] == BACKSLASH && is_trailing_backslash(bytes, idx, le) {
        NextSameLineItem::Nothing
    } else {
        NextSameLineItem::Code(idx)
    }
}

/// The last code byte before `close_start` on its line, if any.
pub fn previous_same_line_code(bytes: &[u8], close_start: usize) -> (r: Option<usize>)
    requires
        close_start <= bytes@.len(),
    ensures
        match r {
            Some(v) => spec_previous_same_line_code(bytes@, close_start as int) == Some(v as int) && v < close_start,
            None => spec_previous_same_line_code(bytes@, close_start as int) is None,
        },
{
    let ls = line_start_of(bytes, close_start);
    let idx = skip_line_blanks_back(bytes, close_start, ls);
    if idx == ls {
        None
    } else {
        Some(idx - 1)
    }
}

/// Reports the space `[start, end)` with an edit that removes it.
pub fn push_remove_offense(
    source: &[u8],
    diagnostics: &mut Vec<Diagnostic>,
    corrections: &mut Vec<Correction>,
    autocorrect: bool,
    start: usize,
    end: usize,
    message: &str,
)
    requires
        source@.len() < usize::MAX,
        start <= source@.len(),
    ensures
        appends_events(source@, seq![remove_event(start as int, end as int, message.spec_bytes())], autocorrect, old(diagnostics)@, old(corrections)@, final(diagnostics)@, final(corrections)@),
{
    push_event(source, diagnostics, corrections, autocorrect, start, message, start, end, "");
    proof {
        reveal_strlit("");
        assert("".spec_bytes() =~= Seq::<u8>::empty());
    }
}

/// Reports a missing space at `offset` with an edit that inserts one.
pub fn push_insert_offense(
    source: &[u8],
    diagnostics: &mut Vec<Diagnostic>,
    corrections: &mut Vec<Correction>,
    autocorrect: bool,
    offset: usize,
    message: &str,
)
    requires
        source@.len() < usize::MAX,
        offset <= source@.len(),
    ensures
        appends_events(source@, seq![insert_event(offset as int, message.spec_bytes())], autocorrect, old(diagnostics)@, old(corrections)@, final(diagnostics)@, final(corrections)@),
{
    push_event(source, diagnostics, corrections, autocorrect, offset, message, offset, offset, " ");
}

pub fn check_extraneous_open_space(
    source: &[u8],
    diagnostics: &mut Vec<Diagnostic>,
    corrections: &mut Vec<Correction>,
    autocorrect: bool,
    open_end: usize,
    open_side: &NextSameLineItem,
)
    requires
        source@.len() < usize::MAX,
        open_end <= source@.len(),
    ensures
        appends_events(source@, extraneous_open_events(open_end as int, *open_side), autocorrect, old(diagnostics)@, old(corrections)@, final(diagnostics)@, final(corrections)@),
{
    match open_side {
        NextSameLineItem::Code(c) => {
            if *c > open_end {
                push_remove_offense(source, diagnostics, corrections, autocorrect, open_end, *c, PARENS_MSG);
                return ;
            }
        },
        _ => {},
    }
    proof {
        lemma_appends_nothing(source@, autocorrect, diagnostics@, corrections@);
    }
}

pub fn check_extraneous_close_space(
    source: &[u8],
    diagnostics: &mut Vec<Diagnostic>,
    corrections: &mut Vec<Correction>,
    autocorrect: bool,
    close_start: usize,
    close_side: Option<usize>,
)
    requires
        source@.len() < usize::MAX,
        close_start <= source@.len(),
        close_side matches Some(p) ==> p < close_start,
    ensures
        appends_events(
            source@,
            extraneous_close_events(close_start as int, match close_side { Some(p) => Some(p as int), None => None }),
            autocorrect,
            old(diagnostics)@,
            old(corrections)@,
            final(diagnostics)@,
            final(corrections)@,
        ),
{
    match close_side {
        Some(p) => {
            if p + 1 < close_start {
                push_remove_offense(source, diagnostics, corrections, autocorrect, p + 1, close_start, PARENS_MSG);
                return ;
            }
        },
        None => {},
    }
    proof {
        lemma_appends_nothing(source@, autocorrect, diagnostics@, corrections@);
    }
}

pub fn check_missing_open_space(
    source: &[u8],
    diagnostics: &mut Vec<Diagnostic>,
    corrections: &mut Vec<Correction>,
    autocorrect: bool,
    open_side: &NextSameLineItem,
    allow_consecutive_left_parens: bool,
)
    requires
        source@.len() < usize::MAX,
        open_side matches NextSameLineItem::Code(c) ==> c < source@.len(),
    ensures
        appends_events(source@, missing_open_events(source@, *open_side, allow_consecutive_left_parens), autocorrect, old(diagnostics)@, old(corrections)@, final(diagnostics)@, final(corrections)@),
{
    match open_side {
        NextSameLineItem::Code(c) => {
            let c = *c;
            if !(allow_consecutive_left_parens && source[c] == LPAREN) && c != 0 && source[c - 1] != SPACE {
                push_insert_offense(source, diagnostics, corrections, autocorrect, c, PARENS_MSG_NO_SPACE);
                return ;
            }
        },
        _ => {},
    }
    proof {
        lemma_appends_nothing(source@, autocorrect, diagnostics@, corrections@);
    }
}

pub fn check_missing_close_space(
    source: &[u8],
    diagnostics: &mut Vec<Diagnostic>,
    corrections: &mut Vec<Correction>,
    autocorrect: bool,
    close_side: Option<usize>,
    close_start: usize,
    allow_consecutive_right_parens: bool,
)
    requires
        source@.len() < usize::MAX,
        close_start <= source@.len(),
        close_side matches Some(p) ==> p < close_start,
    ensures
        appends_events(
            source@,
            missing_close_events(source@, match close_side { Some(p) => Some(p as int), None => None }, close_start as int, allow_consecutive_right_parens),
            autocorrect,
            old(diagnostics)@,
            old(corrections)@,
            final(diagnostics)@,
            final(corrections)@,
        ),
{
    match close_side {
        Some(p) => {
            if !(allow_consecutive_right_parens && source[p] == RPAREN) && p + 1 == close_start {
                push_insert_offense(source, diagnostics, corrections, autocorrect, close_start, PARENS_MSG_NO_SPACE);
                return ;
            }
        },
        None => {},
    }
    proof {
        lemma_appends_nothing(source@, autocorrect, diagnostics@, corrections@);
    }
}

/// The opening parenthesis span and the closing parenthesis start of a
/// node, if it has parentheses that the cop checks.
pub fn paren_offsets(node: &ParenNode, bytes: &[u8]) -> (r: Option<(usize, usize, usize)>)
    requires
        paren_node_in_bounds(bytes@.len() as int, *node),
    ensures
        match r {
            Some((a, b, c)) => spec_paren_offsets(bytes@, *node) == Some((a as int, b as int, c as int)) && a <= b <= bytes@.len() && c <= bytes@.len(),
            None => spec_paren_offsets(bytes@, *node) is None,
        },
{
    match node {
        ParenNode::Parentheses { open_start, open_end, close_start } => Some((*open_start, *open_end, *close_start)),
        ParenNode::Delimited { open_start, open_end, close_start, close_end, must_be_parens } => {
            if *must_be_parens {
                let open_ok = *open_end - *open_start == 1 && bytes[*open_start] == LPAREN;
                let close_ok = *close_end - *close_start == 1 && bytes[*close_start] == RPAREN;
                proof {
                    let o = bytes@.subrange(*open_start as int, *open_end as int);
                    let c = bytes@.subrange(*close_start as int, *close_end as int);
                    if open_ok {
                        assert(o =~= seq![LPAREN]);
                    } else if o == seq![LPAREN] {
                        assert(o.len() == 1);
                        assert(o[0] == LPAREN);
                        assert(bytes@[*open_start as int] == o[0]);
                    }
                    if close_ok {
                        assert(c =~= seq![RPAREN]);
                    } else if c == seq![RPAREN] {
                        assert(c.len() == 1);
                        assert(c[0] == RPAREN);
                        assert(bytes@[*close_start as int] == c[0]);
                    }
                    assert(open_ok == is_parens_slice(bytes@, *open_start as int, *open_end as int, LPAREN));
                    assert(close_ok == is_parens_slice(bytes@, *close_start as int, *close_end as int, RPAREN));
                }
                if !(open_ok && close_ok) {
                    return None;
                }
            }
            Some((*open_start, *open_end, *close_start))
        },
        ParenNode::Defined { start, end } => {
            let start = *start;
            let end = *end;
            if !(end - start >= 8 && crate::bytes::bytes_eq_range(bytes, start, start + 8, "defined?".as_bytes())) {
                return None;
            }
            let os = skip_line_blanks_fwd(bytes, start + 8, end);
            if os >= end || bytes[os] != LPAREN {
                return None;
            }
            let mut k = end;
            while k > start && bytes[k - 1] != RPAREN
                invariant
                    start <= k <= end <= bytes@.len(),
                    last_rparen(bytes@, start as int, k as int) == last_rparen(bytes@, start as int, end as int),
                decreases k,
            {
                k = k - 1;
            }
            if k == start {
                return None;
            }
            let cs = k - 1;
            if cs <= os {
                return None;
            }
            Some((os, os + 1, cs))
        },
        ParenNode::Other => None,
    }
}

impl SpaceInsideParens {
    pub fn name(&self) -> (r: &'static str)
        ensures
            r@ == "Layout/SpaceInsideParens"@,
    {
        "Layout/SpaceInsideParens"
    }

    pub fn supports_autocorrect(&self) -> (r: bool)
        ensures
            r,
    {
        true
    }

    /// Checks the parentheses of one node. `style` is the configured
    /// `EnforcedStyle`: `no_space`, `space` or `compact`.
    pub fn check_node(&self, source: &[u8], node: &ParenNode, style: &[u8], autocorrect: bool) -> (r: (Vec<Diagnostic>, Vec<Correction>))
        requires
            source@.len() < usize::MAX,
            paren_node_in_bounds(source@.len() as int, *node),
        ensures
            reports_events(source@, paren_events(source@, *node, style@), autocorrect, r.0@, r.1@),
    {
        let mut diags: Vec<Diagnostic> = Vec::new();
        let mut corrs: Vec<Correction> = Vec::new();
        let ghost d0 = diags@;
        let ghost c0 = corrs@;
        let (os, oe, cs) = match paren_offsets(node, source) {
            Some(t) => t,
            None => {
                return (diags, corrs);
            },
        };
        if cs <= oe {
            return (diags, corrs);
        }
        let mut all_ws = true;
        let mut has_nl = false;
        let mut k = oe;
        while k < cs
            invariant
                oe <= k <= cs <= source@.len(),
                all_ws == forall|j: int| oe <= j < k ==> spec_is_paren_whitespace(#[trigger] source@[j]),
                has_nl == exists|j: int| oe <= j < k && source@[j] == NEWLINE,
            decreases cs - k,
        {
            if !is_paren_whitespace(source[k]) {
                all_ws = false;
            }
            if source[k] == NEWLINE {
                has_nl = true;
            }
            k = k + 1;
        }
        let no_space = bytes_eq(style, "no_space".as_bytes());
        if all_ws {
            if no_space && has_nl {
                return (diags, corrs);
            }
            push_remove_offense(source, &mut diags, &mut corrs, autocorrect, oe, cs, PARENS_MSG);
            proof {
                assert(diags@.subrange(0, diags@.len() as int) =~= diags@);
                assert(corrs@.subrange(0, corrs@.len() as int) =~= corrs@);
            }
            return (diags, corrs);
        }
        let open_side = next_same_line_item(source, oe);
        let close_side = previous_same_line_code(source, cs);
        let is_parens = match node {
            ParenNode::Parentheses { .. } => true,
            _ => false,
        };
        let ignore = is_parens && command_form_prefix(source, os).is_some();
        let ghost cside = match close_side {
            Some(p) => Some(p as int),
            None => None::<int>,
        };
        let space = bytes_eq(style, "space".as_bytes());
        let compact = bytes_eq(style, "compact".as_bytes());
        let ghost first: Seq<Event>;
        let ghost second: Seq<Event>;
        if space || compact {
            if !ignore {
                check_missing_open_space(source, &mut diags, &mut corrs, autocorrect, &open_side, compact);
            } else {
                proof {
                    lemma_appends_nothing(source@, autocorrect, d0, c0);
                }
            }
            proof {
                first = if ignore { seq![] } else { missing_open_events(source@, open_side, compact) };
            }
            let ghost d1 = diags@;
            let ghost c1 = corrs@;
            check_missing_close_space(source, &mut diags, &mut corrs, autocorrect, close_side, cs, compact);
            proof {
                second = missing_close_events(source@, cside, cs as int, compact);
                lemma_appends_concat(source@, first, second, autocorrect, d0, c0, d1, c1, diags@, corrs@);
            }
        } else {
            if !ignore {
                check_extraneous_open_space(source, &mut diags, &mut corrs, autocorrect, oe, &open_side);
            } else {
                proof {
                    lemma_appends_nothing(source@, autocorrect, d0, c0);
                }
            }
            proof {
                first = if ignore { seq![] } else { extraneous_open_events(oe as int, open_side) };
            }
            let ghost d1 = diags@;
            let ghost c1 = corrs@;
            check_extraneous_close_space(source, &mut diags, &mut corrs, autocorrect, cs, close_side);
            proof {
                second = extraneous_close_events(cs as int, cside);
                lemma_appends_concat(source@, first, second, autocorrect, d0, c0, d1, c1, diags@, corrs@);
            }
        }
        proof {
            assert(first + second == paren_events(source@, *node, style@));
            assert(diags@.subrange(0, diags@.len() as int) =~= diags@);
            assert(corrs@.subrange(0, corrs@.len() as int) =~= corrs@);
        }
        (diags, corrs)
    }
}


/// The words after which a parenthesis opens an expression rather than
/// an argument list: `if unless while until case for return break next
/// redo retry then elsif when rescue super defined?`, and no other.
pub proof fn law_denied_command_prefixes_listed(w: Seq<u8>)
    ensures
        spec_denied_command_prefix(w) <==> (w == "if".spec_bytes() || w == "unless".spec_bytes() || w == "while".spec_bytes() || w == "until".spec_bytes() || w == "case".spec_bytes() || w == "for".spec_bytes() || w == "return".spec_bytes() || w == "break".spec_bytes() || w == "next".spec_bytes() || w == "redo".spec_bytes() || w == "retry".spec_bytes() || w == "then".spec_bytes() || w == "elsif".spec_bytes() || w == "when".spec_bytes() || w == "rescue".spec_bytes() || w == "super".spec_bytes() || w == "defined?".spec_bytes()),
{
}

} // verus!
