use vstd::prelude::*;

use crate::token::{keyword_of, TokenModel, TokenType};

verus! {

/// Whitespace that is skipped without affecting the line count.
pub open spec fn is_blank(c: char) -> bool {
    c == ' ' || c == '\t' || c == '\r'
}

pub open spec fn is_digit(c: char) -> bool {
    '0' <= c && c <= '9'
}

/// The characters an identifier may start with.
pub open spec fn is_alpha(c: char) -> bool {
    ('a' <= c && c <= 'z') || ('A' <= c && c <= 'Z') || c == '_'
}

/// The characters an identifier may continue with.
pub open spec fn is_ident_char(c: char) -> bool {
    is_alpha(c) || is_digit(c)
}

/// A sentinel terminator lies at or after `pos`: the precondition under
/// which the scanner can always reach its end-of-input branch.
pub open spec fn has_sentinel(src: Seq<char>, pos: int) -> bool {
    exists|i: int| pos <= i < src.len() && src[i] == '\0'
}

/// The first position at or after `pos` holding a newline or the sentinel:
/// where a `//` comment ends (the newline itself is not part of the comment).
pub open spec fn comment_end(src: Seq<char>, pos: int) -> int
    decreases src.len() - pos,
{
    if pos < 0 || pos >= src.len() {
        pos
    } else if src[pos] == '\n' || src[pos] == '\0' {
        pos
    } else {
        comment_end(src, pos + 1)
    }
}

pub proof fn lemma_comment_end(src: Seq<char>, pos: int)
    requires
        0 <= pos <= src.len(),
    ensures
        pos <= comment_end(src, pos) <= src.len(),
        forall|j: int| pos <= j < comment_end(src, pos) ==> src[j] != '\n' && src[j] != '\0',
        comment_end(src, pos) < src.len() ==> (src[comment_end(src, pos)] == '\n'
            || src[comment_end(src, pos)] == '\0'),
    decreases src.len() - pos,
{
    if pos < src.len() && src[pos] != '\n' && src[pos] != '\0' {
        lemma_comment_end(src, pos + 1);
    }
}

/// The position and line reached after skipping blanks, newlines and `//`
/// comments, starting from `pos` on line `line`. Newlines increment the
/// line count; comments run to the newline or sentinel without consuming it.
pub open spec fn skip_ws(src: Seq<char>, pos: int, line: int) -> (int, int)
    decreases src.len() - pos,
{
    if pos < 0 || pos >= src.len() {
        (pos, line)
    } else if is_blank(src[pos]) {
        skip_ws(src, pos + 1, line)
    } else if src[pos] == '\n' {
        skip_ws(src, pos + 1, line + 1)
    } else if src[pos] == '/' && pos + 1 < src.len() && src[pos + 1] == '/' {
        proof {
            lemma_comment_end(src, pos + 2);
        }
        skip_ws(src, comment_end(src, pos + 2), line)
    } else {
        (pos, line)
    }
}

/// The number of newline characters in `src[a..b]`.
pub open spec fn nl_count(src: Seq<char>, a: int, b: int) -> int
    decreases b - a,
{
    if a >= b {
        0
    } else {
        (if src[a] == '\n' {
            1int
        } else {
            0int
        }) + nl_count(src, a + 1, b)
    }
}

pub proof fn lemma_nl_count_bounds(src: Seq<char>, a: int, b: int)
    ensures
        0 <= nl_count(src, a, b),
        a <= b ==> nl_count(src, a, b) <= b - a,
    decreases b - a,
{
    if a < b {
        lemma_nl_count_bounds(src, a + 1, b);
    }
}

pub proof fn lemma_nl_count_split(src: Seq<char>, a: int, m: int, b: int)
    requires
        a <= m <= b,
    ensures
        nl_count(src, a, b) == nl_count(src, a, m) + nl_count(src, m, b),
    decreases m - a,
{
    if a < m {
        lemma_nl_count_split(src, a + 1, m, b);
    }
}

pub proof fn lemma_nl_count_zero(src: Seq<char>, a: int, b: int)
    requires
        forall|j: int| a <= j < b ==> src[j] != '\n',
    ensures
        nl_count(src, a, b) == 0,
    decreases b - a,
{
    if a < b {
        lemma_nl_count_zero(src, a + 1, b);
    }
}

pub proof fn lemma_skip_ws(src: Seq<char>, pos: int, line: int)
    requires
        0 <= pos <= src.len(),
    ensures
        pos <= skip_ws(src, pos, line).0 <= src.len(),
        forall|j: int| pos <= j < skip_ws(src, pos, line).0 ==> src[j] != '\0',
        skip_ws(src, pos, line).0 < src.len() ==> {
            let p = skip_ws(src, pos, line).0;
            !is_blank(src[p]) && src[p] != '\n' && !(src[p] == '/' && p + 1 < src.len() && src[p
                + 1] == '/')
        },
        skip_ws(src, pos, line).1 == line + nl_count(src, pos, skip_ws(src, pos, line).0),
    decreases src.len() - pos,
{
    if pos < src.len() {
        let c = src[pos];
        if is_blank(c) {
            lemma_skip_ws(src, pos + 1, line);
            lemma_nl_count_split(src, pos, pos + 1, skip_ws(src, pos, line).0);
        } else if c == '\n' {
            lemma_skip_ws(src, pos + 1, line + 1);
            lemma_nl_count_split(src, pos, pos + 1, skip_ws(src, pos, line).0);
        } else if c == '/' && pos + 1 < src.len() && src[pos + 1] == '/' {
            lemma_comment_end(src, pos + 2);
            let e = comment_end(src, pos + 2);
            lemma_skip_ws(src, e, line);
            lemma_nl_count_zero(src, pos, e);
            lemma_nl_count_split(src, pos, e, skip_ws(src, pos, line).0);
        }
    }
}

/// The position and line where a string literal's body ends: the first
/// `"` or sentinel at or after `pos`, counting the newlines in between.
pub open spec fn string_body_end(src: Seq<char>, pos: int, line: int) -> (int, int)
    decreases src.len() - pos,
{
    if pos < 0 || pos >= src.len() {
        (pos, line)
    } else if src[pos] == '"' || src[pos] == '\0' {
        (pos, line)
    } else if src[pos] == '\n' {
        string_body_end(src, pos + 1, line + 1)
    } else {
        string_body_end(src, pos + 1, line)
    }
}

pub proof fn lemma_string_body_end(src: Seq<char>, pos: int, line: int)
    requires
        0 <= pos <= src.len(),
    ensures
        pos <= string_body_end(src, pos, line).0 <= src.len(),
        forall|j: int|
            pos <= j < string_body_end(src, pos, line).0 ==> src[j] != '"' && src[j] != '\0',
        string_body_end(src, pos, line).0 < src.len() ==> (src[string_body_end(src, pos, line).0]
            == '"' || src[string_body_end(src, pos, line).0] == '\0'),
        string_body_end(src, pos, line).1 == line + nl_count(
            src,
            pos,
            string_body_end(src, pos, line).0,
        ),
        string_body_end(src, pos, line).1 - line <= string_body_end(src, pos, line).0 - pos,
    decreases src.len() - pos,
{
    lemma_nl_count_bounds(src, pos, string_body_end(src, pos, line).0);
    if pos < src.len() && src[pos] != '"' && src[pos] != '\0' {
        if src[pos] == '\n' {
            lemma_string_body_end(src, pos + 1, line + 1);
        } else {
            lemma_string_body_end(src, pos + 1, line);
        }
        lemma_nl_count_split(src, pos, pos + 1, string_body_end(src, pos, line).0);
    }
}

/// The end of a run of decimal digits starting at `pos`.
pub open spec fn digits_end(src: Seq<char>, pos: int) -> int
    decreases src.len() - pos,
{
    if pos < 0 || pos >= src.len() {
        pos
    } else if is_digit(src[pos]) {
        digits_end(src, pos + 1)
    } else {
        pos
    }
}

pub proof fn lemma_digits_end(src: Seq<char>, pos: int)
    requires
        0 <= pos <= src.len(),
    ensures
        pos <= digits_end(src, pos) <= src.len(),
        forall|j: int| pos <= j < digits_end(src, pos) ==> is_digit(src[j]),
        digits_end(src, pos) < src.len() ==> !is_digit(src[digits_end(src, pos)]),
    decreases src.len() - pos,
{
    if pos < src.len() && is_digit(src[pos]) {
        lemma_digits_end(src, pos + 1);
    }
}

/// The end of a run of identifier characters starting at `pos`.
pub open spec fn ident_end(src: Seq<char>, pos: int) -> int
    decreases src.len() - pos,
{
    if pos < 0 || pos >= src.len() {
        pos
    } else if is_ident_char(src[pos]) {
        ident_end(src, pos + 1)
    } else {
        pos
    }
}

pub proof fn lemma_ident_end(src: Seq<char>, pos: int)
    requires
        0 <= pos <= src.len(),
    ensures
        pos <= ident_end(src, pos) <= src.len(),
        forall|j: int| pos <= j < ident_end(src, pos) ==> is_ident_char(src[j]),
        ident_end(src, pos) < src.len() ==> !is_ident_char(src[ident_end(src, pos)]),
    decreases src.len() - pos,
{
    if pos < src.len() && is_ident_char(src[pos]) {
        lemma_ident_end(src, pos + 1);
    }
}

/// The outcome of scanning one token: the token produced, and the scanner's
/// cursor and line counter after it.
pub struct ScanOut {
    pub token: TokenModel,
    pub pos: int,
    pub line: int,
}

/// A token of kind `kind` spanning `start..pos` on line `line`.
pub open spec fn span_out(kind: TokenType, start: int, pos: int, line: int) -> ScanOut {
    ScanOut {
        token: TokenModel {
            kind,
            start,
            length: pos - start,
            line,
            message: Seq::<char>::empty(),
        },
        pos,
        line,
    }
}

/// An error token: no span, a message, the line the failure was observed on.
pub open spec fn error_out(message: Seq<char>, pos: int, line: int) -> ScanOut {
    ScanOut {
        token: TokenModel { kind: TokenType::Error, start: 0, length: message.len() as int, line, message },
        pos,
        line,
    }
}

/// A one- or two-character operator: `bare`, or `compound` when the next
/// character is `=`.
pub open spec fn two_char_out(
    src: Seq<char>,
    p: int,
    line: int,
    bare: TokenType,
    compound: TokenType,
) -> ScanOut {
    if p + 1 < src.len() && src[p + 1] == '=' {
        span_out(compound, p, p + 2, line)
    } else {
        span_out(bare, p, p + 1, line)
    }
}

/// The classification of the single token beginning at `pos0` on `line0`,
/// after skipping whitespace and comments: the token, and the cursor and
/// line left behind for the next scan.
pub open spec fn scan_spec(src: Seq<char>, pos0: int, line0: int) -> ScanOut {
    let pl = skip_ws(src, pos0, line0);
    let p = pl.0;
    let l = pl.1;
    if p >= src.len() {
        // not reached while a sentinel terminator lies ahead
        span_out(TokenType::Eof, p, p + 1, l)
    } else {
        let c = src[p];
        if c == '\0' {
            span_out(TokenType::Eof, p, p + 1, l)
        } else if c == '(' {
            span_out(TokenType::LeftParen, p, p + 1, l)
        } else if c == ')' {
            span_out(TokenType::RightParen, p, p + 1, l)
        } else if c == '{' {
            span_out(TokenType::LeftBrace, p, p + 1, l)
        } else if c == '}' {
            span_out(TokenType::RightBrace, p, p + 1, l)
        } else if c == ';' {
            span_out(TokenType::Semicolon, p, p + 1, l)
        } else if c == ',' {
            span_out(TokenType::Comma, p, p + 1, l)
        } else if c == '.' {
            span_out(TokenType::Dot, p, p + 1, l)
        } else if c == '-' {
            span_out(TokenType::Minus, p, p + 1, l)
        } else if c == '+' {
            span_out(TokenType::Plus, p, p + 1, l)
        } else if c == '/' {
            span_out(TokenType::Slash, p, p + 1, l)
        } else if c == '*' {
            span_out(TokenType::Star, p, p + 1, l)
        } else if c == '!' {
            two_char_out(src, p, l, TokenType::Bang, TokenType::BangEqual)
        } else if c == '=' {
            two_char_out(src, p, l, TokenType::Equal, TokenType::EqualEqual)
        } else if c == '<' {
            two_char_out(src, p, l, TokenType::Less, TokenType::LessEqual)
        } else if c == '>' {
            two_char_out(src, p, l, TokenType::Greater, TokenType::GreaterEqual)
        } else if c == '"' {
            let el = string_body_end(src, p + 1, l);
            let e = el.0;
            let l2 = el.1;
            if e >= src.len() || src[e] == '\0' {
                error_out("Unterminated String"@, e, l2)
            } else {
                span_out(TokenType::Str, p, e + 1, l2)
            }
        } else if is_digit(c) {
            let d1 = digits_end(src, p + 1);
            if d1 < src.len() && src[d1] == '.' && d1 + 1 < src.len() && is_digit(src[d1 + 1]) {
                span_out(TokenType::Number, p, digits_end(src, d1 + 1), l)
            } else {
                span_out(TokenType::Number, p, d1, l)
            }
        } else if is_alpha(c) {
            let e = ident_end(src, p + 1);
            span_out(keyword_of(src.subrange(p, e)), p, e, l)
        } else {
            error_out("Unexpected character."@, p + 1, l)
        }
    }
}

/// Line tracking: every token that carries a source span and is not a
/// string literal is reported on the starting line plus the number of
/// newline characters scanned before the token's first character. (A
/// string literal is reported on the line where it ends, since its body
/// may span lines; an error token carries no span.)
pub proof fn lemma_line_tracking(src: Seq<char>, pos: int, line: int)
    requires
        0 <= pos <= src.len(),
    ensures
        ({
            let r = scan_spec(src, pos, line);
            r.token.kind != TokenType::Error && r.token.kind != TokenType::Str
                ==> r.token.line == line + nl_count(src, pos, r.token.start)
        }),
{
    lemma_skip_ws(src, pos, line);
}

/// One scan always advances the cursor, and stays in bounds until the
/// end-of-input token consumes the sentinel.
pub proof fn lemma_scan_progress(src: Seq<char>, pos: int, line: int)
    requires
        0 <= pos <= src.len(),
    ensures
        pos < scan_spec(src, pos, line).pos,
        scan_spec(src, pos, line).token.kind != TokenType::Eof ==> scan_spec(src, pos, line).pos
            <= src.len(),
{
    lemma_skip_ws(src, pos, line);
    let p = skip_ws(src, pos, line).0;
    let l = skip_ws(src, pos, line).1;
    if p < src.len() {
        lemma_string_body_end(src, p + 1, l);
        lemma_digits_end(src, p + 1);
        let d1 = digits_end(src, p + 1);
        if d1 < src.len() {
            lemma_digits_end(src, d1 + 1);
        }
        lemma_ident_end(src, p + 1);
    }
}

/// Properties of one scan: the cursor strictly advances and stays in
/// bounds, a sentinel remains ahead until the terminating end-of-input
/// token, and the line counter advances by exactly the newlines consumed
/// (and so by no more than the characters consumed).
pub proof fn lemma_scan_props(src: Seq<char>, pos: int, line: int)
    requires
        0 <= pos <= src.len(),
        has_sentinel(src, pos),
    ensures
        pos < scan_spec(src, pos, line).pos,
        scan_spec(src, pos, line).pos <= src.len(),
        scan_spec(src, pos, line).token.kind != TokenType::Eof ==> has_sentinel(
            src,
            scan_spec(src, pos, line).pos,
        ),
        scan_spec(src, pos, line).line == line + nl_count(src, pos, scan_spec(src, pos, line).pos),
        scan_spec(src, pos, line).line - line <= scan_spec(src, pos, line).pos - pos,
{
    lemma_skip_ws(src, pos, line);
    let pl = skip_ws(src, pos, line);
    let p = pl.0;
    let l = pl.1;
    let r = scan_spec(src, pos, line);
    let i = choose|i: int| pos <= i < src.len() && src[i] == '\0';
    assert(p <= i);
    let c = src[p];
    lemma_nl_count_bounds(src, pos, p);
    if c == '"' {
        lemma_string_body_end(src, p + 1, l);
        let el = string_body_end(src, p + 1, l);
        let e = el.0;
        assert(e <= i);
        lemma_nl_count_zero(src, p, p + 1);
        lemma_nl_count_split(src, pos, p, p + 1);
        lemma_nl_count_split(src, pos, p + 1, e);
        if e >= src.len() || src[e] == '\0' {
            assert(src[e] == '\0');
            assert(has_sentinel(src, r.pos));
        } else {
            lemma_nl_count_zero(src, e, e + 1);
            lemma_nl_count_split(src, pos, e, e + 1);
            assert(e < i);
            assert(has_sentinel(src, r.pos));
        }
    } else if is_digit(c) && c != '\0' {
        lemma_digits_end(src, p + 1);
        let d1 = digits_end(src, p + 1);
        assert(d1 <= i);
        if d1 < src.len() && src[d1] == '.' && d1 + 1 < src.len() && is_digit(src[d1 + 1]) {
            lemma_digits_end(src, d1 + 1);
            let d2 = digits_end(src, d1 + 1);
            assert(d2 <= i);
            assert(d2 < src.len() ==> has_sentinel(src, r.pos));
            lemma_nl_count_zero(src, p, d2);
            lemma_nl_count_split(src, pos, p, d2);
        } else {
            assert(d1 <= i);
            lemma_nl_count_zero(src, p, d1);
            lemma_nl_count_split(src, pos, p, d1);
        }
    } else if is_alpha(c) && c != '\0' && !is_digit(c) {
        lemma_ident_end(src, p + 1);
        let e = ident_end(src, p + 1);
        assert(e <= i);
        lemma_nl_count_zero(src, p, e);
        lemma_nl_count_split(src, pos, p, e);
    } else {
        // end of input, punctuation, operators, or an unexpected character:
        // at most two characters are consumed, none of them a newline
        assert(r.pos <= p + 2);
        if r.pos == p + 2 {
            assert(src[p + 1] == '=');
        }
        assert(forall|j: int| p <= j < r.pos ==> src[j] != '\n');
        lemma_nl_count_zero(src, p, r.pos);
        lemma_nl_count_split(src, pos, p, r.pos);
        if r.token.kind != TokenType::Eof {
            assert(src[p] != '\0');
            assert(p < i);
            if r.pos == p + 2 {
                assert(src[p + 1] == '=');
                assert(p + 1 < i || (p + 1 == i && src[i] == '='));
                assert(has_sentinel(src, r.pos));
            } else {
                assert(has_sentinel(src, r.pos));
            }
        }
    }
}

} // verus!
