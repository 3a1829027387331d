//! The lexer: one left-to-right, maximal-munch pass over the source
//! characters. Its meaning is the recursive scanner `spec_scan`; the
//! executable `Lexer` is proved to produce exactly that token sequence.

use vstd::prelude::*;
use crate::ast::{ObjectView, TokenView, toks_view};
use crate::errors::LexError;
use crate::token::{Object, Token, TokenType, spec_keyword, keyword};

verus! {

/// An ASCII decimal digit.
pub open spec fn is_digit(c: char) -> bool {
    ('0' as u32) <= (c as u32) && (c as u32) <= ('9' as u32)
}

/// An ASCII letter.
pub open spec fn is_alpha(c: char) -> bool {
    (('a' as u32) <= (c as u32) && (c as u32) <= ('z' as u32)) || (('A' as u32) <= (c as u32) && (c
        as u32) <= ('Z' as u32))
}

/// An ASCII letter or digit: what an identifier may continue with.
pub open spec fn is_alnum(c: char) -> bool {
    is_digit(c) || is_alpha(c)
}

/// The first position at or after `i` that does not carry a digit.
pub open spec fn digits_end(src: Seq<char>, i: int) -> int
    decreases src.len() - i,
{
    if 0 <= i < src.len() && is_digit(src[i]) {
        digits_end(src, i + 1)
    } else {
        i
    }
}

/// The first position at or after `i` that does not carry a letter or digit.
pub open spec fn alnum_end(src: Seq<char>, i: int) -> int
    decreases src.len() - i,
{
    if 0 <= i < src.len() && is_alnum(src[i]) {
        alnum_end(src, i + 1)
    } else {
        i
    }
}

/// The first position at or after `i` that carries a double quote, or the
/// end of the source if none does.
pub open spec fn string_end(src: Seq<char>, i: int) -> int
    decreases src.len() - i,
{
    if 0 <= i < src.len() {
        if src[i] == '"' {
            i
        } else {
            string_end(src, i + 1)
        }
    } else {
        i
    }
}

/// The first position at or after `i` that carries a newline, or the end of
/// the source if none does.
pub open spec fn comment_end(src: Seq<char>, i: int) -> int
    decreases src.len() - i,
{
    if 0 <= i < src.len() {
        if src[i] == '\n' {
            i
        } else {
            comment_end(src, i + 1)
        }
    } else {
        i
    }
}

/// The number of newlines in `src[i..j)`.
pub open spec fn nl_count(src: Seq<char>, i: int, j: int) -> int
    decreases j - i,
{
    if i < j {
        nl_count(src, i, j - 1) + if src[j - 1] == '\n' {
            1int
        } else {
            0int
        }
    } else {
        0
    }
}

/// The value of the digit run `src[i..j)` read in base ten.
pub open spec fn digits_val(src: Seq<char>, i: int, j: int) -> int
    decreases j - i,
{
    if i < j {
        digits_val(src, i, j - 1) * 10 + ((src[j - 1] as u32) - ('0' as u32))
    } else {
        0
    }
}

/// A nonnegative value clamped into `i64`: numeric literals too large for the
/// number type saturate at its maximum.
pub open spec fn clamp_val(v: int) -> i64 {
    if v > i64::MAX as int {
        i64::MAX
    } else {
        v as i64
    }
}

/// A token with no literal payload.
pub open spec fn punct(tag: TokenType, src: Seq<char>, i: int, j: int, line: int) -> TokenView {
    TokenView { tag, lexeme: src.subrange(i, j), literal: Option::None, line }
}

/// What one step of the scanner does at position `i`.
pub enum LexStep {
    /// A token was produced; the step ends at the given position and line.
    Tok(TokenView, int, int),
    /// Characters were consumed without a token (whitespace, a newline, a
    /// comment).
    Skip(int, int),
    /// A character outside every production: recorded as a recoverable
    /// diagnostic and skipped.
    Note(LexError, int, int),
    /// A fatal lexical error.
    Fail(LexError),
}

/// One step of the scanner: the token (or skip, diagnostic, or failure) that
/// maximal munch yields at position `i` on line `line`.
pub open spec fn next_lex(src: Seq<char>, i: int, line: int) -> LexStep
    recommends
        0 <= i < src.len(),
{
    let c = src[i];
    if c == '(' {
        LexStep::Tok(punct(TokenType::LEFT_PAREN, src, i, i + 1, line), i + 1, line)
    } else if c == ')' {
        LexStep::Tok(punct(TokenType::RIGHT_PAREN, src, i, i + 1, line), i + 1, line)
    } else if c == '{' {
        LexStep::Tok(punct(TokenType::LEFT_BRACE, src, i, i + 1, line), i + 1, line)
    } else if c == '}' {
        LexStep::Tok(punct(TokenType::RIGHT_BRACE, src, i, i + 1, line), i + 1, line)
    } else if c == ',' {
        LexStep::Tok(punct(TokenType::COMMA, src, i, i + 1, line), i + 1, line)
    } else if c == '.' {
        LexStep::Tok(punct(TokenType::DOT, src, i, i + 1, line), i + 1, line)
    } else if c == '-' {
        LexStep::Tok(punct(TokenType::MINUS, src, i, i + 1, line), i + 1, line)
    } else if c == '+' {
        LexStep::Tok(punct(TokenType::PLUS, src, i, i + 1, line), i + 1, line)
    } else if c == ';' {
        LexStep::Tok(punct(TokenType::SEMICOLON, src, i, i + 1, line), i + 1, line)
    } else if c == '*' {
        LexStep::Tok(punct(TokenType::STAR, src, i, i + 1, line), i + 1, line)
    } else if c == '!' {
        if i + 1 < src.len() && src[i + 1] == '=' {
            LexStep::Tok(punct(TokenType::BANG_EQUAL, src, i, i + 2, line), i + 2, line)
        } else {
            LexStep::Tok(punct(TokenType::BANG, src, i, i + 1, line), i + 1, line)
        }
    } else if c == '=' {
        if i + 1 < src.len() && src[i + 1] == '=' {
            LexStep::Tok(punct(TokenType::EQUAL_EQUAL, src, i, i + 2, line), i + 2, line)
        } else {
            LexStep::Tok(punct(TokenType::EQUAL, src, i, i + 1, line), i + 1, line)
        }
    } else if c == '<' {
        if i + 1 < src.len() && src[i + 1] == '=' {
            LexStep::Tok(punct(TokenType::LESS_EQUAL, src, i, i + 2, line), i + 2, line)
        } else {
            LexStep::Tok(punct(TokenType::LESS, src, i, i + 1, line), i + 1, line)
        }
    } else if c == '>' {
        if i + 1 < src.len() && src[i + 1] == '=' {
            LexStep::Tok(punct(TokenType::GREATER_EQUAL, src, i, i + 2, line), i + 2, line)
        } else {
            LexStep::Tok(punct(TokenType::GREATER, src, i, i + 1, line), i + 1, line)
        }
    } else if c == '/' {
        if i + 1 < src.len() && src[i + 1] == '/' {
            LexStep::Skip(comment_end(src, i + 2), line)
        } else {
            LexStep::Tok(punct(TokenType::SLASH, src, i, i + 1, line), i + 1, line)
        }
    } else if c == '"' {
        let e = string_end(src, i + 1);
        if e >= src.len() {
            LexStep::Fail(LexError::UnterminatedString { line: line as usize })
        } else {
            let l2 = line + nl_count(src, i + 1, e);
            LexStep::Tok(
                TokenView {
                    tag: TokenType::STRING,
                    lexeme: src.subrange(i, e + 1),
                    literal: Option::Some(ObjectView::String(src.subrange(i + 1, e))),
                    line: l2,
                },
                e + 1,
                l2,
            )
        }
    } else if c == '\n' {
        LexStep::Skip(i + 1, line + 1)
    } else if c == ' ' || c == '\r' || c == '\t' {
        LexStep::Skip(i + 1, line)
    } else if is_digit(c) {
        let j1 = digits_end(src, i);
        let jend = if j1 + 1 < src.len() && src[j1] == '.' && is_digit(src[j1 + 1]) {
            digits_end(src, j1 + 1)
        } else {
            j1
        };
        LexStep::Tok(
            TokenView {
                tag: TokenType::NUMBER,
                lexeme: src.subrange(i, jend),
                literal: Option::Some(ObjectView::Digit(clamp_val(digits_val(src, i, j1)))),
                line,
            },
            jend,
            line,
        )
    } else if is_alpha(c) {
        let j = alnum_end(src, i);
        let tag = match spec_keyword(src.subrange(i, j)) {
            Option::Some(k) => k,
            Option::None => TokenType::IDENTIFIER,
        };
        LexStep::Tok(punct(tag, src, i, j, line), j, line)
    } else {
        LexStep::Note(LexError::InvalidCharacter { ch: c, line: line as usize }, i + 1, line)
    }
}

/// Where a digit run ends: every position before it carries a digit, and it
/// is the end of the source or carries none.
pub proof fn lemma_digits_end(src: Seq<char>, i: int)
    requires
        0 <= i <= src.len(),
    ensures
        i <= digits_end(src, i) <= src.len(),
        forall|k: int| i <= k < digits_end(src, i) ==> is_digit(#[trigger] src[k]),
        digits_end(src, i) < src.len() ==> !is_digit(src[digits_end(src, i)]),
    decreases src.len() - i,
{
    if i < src.len() && is_digit(src[i]) {
        lemma_digits_end(src, i + 1);
    }
}

/// Where a letter-or-digit run ends.
pub proof fn lemma_alnum_end(src: Seq<char>, i: int)
    requires
        0 <= i <= src.len(),
    ensures
        i <= alnum_end(src, i) <= src.len(),
        forall|k: int| i <= k < alnum_end(src, i) ==> is_alnum(#[trigger] src[k]),
        alnum_end(src, i) < src.len() ==> !is_alnum(src[alnum_end(src, i)]),
    decreases src.len() - i,
{
    if i < src.len() && is_alnum(src[i]) {
        lemma_alnum_end(src, i + 1);
    }
}

/// Where the closing quote stands: no position before it carries one, and it
/// carries one unless the source ended first.
pub proof fn lemma_string_end(src: Seq<char>, i: int)
    requires
        0 <= i <= src.len(),
    ensures
        i <= string_end(src, i) <= src.len(),
        forall|k: int| i <= k < string_end(src, i) ==> #[trigger] src[k] != '"',
        string_end(src, i) < src.len() ==> src[string_end(src, i)] == '"',
    decreases src.len() - i,
{
    if i < src.len() && src[i] != '"' {
        lemma_string_end(src, i + 1);
    }
}

/// Where a line comment ends.
pub proof fn lemma_comment_end(src: Seq<char>, i: int)
    requires
        0 <= i <= src.len(),
    ensures
        i <= comment_end(src, i) <= src.len(),
        forall|k: int| i <= k < comment_end(src, i) ==> #[trigger] src[k] != '\n',
        comment_end(src, i) < src.len() ==> src[comment_end(src, i)] == '\n',
    decreases src.len() - i,
{
    if i < src.len() && src[i] != '\n' {
        lemma_comment_end(src, i + 1);
    }
}

/// A digit run that stops at `j` ends exactly there.
pub proof fn lemma_digits_end_is(src: Seq<char>, i: int, j: int)
    requires
        0 <= i <= j <= src.len(),
        forall|k: int| i <= k < j ==> is_digit(#[trigger] src[k]),
        j < src.len() ==> !is_digit(src[j]),
    ensures
        digits_end(src, i) == j,
    decreases j - i,
{
    if i < j {
        assert(is_digit(src[i]));
        lemma_digits_end_is(src, i + 1, j);
    }
}

/// A letter-or-digit run that stops at `j` ends exactly there.
pub proof fn lemma_alnum_end_is(src: Seq<char>, i: int, j: int)
    requires
        0 <= i <= j <= src.len(),
        forall|k: int| i <= k < j ==> is_alnum(#[trigger] src[k]),
        j < src.len() ==> !is_alnum(src[j]),
    ensures
        alnum_end(src, i) == j,
    decreases j - i,
{
    if i < j {
        assert(is_alnum(src[i]));
        lemma_alnum_end_is(src, i + 1, j);
    }
}

/// A quote-free stretch that stops at `j` puts the closing quote exactly
/// there.
pub proof fn lemma_string_end_is(src: Seq<char>, i: int, j: int)
    requires
        0 <= i <= j <= src.len(),
        forall|k: int| i <= k < j ==> #[trigger] src[k] != '"',
        j < src.len() ==> src[j] == '"',
    ensures
        string_end(src, i) == j,
    decreases j - i,
{
    if i < j {
        lemma_string_end_is(src, i + 1, j);
    }
}

/// A newline-free stretch that stops at `j` puts the comment's end exactly
/// there.
pub proof fn lemma_comment_end_is(src: Seq<char>, i: int, j: int)
    requires
        0 <= i <= j <= src.len(),
        forall|k: int| i <= k < j ==> #[trigger] src[k] != '\n',
        j < src.len() ==> src[j] == '\n',
    ensures
        comment_end(src, i) == j,
    decreases j - i,
{
    if i < j {
        lemma_comment_end_is(src, i + 1, j);
    }
}

/// Every step of the scanner consumes at least one character.
pub proof fn lemma_next_lex_advances(src: Seq<char>, i: int, line: int)
    requires
        0 <= i < src.len(),
    ensures
        match next_lex(src, i, line) {
            LexStep::Tok(_, j, _) => i < j <= src.len(),
            LexStep::Skip(j, _) => i < j <= src.len(),
            LexStep::Note(_, j, _) => i < j <= src.len(),
            LexStep::Fail(_) => true,
        },
{
    let c = src[i];
    if c == '/' && i + 1 < src.len() && src[i + 1] == '/' {
        lemma_comment_end(src, i + 2);
    }
    if c == '"' {
        lemma_string_end(src, i + 1);
    }
    if is_digit(c) {
        lemma_digits_end(src, i);
        let j1 = digits_end(src, i);
        if j1 + 1 < src.len() && src[j1] == '.' && is_digit(src[j1 + 1]) {
            lemma_digits_end(src, j1 + 1);
        }
    }
    if is_alpha(c) && !is_digit(c) {
        lemma_alnum_end(src, i);
        assert(is_alnum(src[i]));
    }
}

/// The whole scan from position `i` on line `line`: the tokens and the
/// recoverable diagnostics, ending with exactly one end-of-input token, or
/// the first fatal error.
pub open spec fn spec_scan(src: Seq<char>, i: int, line: int) -> Result<
    (Seq<TokenView>, Seq<LexError>),
    LexError,
>
    decreases src.len() - i,
    via spec_scan_decreases
{
    if !(0 <= i < src.len()) {
        Result::Ok(
            (
                seq![
                    TokenView {
                        tag: TokenType::EOF,
                        lexeme: Seq::empty(),
                        literal: Option::None,
                        line,
                    },
                ],
                Seq::empty(),
            ),
        )
    } else {
        match next_lex(src, i, line) {
            LexStep::Tok(t, j, l2) => match spec_scan(src, j, l2) {
                Result::Ok((ts, ds)) => Result::Ok((seq![t] + ts, ds)),
                Result::Err(e) => Result::Err(e),
            },
            LexStep::Skip(j, l2) => spec_scan(src, j, l2),
            LexStep::Note(d, j, l2) => match spec_scan(src, j, l2) {
                Result::Ok((ts, ds)) => Result::Ok((ts, seq![d] + ds)),
                Result::Err(e) => Result::Err(e),
            },
            LexStep::Fail(e) => Result::Err(e),
        }
    }
}

#[via_fn]
proof fn spec_scan_decreases(src: Seq<char>, i: int, line: int) {
    if 0 <= i < src.len() {
        lemma_next_lex_advances(src, i, line);
    }
}

/// There are no more newlines in a stretch than characters.
pub proof fn lemma_nl_count_bound(src: Seq<char>, i: int, j: int)
    requires
        i <= j,
    ensures
        0 <= nl_count(src, i, j) <= j - i,
    decreases j - i,
{
    if i < j {
        lemma_nl_count_bound(src, i, j - 1);
    }
}

/// A digit run's value is nonnegative.
pub proof fn lemma_digits_val_nonneg(src: Seq<char>, i: int, j: int)
    requires
        forall|k: int| i <= k < j ==> is_digit(#[trigger] src[k]),
    ensures
        digits_val(src, i, j) >= 0,
    decreases j - i,
{
    if i < j {
        lemma_digits_val_nonneg(src, i, j - 1);
        assert(is_digit(src[j - 1]));
    }
}

/// How the clamped value of a digit run grows by one digit: the executable
/// threshold test decides between exact growth and saturation.
pub proof fn lemma_clamp_step(v: int, d: int)
    requires
        v >= 0,
        0 <= d <= 9,
    ensures
        clamp_val(v) as int <= (i64::MAX - d) / 10 ==> clamp_val(v) as int * 10 + d
            <= i64::MAX && clamp_val(v * 10 + d) as int == clamp_val(v) as int * 10 + d,
        clamp_val(v) as int > (i64::MAX - d) / 10 ==> clamp_val(v * 10 + d) == i64::MAX,
{
    let m = i64::MAX as int;
    let q = (m - d) / 10;
    let r = (m - d) % 10;
    assert(m - d == 10 * q + r && 0 <= r < 10) by {
        vstd::arithmetic::div_mod::lemma_fundamental_div_mod(m - d, 10);
    }
    let cv = clamp_val(v) as int;
    if cv <= q {
        assert(10 * cv <= 10 * q) by (nonlinear_arith)
            requires
                cv <= q,
        ;
        if v <= m {
            assert(cv == v);
        } else {
            assert(cv == m);
            assert(10 * m <= 10 * q + r + d);
            assert(false) by (nonlinear_arith)
                requires
                    10 * m <= m,
                    m > 0,
            ;
        }
        assert(v * 10 + d <= m);
    } else {
        if v <= m {
            assert(cv == v);
            assert(10 * v >= 10 * (q + 1)) by (nonlinear_arith)
                requires
                    v >= q + 1,
            ;
            assert(v * 10 + d >= 10 * q + 10 + d > m);
        } else {
            assert(v * 10 + d > m) by (nonlinear_arith)
                requires
                    v > m,
                    m > 0,
                    d >= 0,
            ;
        }
    }
}

/// The scanner's state and its product.
pub struct Lexer {
    pub source: Vec<char>,
    pub tokens: Vec<Token>,
    pub diagnostics: Vec<LexError>,
    pub start: usize,
    pub current: usize,
    pub line: usize,
}

/// Collects the characters of a piece of borrowed text.
pub fn str_chars(s: &str) -> (v: Vec<char>)
    ensures
        v@ == s@,
{
    let n = s.unicode_len();
    let mut v: Vec<char> = Vec::new();
    let mut i: usize = 0;
    while i < n
        invariant
            n == s@.len(),
            0 <= i <= n,
            v@ == s@.subrange(0, i as int),
        decreases n - i,
    {
        v.push(s.get_char(i));
        proof {
            assert(v@ =~= s@.subrange(0, i + 1));
        }
        i += 1;
    }
    proof {
        assert(s@.subrange(0, n as int) =~= s@);
    }
    v
}

impl Lexer {
    /// A fresh scanner over the given source text.
    pub fn new(input: String) -> (lx: Lexer)
        ensures
            lx.source@ == input@,
            lx.tokens@.len() == 0,
            lx.diagnostics@.len() == 0,
            lx.start == 0,
            lx.current == 0,
            lx.line == 1,
    {
        Lexer {
            source: str_chars(input.as_str()),
            tokens: Vec::new(),
            diagnostics: Vec::new(),
            start: 0,
            current: 0,
            line: 1,
        }
    }

    /// Whether the whole source has been consumed.
    fn is_at_end(&self) -> (b: bool)
        ensures
            b == (self.current >= self.source@.len()),
    {
        self.current >= self.source.len()
    }

    /// Consumes and returns the character at the cursor.
    fn advance(&mut self) -> (c: char)
        requires
            old(self).current < old(self).source@.len(),
        ensures
            c == old(self).source@[old(self).current as int],
            final(self).current == old(self).current + 1,
            final(self).source == old(self).source,
            final(self).tokens == old(self).tokens,
            final(self).diagnostics == old(self).diagnostics,
            final(self).start == old(self).start,
            final(self).line == old(self).line,
    {
        let c = self.source[self.current];
        let n = self.source.len();
        proof {
            assert(self.current < n);
        }
        self.current = self.current + 1;
        c
    }

    /// The character at a given position.
    pub fn get_ch(&mut self, index: usize) -> (c: char)
        requires
            index < old(self).source@.len(),
        ensures
            c == old(self).source@[index as int],
            *final(self) == *old(self),
    {
        self.source[index]
    }

    /// The character at the cursor, or `'\0'` at the end of the source.
    pub fn peek(&mut self) -> (c: char)
        ensures
            *final(self) == *old(self),
            c == if old(self).current < old(self).source@.len() {
                old(self).source@[old(self).current as int]
            } else {
                '\0'
            },
    {
        if self.is_at_end() {
            return '\0';
        }
        self.get_ch(self.current)
    }

    /// The character after the cursor, or `'\0'` past the end of the source.
    pub fn peek_next(&mut self) -> (c: char)
        ensures
            *final(self) == *old(self),
            c == if old(self).current + 1 < old(self).source@.len() {
                old(self).source@[old(self).current + 1]
            } else {
                '\0'
            },
    {
        let n = self.source.len();
        if self.current >= n {
            return '\0';
        }
        if self.current + 1 >= n {
            return '\0';
        }
        self.get_ch(self.current + 1)
    }

    /// Copies the characters of the half-open range `[start, end)`.
    pub fn get_by_range(&self, start: usize, end: usize) -> (r: Vec<char>)
        requires
            start <= end <= self.source@.len(),
        ensures
            r@ == self.source@.subrange(start as int, end as int),
    {
        let mut r: Vec<char> = Vec::new();
        let mut i: usize = start;
        while i < end
            invariant
                start <= i <= end <= self.source@.len(),
                r@ == self.source@.subrange(start as int, i as int),
            decreases end - i,
        {
            r.push(self.source[i]);
            proof {
                assert(r@ =~= self.source@.subrange(start as int, i + 1));
            }
            i += 1;
        }
        r
    }

    /// Consumes the character at the cursor if it is the expected one.
    fn expect(&mut self, expected: char) -> (b: bool)
        ensures
            final(self).source == old(self).source,
            final(self).tokens == old(self).tokens,
            final(self).diagnostics == old(self).diagnostics,
            final(self).start == old(self).start,
            final(self).line == old(self).line,
            b == (old(self).current < old(self).source@.len() && old(self).source@[old(
                self,
            ).current as int] == expected),
            b ==> final(self).current == old(self).current + 1,
            !b ==> final(self).current == old(self).current,
    {
        if self.is_at_end() {
            return false;
        }
        if self.get_ch(self.current) != expected {
            return false;
        }
        let n = self.source.len();
        proof {
            assert(self.current < n);
        }
        self.current = self.current + 1;
        true
    }

    /// Appends one token whose lexeme is the text between `start` and the
    /// cursor, carrying the given literal, on the current line.
    fn add_token(&mut self, tag: TokenType, literal: Option<Object>)
        requires
            old(self).start <= old(self).current <= old(self).source@.len(),
        ensures
            final(self).source == old(self).source,
            final(self).diagnostics == old(self).diagnostics,
            final(self).start == old(self).start,
            final(self).current == old(self).current,
            final(self).line == old(self).line,
            toks_view(final(self).tokens@) == toks_view(old(self).tokens@).push(
                TokenView {
                    tag,
                    lexeme: old(self).source@.subrange(
                        old(self).start as int,
                        old(self).current as int,
                    ),
                    literal: match literal {
                        Option::Some(o) => Option::Some(o@),
                        Option::None => Option::None,
                    },
                    line: old(self).line as int,
                },
            ),
    {
        let text = self.get_by_range(self.start, self.current);
        let ghost oldtoks = self.tokens@;
        let t = Token { tag, lexeme: text, literal, line: self.line };
        self.tokens.push(t);
        proof {
            assert(self.tokens@.subrange(0, self.tokens@.len() - 1) =~= oldtoks);
            assert(toks_view(self.tokens@) == toks_view(oldtoks).push(crate::ast::tok_view(t)));
        }
    }

    /// Scans one step at the cursor: one token, one skipped stretch, or one
    /// recorded diagnostic, exactly as `next_lex` says; fails exactly when
    /// `next_lex` fails.
    #[verifier::rlimit(30)]
    fn scan_token(&mut self) -> (r: Result<(), LexError>)
        requires
            old(self).start == old(self).current,
            old(self).current < old(self).source@.len(),
            old(self).source@.len() < usize::MAX - 1,
            old(self).line <= 1 + old(self).current,
            old(self).line >= 1,
        ensures
            final(self).source@ == old(self).source@,
            final(self).start == old(self).start,
            final(self).line <= 1 + final(self).current,
            final(self).line >= 1,
            final(self).current <= final(self).source@.len(),
            ({
                let step = next_lex(
                    old(self).source@,
                    old(self).current as int,
                    old(self).line as int,
                );
                match r {
                    Result::Ok(()) => match step {
                        LexStep::Tok(t, j, l2) => {
                            &&& toks_view(final(self).tokens@) == toks_view(
                                old(self).tokens@,
                            ).push(t)
                            &&& final(self).diagnostics@ == old(self).diagnostics@
                            &&& final(self).current == j
                            &&& final(self).line == l2
                        },
                        LexStep::Skip(j, l2) => {
                            &&& final(self).tokens@ == old(self).tokens@
                            &&& final(self).diagnostics@ == old(self).diagnostics@
                            &&& final(self).current == j
                            &&& final(self).line == l2
                        },
                        LexStep::Note(d, j, l2) => {
                            &&& final(self).tokens@ == old(self).tokens@
                            &&& final(self).diagnostics@ == old(self).diagnostics@.push(d)
                            &&& final(self).current == j
                            &&& final(self).line == l2
                        },
                        LexStep::Fail(_) => false,
                    },
                    Result::Err(e) => step == LexStep::Fail(e),
                }
            }),
    {
        let ghost src = old(self).source@;
        let ghost i0 = old(self).current as int;
        let ghost l0 = old(self).line as int;
        let c = self.advance();
        if c == '(' {
            self.add_token(TokenType::LEFT_PAREN, Option::None);
            Result::Ok(())
        } else if c == ')' {
            self.add_token(TokenType::RIGHT_PAREN, Option::None);
            Result::Ok(())
        } else if c == '{' {
            self.add_token(TokenType::LEFT_BRACE, Option::None);
            Result::Ok(())
        } else if c == '}' {
            self.add_token(TokenType::RIGHT_BRACE, Option::None);
            Result::Ok(())
        } else if c == ',' {
            self.add_token(TokenType::COMMA, Option::None);
            Result::Ok(())
        } else if c == '.' {
            self.add_token(TokenType::DOT, Option::None);
            Result::Ok(())
        } else if c == '-' {
            self.add_token(TokenType::MINUS, Option::None);
            Result::Ok(())
        } else if c == '+' {
            self.add_token(TokenType::PLUS, Option::None);
            Result::Ok(())
        } else if c == ';' {
            self.add_token(TokenType::SEMICOLON, Option::None);
            Result::Ok(())
        } else if c == '*' {
            self.add_token(TokenType::STAR, Option::None);
            Result::Ok(())
        } else if c == '!' {
            let two = self.expect('=');
            self.add_token(
                if two {
                    TokenType::BANG_EQUAL
                } else {
                    TokenType::BANG
                },
                Option::None,
            );
            Result::Ok(())
        } else if c == '=' {
            let two = self.expect('=');
            self.add_token(
                if two {
                    TokenType::EQUAL_EQUAL
                } else {
                    TokenType::EQUAL
                },
                Option::None,
            );
            Result::Ok(())
        } else if c == '<' {
            let two = self.expect('=');
            self.add_token(
                if two {
                    TokenType::LESS_EQUAL
                } else {
                    TokenType::LESS
                },
                Option::None,
            );
            Result::Ok(())
        } else if c == '>' {
            let two = self.expect('=');
            self.add_token(
                if two {
                    TokenType::GREATER_EQUAL
                } else {
                    TokenType::GREATER
                },
                Option::None,
            );
            Result::Ok(())
        } else if c == '/' {
            if self.expect('/') {
                // A comment runs to the end of the line and is discarded.
                loop
                    invariant
                        self.source@ == src,
                        self.tokens == old(self).tokens,
                        self.diagnostics == old(self).diagnostics,
                        self.start == old(self).start,
                        self.line == old(self).line,
                        i0 + 2 <= self.current <= src.len(),
                        forall|k: int| i0 + 2 <= k < self.current ==> #[trigger] src[k] != '\n',
                    ensures
                        self.source@ == src,
                        self.tokens == old(self).tokens,
                        self.diagnostics == old(self).diagnostics,
                        self.start == old(self).start,
                        self.line == old(self).line,
                        i0 + 2 <= self.current <= src.len(),
                        forall|k: int| i0 + 2 <= k < self.current ==> #[trigger] src[k] != '\n',
                        self.current == src.len() || src[self.current as int] == '\n',
                    decreases src.len() - self.current,
                {
                    if self.is_at_end() {
                        break ;
                    }
                    let p = self.peek();
                    if p == '\n' {
                        break ;
                    }
                    self.advance();
                }
                proof {
                    lemma_comment_end_is(src, i0 + 2, self.current as int);
                }
                Result::Ok(())
            } else {
                self.add_token(TokenType::SLASH, Option::None);
                Result::Ok(())
            }
        } else if c == '"' {
            let startline = self.line;
            loop
                invariant
                    self.source@ == src,
                    src.len() < usize::MAX - 1,
                    self.tokens == old(self).tokens,
                    self.diagnostics == old(self).diagnostics,
                    self.start == old(self).start,
                    startline == l0,
                    l0 <= 1 + i0,
                    l0 >= 1,
                    i0 + 1 <= self.current <= src.len(),
                    forall|k: int| i0 + 1 <= k < self.current ==> #[trigger] src[k] != '"',
                    self.line == l0 + nl_count(src, i0 + 1, self.current as int),
                ensures
                    self.source@ == src,
                    self.tokens == old(self).tokens,
                    self.diagnostics == old(self).diagnostics,
                    self.start == old(self).start,
                    i0 + 1 <= self.current <= src.len(),
                    forall|k: int| i0 + 1 <= k < self.current ==> #[trigger] src[k] != '"',
                    self.line == l0 + nl_count(src, i0 + 1, self.current as int),
                    self.current == src.len() || src[self.current as int] == '"',
                decreases src.len() - self.current,
            {
                proof {
                    lemma_nl_count_bound(src, i0 + 1, self.current as int);
                }
                if self.is_at_end() {
                    break ;
                }
                let p = self.peek();
                if p == '"' {
                    break ;
                }
                if p == '\n' {
                    self.line = self.line + 1;
                }
                self.advance();
            }
            proof {
                lemma_string_end_is(src, i0 + 1, self.current as int);
                lemma_nl_count_bound(src, i0 + 1, self.current as int);
            }
            if self.is_at_end() {
                return Result::Err(LexError::UnterminatedString { line: startline });
            }
            self.advance();
            let text = self.get_by_range(self.start + 1, self.current - 1);
            self.add_token(TokenType::STRING, Option::Some(Object::String(text)));
            Result::Ok(())
        } else if c == '\n' {
            self.line = self.line + 1;
            Result::Ok(())
        } else if c == ' ' || c == '\r' || c == '\t' {
            Result::Ok(())
        } else if is_digit_ch(c) {
            // The run of digits before any decimal point.
            loop
                invariant
                    self.source@ == src,
                    self.tokens == old(self).tokens,
                    self.diagnostics == old(self).diagnostics,
                    self.start == old(self).start,
                    self.line == old(self).line,
                    i0 + 1 <= self.current <= src.len(),
                    forall|k: int| i0 <= k < self.current ==> is_digit(#[trigger] src[k]),
                ensures
                    self.source@ == src,
                    self.tokens == old(self).tokens,
                    self.diagnostics == old(self).diagnostics,
                    self.start == old(self).start,
                    self.line == old(self).line,
                    i0 + 1 <= self.current <= src.len(),
                    forall|k: int| i0 <= k < self.current ==> is_digit(#[trigger] src[k]),
                    self.current == src.len() || !is_digit(src[self.current as int]),
                decreases src.len() - self.current,
            {
                let p = self.peek();
                if !is_digit_ch(p) {
                    break ;
                }
                proof {
                    assert(self.current < src.len());
                }
                self.advance();
            }
            let j1 = self.current;
            proof {
                lemma_digits_end_is(src, i0, j1 as int);
            }
            // The literal's value: the integer part, saturated at the
            // largest number value.
            let mut acc: i64 = 0;
            let mut k: usize = self.start;
            while k < j1
                invariant
                    self.source@ == src,
                    i0 <= k <= j1 <= src.len(),
                    i0 == self.start,
                    forall|kk: int| i0 <= kk < j1 ==> is_digit(#[trigger] src[kk]),
                    acc >= 0,
                    acc == clamp_val(digits_val(src, i0, k as int)),
                decreases j1 - k,
            {
                let ch = self.source[k];
                let d32 = (ch as u32) - ('0' as u32);
                let d = d32 as i64;
                let ghost v = digits_val(src, i0, k as int);
                proof {
                    lemma_digits_val_nonneg(src, i0, k as int);
                    lemma_clamp_step(v, d as int);
                }
                let mu = i64::MAX as u64;
                let t = (mu - (d as u64)) / 10;
                if (acc as u64) > t {
                    acc = i64::MAX;
                } else {
                    acc = acc * 10 + d;
                }
                k = k + 1;
            }
            // A decimal point followed by digits extends the lexeme; the
            // fraction is not part of the integer value.
            let p = self.peek();
            let pn = self.peek_next();
            if p == '.' && is_digit_ch(pn) {
                self.advance();
                loop
                    invariant
                        self.source@ == src,
                        self.tokens == old(self).tokens,
                        self.diagnostics == old(self).diagnostics,
                        self.start == old(self).start,
                        self.line == old(self).line,
                        j1 + 1 <= self.current <= src.len(),
                        forall|kk: int|
                            j1 + 1 <= kk < self.current ==> is_digit(#[trigger] src[kk]),
                    ensures
                        self.source@ == src,
                        self.tokens == old(self).tokens,
                        self.diagnostics == old(self).diagnostics,
                        self.start == old(self).start,
                        self.line == old(self).line,
                        j1 + 1 <= self.current <= src.len(),
                        forall|kk: int|
                            j1 + 1 <= kk < self.current ==> is_digit(#[trigger] src[kk]),
                        self.current == src.len() || !is_digit(src[self.current as int]),
                    decreases src.len() - self.current,
                {
                    let p2 = self.peek();
                    if !is_digit_ch(p2) {
                        break ;
                    }
                    self.advance();
                }
                proof {
                    lemma_digits_end_is(src, j1 + 1, self.current as int);
                }
            }
            self.add_token(TokenType::NUMBER, Option::Some(Object::Digit(acc)));
            Result::Ok(())
        } else if is_alpha_ch(c) {
            loop
                invariant
                    self.source@ == src,
                    self.tokens == old(self).tokens,
                    self.diagnostics == old(self).diagnostics,
                    self.start == old(self).start,
                    self.line == old(self).line,
                    i0 + 1 <= self.current <= src.len(),
                    forall|k: int| i0 <= k < self.current ==> is_alnum(#[trigger] src[k]),
                ensures
                    self.source@ == src,
                    self.tokens == old(self).tokens,
                    self.diagnostics == old(self).diagnostics,
                    self.start == old(self).start,
                    self.line == old(self).line,
                    i0 + 1 <= self.current <= src.len(),
                    forall|k: int| i0 <= k < self.current ==> is_alnum(#[trigger] src[k]),
                    self.current == src.len() || !is_alnum(src[self.current as int]),
                decreases src.len() - self.current,
            {
                let p = self.peek();
                if !is_alnum_ch(p) {
                    break ;
                }
                self.advance();
            }
            proof {
                lemma_alnum_end_is(src, i0, self.current as int);
            }
            let text = self.get_by_range(self.start, self.current);
            match keyword(&text) {
                Option::Some(tag) => self.add_token(tag, Option::None),
                Option::None => self.add_token(TokenType::IDENTIFIER, Option::None),
            }
            Result::Ok(())
        } else {
            // A character outside every production: a recoverable
            // diagnostic, then scanning goes on.
            self.diagnostics.push(LexError::InvalidCharacter { ch: c, line: self.line });
            Result::Ok(())
        }
    }

    /// Scans the whole source into `tokens`, ending with exactly one
    /// end-of-input token; recoverable diagnostics are gathered aside. The
    /// result is exactly what the recursive scanner says.
    pub fn scan_tokens(&mut self) -> (r: Result<(), LexError>)
        requires
            old(self).tokens@.len() == 0,
            old(self).diagnostics@.len() == 0,
            old(self).start == 0,
            old(self).current == 0,
            old(self).line == 1,
            old(self).source@.len() < usize::MAX - 1,
        ensures
            final(self).source@ == old(self).source@,
            match r {
                Result::Ok(()) => spec_scan(old(self).source@, 0, 1) == Result::<
                    (Seq<TokenView>, Seq<LexError>),
                    LexError,
                >::Ok((toks_view(final(self).tokens@), final(self).diagnostics@)),
                Result::Err(e) => spec_scan(old(self).source@, 0, 1) == Result::<
                    (Seq<TokenView>, Seq<LexError>),
                    LexError,
                >::Err(e),
            },
    {
        let ghost src = old(self).source@;
        while self.current < self.source.len()
            invariant
                self.source@ == src,
                src == old(self).source@,
                src.len() < usize::MAX - 1,
                self.current <= src.len(),
                self.line >= 1,
                self.line <= 1 + self.current,
                match spec_scan(src, self.current as int, self.line as int) {
                    Result::Ok((ts, ds)) => spec_scan(src, 0, 1) == Result::<
                        (Seq<TokenView>, Seq<LexError>),
                        LexError,
                    >::Ok((toks_view(self.tokens@) + ts, self.diagnostics@ + ds)),
                    Result::Err(e) => spec_scan(src, 0, 1) == Result::<
                        (Seq<TokenView>, Seq<LexError>),
                        LexError,
                    >::Err(e),
                },
            decreases src.len() - self.current,
        {
            self.start = self.current;
            let ghost pre = *self;
            let step_result = self.scan_token();
            proof {
                lemma_next_lex_advances(src, pre.current as int, pre.line as int);
            }
            match step_result {
                Result::Err(e) => {
                    return Result::Err(e);
                },
                Result::Ok(()) => {
                    proof {
                        let step = next_lex(src, pre.current as int, pre.line as int);
                        match step {
                            LexStep::Tok(t, j, l2) => {
                                match spec_scan(src, j, l2) {
                                    Result::Ok((ts, ds)) => {
                                        assert(toks_view(self.tokens@) + ts =~= toks_view(
                                            pre.tokens@,
                                        ) + (seq![t] + ts));
                                    },
                                    Result::Err(_) => {},
                                }
                            },
                            LexStep::Skip(j, l2) => {},
                            LexStep::Note(d, j, l2) => {
                                match spec_scan(src, j, l2) {
                                    Result::Ok((ts, ds)) => {
                                        assert(self.diagnostics@ + ds =~= pre.diagnostics@ + (
                                        seq![d] + ds));
                                    },
                                    Result::Err(_) => {},
                                }
                            },
                            LexStep::Fail(_) => {
                                assert(false);
                            },
                        }
                    }
                },
            }
        }
        let ghost pretoks = self.tokens@;
        let eof = Token { tag: TokenType::EOF, lexeme: Vec::new(), literal: Option::None, line: self.line };
        self.tokens.push(eof);
        proof {
            assert(self.tokens@.subrange(0, self.tokens@.len() - 1) =~= pretoks);
            let ev = TokenView {
                tag: TokenType::EOF,
                lexeme: Seq::empty(),
                literal: Option::None,
                line: self.line as int,
            };
            assert(crate::ast::tok_view(eof).lexeme =~= ev.lexeme);
            assert(toks_view(self.tokens@) == toks_view(pretoks).push(ev));
            assert(toks_view(pretoks) + seq![ev] =~= toks_view(self.tokens@));
            assert(self.diagnostics@ + Seq::<LexError>::empty() =~= self.diagnostics@);
        }
        Result::Ok(())
    }
}

/// What the scanner produces is well formed: the sequence ends with exactly
/// one end-of-input token, and literal tokens carry literals of the right
/// shape.
pub proof fn lemma_scan_wf(src: Seq<char>, i: int, line: int)
    ensures
        (spec_scan(src, i, line) matches Result::Ok((ts, ds)) ==> crate::parser::toks_wf(ts)),
    decreases src.len() - i,
{
    if !(0 <= i < src.len()) {
    } else {
        lemma_next_lex_advances(src, i, line);
        match next_lex(src, i, line) {
            LexStep::Tok(t, j, l2) => {
                lemma_scan_wf(src, j, l2);
                match spec_scan(src, j, l2) {
                    Result::Ok((ts2, _)) => {
                        let ts = seq![t] + ts2;
                        assert(ts[0] == t);
                        assert(forall|k: int| 1 <= k < ts.len() ==> #[trigger] ts[k] == ts2[k - 1]);
                        assert(t.tag != TokenType::EOF);
                        assert(t.tag == TokenType::NUMBER ==> (t.literal matches Option::Some(
                            ObjectView::Digit(_),
                        )));
                        assert(t.tag == TokenType::STRING ==> (t.literal matches Option::Some(
                            ObjectView::String(_),
                        )));
                    },
                    Result::Err(_) => {},
                }
            },
            LexStep::Skip(j, l2) => {
                lemma_scan_wf(src, j, l2);
            },
            LexStep::Note(_, j, l2) => {
                lemma_scan_wf(src, j, l2);
            },
            LexStep::Fail(_) => {},
        }
    }
}

/// An ASCII decimal digit, decided in executable code.
pub fn is_digit_ch(c: char) -> (b: bool)
    ensures
        b == is_digit(c),
{
    let u = c as u32;
    ('0' as u32) <= u && u <= ('9' as u32)
}

/// An ASCII letter, decided in executable code.
pub fn is_alpha_ch(c: char) -> (b: bool)
    ensures
        b == is_alpha(c),
{
    let u = c as u32;
    (('a' as u32) <= u && u <= ('z' as u32)) || (('A' as u32) <= u && u <= ('Z' as u32))
}

/// An ASCII letter or digit, decided in executable code.
pub fn is_alnum_ch(c: char) -> (b: bool)
    ensures
        b == is_alnum(c),
{
    is_digit_ch(c) || is_alpha_ch(c)
}

} // verus!
