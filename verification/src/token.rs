//! Tokens: the smallest lexical units, each with a kind, its source text
//! (lexeme), an optional literal value, and the source line it starts on.

use vstd::prelude::*;

verus! {

/// The closed set of token kinds: punctuation and operators, literals,
/// keywords, and the end-of-input sentinel.
#[allow(non_camel_case_types)]
#[derive(Debug, Clone, Copy, PartialEq, Eq, Structural)]
pub enum TokenType {
    // Single-character tokens.
    LEFT_PAREN,
    RIGHT_PAREN,
    LEFT_BRACE,
    RIGHT_BRACE,
    COMMA,
    DOT,
    MINUS,
    PLUS,
    SEMICOLON,
    SLASH,
    STAR,
    // One or two character tokens.
    BANG,
    BANG_EQUAL,
    EQUAL,
    EQUAL_EQUAL,
    GREATER,
    GREATER_EQUAL,
    LESS,
    LESS_EQUAL,
    // Literals.
    IDENTIFIER,
    STRING,
    NUMBER,
    // Keywords.
    AND,
    CLASS,
    ELSE,
    FALSE,
    FUN,
    FOR,
    IF,
    NIL,
    OR,
    PRINT,
    RETURN,
    SUPER,
    THIS,
    TRUE,
    VAR,
    WHILE,
    EOF,
}

/// A runtime value. Text is carried as a sequence of characters; numbers are
/// 64-bit signed integers. A `Function` value pairs the declaration's
/// parameter list and body with the index of the scope record captured at the
/// point of declaration (its lexical closure).
#[derive(Debug)]
pub enum Object {
    String(Vec<char>),
    Digit(i64),
    Bool(bool),
    Function(Vec<Vec<char>>, Vec<crate::ast::Statement>, usize),
    Nil,
}

/// One token of the source text.
#[derive(Debug)]
pub struct Token {
    pub tag: TokenType,
    pub lexeme: Vec<char>,
    pub literal: Option<Object>,
    pub line: usize,
}

impl Token {
    /// Builds a token from its parts.
    pub fn new(tag: TokenType, lexeme: Vec<char>, literal: Option<Object>, line: usize) -> (t:
        Token)
        ensures
            t.tag == tag,
            t.lexeme@ == lexeme@,
            t.literal == literal,
            t.line == line,
    {
        Token { tag, lexeme, literal, line }
    }
}

/// The keyword table as a mathematical function: the token kind reserved for
/// a piece of text, if any.
pub open spec fn spec_keyword(s: Seq<char>) -> Option<TokenType> {
    if s == "and"@ {
        Option::Some(TokenType::AND)
    } else if s == "class"@ {
        Option::Some(TokenType::CLASS)
    } else if s == "else"@ {
        Option::Some(TokenType::ELSE)
    } else if s == "false"@ {
        Option::Some(TokenType::FALSE)
    } else if s == "for"@ {
        Option::Some(TokenType::FOR)
    } else if s == "fun"@ {
        Option::Some(TokenType::FUN)
    } else if s == "if"@ {
        Option::Some(TokenType::IF)
    } else if s == "nil"@ {
        Option::Some(TokenType::NIL)
    } else if s == "or"@ {
        Option::Some(TokenType::OR)
    } else if s == "print"@ {
        Option::Some(TokenType::PRINT)
    } else if s == "return"@ {
        Option::Some(TokenType::RETURN)
    } else if s == "super"@ {
        Option::Some(TokenType::SUPER)
    } else if s == "this"@ {
        Option::Some(TokenType::THIS)
    } else if s == "true"@ {
        Option::Some(TokenType::TRUE)
    } else if s == "var"@ {
        Option::Some(TokenType::VAR)
    } else if s == "while"@ {
        Option::Some(TokenType::WHILE)
    } else {
        Option::None
    }
}

/// Compares a piece of text against one keyword.
fn chars_match(text: &Vec<char>, word: &str) -> (r: bool)
    ensures
        r == (text@ == word@),
{
    let n = word.unicode_len();
    if text.len() != n {
        proof {
            assert(text@.len() != word@.len());
        }
        return false;
    }
    let mut i: usize = 0;
    while i < n
        invariant
            n == word@.len(),
            text@.len() == n,
            0 <= i <= n,
            forall|j: int| 0 <= j < i ==> text@[j] == word@[j],
        decreases n - i,
    {
        if text[i] != word.get_char(i) {
            proof {
                assert(text@[i as int] != word@[i as int]);
            }
            return false;
        }
        i += 1;
    }
    proof {
        assert(text@ =~= word@);
    }
    true
}

/// Compares two pieces of text.
pub fn chars_eq(a: &Vec<char>, b: &Vec<char>) -> (r: bool)
    ensures
        r == (a@ == b@),
{
    if a.len() != b.len() {
        proof {
            assert(a@.len() != b@.len());
        }
        return false;
    }
    let n = a.len();
    let mut i: usize = 0;
    while i < n
        invariant
            n == a@.len(),
            b@.len() == n,
            0 <= i <= n,
            forall|j: int| 0 <= j < i ==> a@[j] == b@[j],
        decreases n - i,
    {
        if a[i] != b[i] {
            proof {
                assert(a@[i as int] != b@[i as int]);
            }
            return false;
        }
        i += 1;
    }
    proof {
        assert(a@ =~= b@);
    }
    true
}

/// Copies a piece of text.
pub fn clone_chars(v: &Vec<char>) -> (r: Vec<char>)
    ensures
        r@ == v@,
{
    let mut r: Vec<char> = Vec::new();
    let n = v.len();
    let mut i: usize = 0;
    while i < n
        invariant
            n == v@.len(),
            0 <= i <= n,
            r@ == v@.subrange(0, i as int),
        decreases n - i,
    {
        r.push(v[i]);
        proof {
            assert(r@ =~= v@.subrange(0, i + 1));
        }
        i += 1;
    }
    proof {
        assert(v@.subrange(0, n as int) =~= v@);
    }
    r
}

/// Looks a piece of text up in the keyword table.
pub fn keyword(text: &Vec<char>) -> (r: Option<TokenType>)
    ensures
        r == spec_keyword(text@),
{
    if chars_match(text, "and") {
        Option::Some(TokenType::AND)
    } else if chars_match(text, "class") {
        Option::Some(TokenType::CLASS)
    } else if chars_match(text, "else") {
        Option::Some(TokenType::ELSE)
    } else if chars_match(text, "false") {
        Option::Some(TokenType::FALSE)
    } else if chars_match(text, "for") {
        Option::Some(TokenType::FOR)
    } else if chars_match(text, "fun") {
        Option::Some(TokenType::FUN)
    } else if chars_match(text, "if") {
        Option::Some(TokenType::IF)
    } else if chars_match(text, "nil") {
        Option::Some(TokenType::NIL)
    } else if chars_match(text, "or") {
        Option::Some(TokenType::OR)
    } else if chars_match(text, "print") {
        Option::Some(TokenType::PRINT)
    } else if chars_match(text, "return") {
        Option::Some(TokenType::RETURN)
    } else if chars_match(text, "super") {
        Option::Some(TokenType::SUPER)
    } else if chars_match(text, "this") {
        Option::Some(TokenType::THIS)
    } else if chars_match(text, "true") {
        Option::Some(TokenType::TRUE)
    } else if chars_match(text, "var") {
        Option::Some(TokenType::VAR)
    } else if chars_match(text, "while") {
        Option::Some(TokenType::WHILE)
    } else {
        Option::None
    }
}

} // verus!
