//! The tokenizer: a lazy, restartable scanner over the source characters.
//!
//! `spec_next_token` is the character-level specification: given the input
//! and a position it says which token is produced and where scanning stops.
//! `Lexer::next_token` is proved to follow it exactly.  Whitespace and line
//! comments are skipped; an unrecognized character (and a numeric literal
//! too large for a 64-bit integer) degrades to the end-of-input token, the
//! reference behaviour for lexical errors.
use vstd::prelude::*;

use crate::float::{float_of_dec, parse_float_bits};
use crate::text::{chars_eq_str, chars_to_string, dec_val, dec_val_checked, is_digit};
use crate::token::{Token, TokenV};

verus! {

/// The whitespace characters the language skips between tokens.  The
/// language's character classes are deliberately ASCII: any character
/// outside them (a Unicode space or letter included) is an unrecognized
/// character and degrades to the end-of-input token.
pub open spec fn is_ws(c: char) -> bool {
    c == ' ' || c == '\t' || c == '\n' || c == '\r'
}

/// Identifier characters: ASCII letters, digits and underscore.
pub open spec fn is_ident_char(c: char) -> bool {
    ('a' <= c && c <= 'z') || ('A' <= c && c <= 'Z') || is_digit(c) || c == '_'
}

/// Characters that may start an identifier or keyword.
pub open spec fn is_ident_start(c: char) -> bool {
    ('a' <= c && c <= 'z') || ('A' <= c && c <= 'Z') || c == '_'
}

/// First position at or after `pos` holding a non-whitespace character.
pub open spec fn skip_ws(s: Seq<char>, pos: int) -> int
    decreases s.len() - pos,
{
    if 0 <= pos < s.len() && is_ws(s[pos]) {
        skip_ws(s, pos + 1)
    } else {
        pos
    }
}

/// First position at or after `pos` holding a newline, or the end.
pub open spec fn skip_line(s: Seq<char>, pos: int) -> int
    decreases s.len() - pos,
{
    if 0 <= pos < s.len() && s[pos] != '\n' {
        skip_line(s, pos + 1)
    } else {
        pos
    }
}

/// First position at or after `pos` holding a non-digit.
pub open spec fn scan_digits(s: Seq<char>, pos: int) -> int
    decreases s.len() - pos,
{
    if 0 <= pos < s.len() && is_digit(s[pos]) {
        scan_digits(s, pos + 1)
    } else {
        pos
    }
}

/// First position at or after `pos` holding a non-identifier character.
pub open spec fn scan_ident(s: Seq<char>, pos: int) -> int
    decreases s.len() - pos,
{
    if 0 <= pos < s.len() && is_ident_char(s[pos]) {
        scan_ident(s, pos + 1)
    } else {
        pos
    }
}

/// First position at or after `pos` holding a double quote, or the end.
pub open spec fn scan_str(s: Seq<char>, pos: int) -> int
    decreases s.len() - pos,
{
    if 0 <= pos < s.len() && s[pos] != '"' {
        scan_str(s, pos + 1)
    } else {
        pos
    }
}

pub proof fn lemma_skip_ws_range(s: Seq<char>, pos: int)
    requires
        0 <= pos <= s.len(),
    ensures
        pos <= skip_ws(s, pos) <= s.len(),
    decreases s.len() - pos,
{
    if pos < s.len() && is_ws(s[pos]) {
        lemma_skip_ws_range(s, pos + 1);
    }
}

pub proof fn lemma_skip_line_range(s: Seq<char>, pos: int)
    requires
        0 <= pos <= s.len(),
    ensures
        pos <= skip_line(s, pos) <= s.len(),
    decreases s.len() - pos,
{
    if pos < s.len() && s[pos] != '\n' {
        lemma_skip_line_range(s, pos + 1);
    }
}

pub proof fn lemma_scan_digits_range(s: Seq<char>, pos: int)
    requires
        0 <= pos <= s.len(),
    ensures
        pos <= scan_digits(s, pos) <= s.len(),
    decreases s.len() - pos,
{
    if pos < s.len() && is_digit(s[pos]) {
        lemma_scan_digits_range(s, pos + 1);
    }
}

pub proof fn lemma_scan_ident_range(s: Seq<char>, pos: int)
    requires
        0 <= pos <= s.len(),
    ensures
        pos <= scan_ident(s, pos) <= s.len(),
    decreases s.len() - pos,
{
    if pos < s.len() && is_ident_char(s[pos]) {
        lemma_scan_ident_range(s, pos + 1);
    }
}

pub proof fn lemma_scan_str_range(s: Seq<char>, pos: int)
    requires
        0 <= pos <= s.len(),
    ensures
        pos <= scan_str(s, pos) <= s.len(),
    decreases s.len() - pos,
{
    if pos < s.len() && s[pos] != '"' {
        lemma_scan_str_range(s, pos + 1);
    }
}

pub proof fn lemma_skip_ws_stops(s: Seq<char>, pos: int)
    requires
        0 <= pos <= s.len(),
    ensures
        !(skip_ws(s, pos) < s.len() && is_ws(s[skip_ws(s, pos)])),
    decreases s.len() - pos,
{
    if pos < s.len() && is_ws(s[pos]) {
        lemma_skip_ws_stops(s, pos + 1);
    }
}

pub proof fn lemma_scan_str_stops(s: Seq<char>, pos: int)
    requires
        0 <= pos <= s.len(),
    ensures
        scan_str(s, pos) >= s.len() || s[scan_str(s, pos)] == '"',
    decreases s.len() - pos,
{
    if pos < s.len() && s[pos] != '"' {
        lemma_scan_str_stops(s, pos + 1);
    }
}

pub proof fn lemma_scan_digits_all(s: Seq<char>, pos: int)
    requires
        0 <= pos <= s.len(),
        forall|k: int| pos <= k < s.len() ==> is_digit(#[trigger] s[k]),
    ensures
        scan_digits(s, pos) == s.len(),
    decreases s.len() - pos,
{
    if pos < s.len() {
        lemma_scan_digits_all(s, pos + 1);
    }
}

pub proof fn lemma_scan_digits_chars(s: Seq<char>, pos: int)
    requires
        0 <= pos <= s.len(),
    ensures
        forall|k: int| pos <= k < scan_digits(s, pos) ==> is_digit(#[trigger] s[k]),
    decreases s.len() - pos,
{
    if pos < s.len() && is_digit(s[pos]) {
        lemma_scan_digits_chars(s, pos + 1);
        lemma_scan_digits_range(s, pos + 1);
    }
}

/// Position after skipping whitespace and `//` line comments.
pub open spec fn skip_trivia(s: Seq<char>, pos: int) -> int
    decreases s.len() - pos,
{
    let p = skip_ws(s, pos);
    if 0 <= p && p + 1 < s.len() && s[p] == '/' && s[p + 1] == '/' {
        let q = skip_line(s, p + 2);
        if pos < q <= s.len() {
            skip_trivia(s, q)
        } else {
            q
        }
    } else {
        p
    }
}

pub proof fn lemma_skip_trivia_range(s: Seq<char>, pos: int)
    requires
        0 <= pos <= s.len(),
    ensures
        pos <= skip_trivia(s, pos) <= s.len(),
    decreases s.len() - pos,
{
    lemma_skip_ws_range(s, pos);
    let p = skip_ws(s, pos);
    if p + 1 < s.len() && s[p] == '/' && s[p + 1] == '/' {
        lemma_skip_line_range(s, p + 2);
        let q = skip_line(s, p + 2);
        lemma_skip_trivia_range(s, q);
    }
}

/// The token a keyword or identifier run denotes.
pub open spec fn kw_token(text: Seq<char>) -> TokenV {
    if text == "let"@ {
        TokenV::Let
    } else if text == "mut"@ {
        TokenV::Mut
    } else if text == "if"@ {
        TokenV::If
    } else if text == "then"@ {
        TokenV::Then
    } else if text == "else"@ {
        TokenV::Else
    } else if text == "for"@ {
        TokenV::For
    } else if text == "in"@ {
        TokenV::In
    } else if text == "range"@ {
        TokenV::Range
    } else if text == "fn"@ {
        TokenV::Fn
    } else if text == "return"@ {
        TokenV::Return
    } else if text == "true"@ {
        TokenV::Boolean(true)
    } else if text == "false"@ {
        TokenV::Boolean(false)
    } else if text == "branch"@ {
        TokenV::Branch
    } else if text == "fallback"@ {
        TokenV::Fallback
    } else if text == "parallel"@ {
        TokenV::Parallel
    } else {
        TokenV::Identifier(text)
    }
}

/// The token of a numeric literal starting at `pos` (a digit), and the
/// position after it.  A run of digits directly followed by a single dot
/// (not a `..` range operator) continues as a floating-point literal.  An
/// integer literal that exceeds `i64::MAX`, or a floating literal the
/// decimal parser refuses, degrades to the end-of-input token.
pub open spec fn number_token(s: Seq<char>, pos: int) -> (TokenV, int) {
    let d1 = scan_digits(s, pos);
    if d1 < s.len() && s[d1] == '.' && !(d1 + 1 < s.len() && s[d1 + 1] == '.') {
        let d2 = scan_digits(s, d1 + 1);
        let text = s.subrange(pos, d2);
        match float_of_dec(text) {
            Some(b) => (TokenV::Floating(b), d2),
            None => (TokenV::EOF, d2),
        }
    } else {
        let v = dec_val(s.subrange(pos, d1));
        if v <= i64::MAX {
            (TokenV::Number(v), d1)
        } else {
            (TokenV::EOF, d1)
        }
    }
}

/// The token starting at the trivia-free position `pos`, and the position
/// after it.
pub open spec fn token_at(s: Seq<char>, pos: int) -> (TokenV, int) {
    if !(0 <= pos < s.len()) {
        (TokenV::EOF, pos)
    } else {
        let c = s[pos];
        let two = pos + 1 < s.len();
        if c == '=' {
            if two && s[pos + 1] == '=' {
                (TokenV::EQ, pos + 2)
            } else if two && s[pos + 1] == '>' {
                (TokenV::FatArrow, pos + 2)
            } else {
                (TokenV::Equals, pos + 1)
            }
        } else if c == '-' {
            if two && s[pos + 1] == '>' {
                (TokenV::Arrow, pos + 2)
            } else {
                (TokenV::Minus, pos + 1)
            }
        } else if c == '!' {
            if two && s[pos + 1] == '=' {
                (TokenV::NE, pos + 2)
            } else {
                (TokenV::EOF, pos + 1)
            }
        } else if c == '>' {
            if two && s[pos + 1] == '=' {
                (TokenV::GE, pos + 2)
            } else {
                (TokenV::GT, pos + 1)
            }
        } else if c == '<' {
            if two && s[pos + 1] == '=' {
                (TokenV::LE, pos + 2)
            } else {
                (TokenV::LT, pos + 1)
            }
        } else if c == '+' {
            (TokenV::Plus, pos + 1)
        } else if c == '*' {
            (TokenV::Star, pos + 1)
        } else if c == '/' {
            (TokenV::Slash, pos + 1)
        } else if c == ':' {
            (TokenV::Colon, pos + 1)
        } else if c == '.' {
            if two && s[pos + 1] == '.' {
                (TokenV::Range, pos + 2)
            } else {
                (TokenV::Dot, pos + 1)
            }
        } else if c == ',' {
            (TokenV::Comma, pos + 1)
        } else if c == '(' {
            (TokenV::Lparen, pos + 1)
        } else if c == ')' {
            (TokenV::Rparen, pos + 1)
        } else if c == '{' {
            (TokenV::LBrace, pos + 1)
        } else if c == '}' {
            (TokenV::RBrace, pos + 1)
        } else if c == '[' {
            (TokenV::Lsquare, pos + 1)
        } else if c == ']' {
            (TokenV::Rsquare, pos + 1)
        } else if c == '"' {
            let q = scan_str(s, pos + 1);
            let text = s.subrange(pos + 1, q);
            if q < s.len() {
                (TokenV::Str(text), q + 1)
            } else {
                (TokenV::Str(text), q)
            }
        } else if is_digit(c) {
            number_token(s, pos)
        } else if c == '@' {
            let r = scan_ident(s, pos + 1);
            let text = s.subrange(pos, r);
            if text == "@gpu"@ {
                (TokenV::GPU, r)
            } else {
                (TokenV::Identifier(text), r)
            }
        } else if is_ident_start(c) {
            let r = scan_ident(s, pos);
            (kw_token(s.subrange(pos, r)), r)
        } else {
            (TokenV::EOF, pos + 1)
        }
    }
}

/// What one call of `next_token` produces from position `pos`: the token and
/// the position scanning stops at.
pub open spec fn spec_next_token(s: Seq<char>, pos: int) -> (TokenV, int) {
    token_at(s, skip_trivia(s, pos))
}

/// The tokenizer.  It holds the whole input as characters and a cursor; each
/// `next_token` call scans one token on demand.
pub struct Lexer {
    pub input: Vec<char>,
    pub position: usize,
}

impl Lexer {
    /// A lexer positioned at the start of `input`.
    pub fn new(input: &str) -> (l: Lexer)
        ensures
            l.input@ == input@,
            l.position == 0,
    {
        let n = input.unicode_len();
        let mut v: Vec<char> = Vec::new();
        let mut i: usize = 0;
        while i < n
            invariant
                i <= n,
                n == input@.len(),
                v@ == input@.subrange(0, i as int),
            decreases n - i,
        {
            v.push(input.get_char(i));
            proof {
                assert(v@ =~= input@.subrange(0, i + 1 as int));
            }
            i = i + 1;
        }
        proof {
            assert(v@ =~= input@);
        }
        Lexer { input: v, position: 0 }
    }

    /// The character under the cursor, if any.
    pub fn peek(&self) -> (r: Option<char>)
        ensures
            r == (if self.position < self.input@.len() {
                Some(self.input@[self.position as int])
            } else {
                Option::<char>::None
            }),
    {
        if self.position < self.input.len() {
            Some(self.input[self.position])
        } else {
            None
        }
    }

    /// The character one past the cursor, if any.
    pub fn peek_next(&self) -> (r: Option<char>)
        ensures
            r == (if self.position + 1 < self.input@.len() {
                Some(self.input@[self.position + 1])
            } else {
                Option::<char>::None
            }),
    {
        self.peek_nth(1)
    }

    /// The character `n` past the cursor, if any.
    pub fn peek_nth(&self, n: usize) -> (r: Option<char>)
        ensures
            r == (if self.position + n < self.input@.len() {
                Some(self.input@[self.position + n])
            } else {
                Option::<char>::None
            }),
    {
        let len = self.input.len();
        if n < len && self.position < len - n {
            Some(self.input[self.position + n])
        } else {
            None
        }
    }

    /// Returns the character under the cursor and moves past it.  At the end
    /// of the input the cursor stays put and `None` comes back.
    pub fn advance(&mut self) -> (r: Option<char>)
        ensures
            final(self).input == old(self).input,
            r == (if old(self).position < old(self).input@.len() {
                Some(old(self).input@[old(self).position as int])
            } else {
                Option::<char>::None
            }),
            final(self).position == (if old(self).position < old(self).input@.len() {
                old(self).position + 1
            } else {
                old(self).position as int
            }),
    {
        if self.position < self.input.len() {
            let c = self.input[self.position];
            self.position = self.position + 1;
            Some(c)
        } else {
            None
        }
    }

    /// Whether the character under the cursor is `c`.
    fn peek_is(&self, c: char) -> (r: bool)
        ensures
            r == (self.position < self.input@.len() && self.input@[self.position as int] == c),
    {
        match self.peek() {
            Some(d) => d == c,
            None => false,
        }
    }

    /// Whether the character one past the cursor is `c`.
    fn peek_next_is(&self, c: char) -> (r: bool)
        ensures
            r == (self.position + 1 < self.input@.len() && self.input@[self.position + 1] == c),
    {
        match self.peek_next() {
            Some(d) => d == c,
            None => false,
        }
    }

    /// Moves the cursor past any whitespace.
    pub fn skip_whitespace(&mut self)
        requires
            old(self).position <= old(self).input@.len(),
        ensures
            final(self).input == old(self).input,
            final(self).position == skip_ws(old(self).input@, old(self).position as int),
            final(self).position <= final(self).input@.len(),
    {
        loop
            invariant
                self.position <= self.input@.len(),
                self.input == old(self).input,
                skip_ws(self.input@, self.position as int) == skip_ws(
                    old(self).input@,
                    old(self).position as int,
                ),
            ensures
                final(self).input == old(self).input,
                self.position == skip_ws(old(self).input@, old(self).position as int),
                self.position <= self.input@.len(),
            decreases self.input@.len() - self.position,
        {
            match self.peek() {
                Some(c) => {
                    if c == ' ' || c == '\t' || c == '\n' || c == '\r' {
                        self.advance();
                    } else {
                        break ;
                    }
                },
                None => {
                    break ;
                },
            }
        }
    }

    /// Moves the cursor to the end of the current line (the newline itself
    /// is not consumed) or to the end of the input.
    pub fn skip_comment(&mut self)
        requires
            old(self).position <= old(self).input@.len(),
        ensures
            final(self).input == old(self).input,
            final(self).position == skip_line(old(self).input@, old(self).position as int),
            final(self).position <= final(self).input@.len(),
    {
        loop
            invariant
                self.position <= self.input@.len(),
                self.input == old(self).input,
                skip_line(self.input@, self.position as int) == skip_line(
                    old(self).input@,
                    old(self).position as int,
                ),
            ensures
                final(self).input == old(self).input,
                self.position == skip_line(old(self).input@, old(self).position as int),
                self.position <= self.input@.len(),
            decreases self.input@.len() - self.position,
        {
            match self.peek() {
                Some(c) => {
                    if c == '\n' {
                        break ;
                    }
                    self.advance();
                },
                None => {
                    break ;
                },
            }
        }
    }

    /// Scans one token, advancing the cursor past it; at the end of the
    /// input the end-of-input token comes back with the cursor unmoved.
    pub fn next_token(&mut self) -> (t: Token)
        requires
            old(self).position <= old(self).input@.len(),
        ensures
            final(self).input == old(self).input,
            final(self).position <= final(self).input@.len(),
            t@ == spec_next_token(old(self).input@, old(self).position as int).0,
            final(self).position == spec_next_token(old(self).input@, old(self).position as int).1,
    {
        loop
            invariant
                self.position <= self.input@.len(),
                self.input == old(self).input,
                skip_trivia(self.input@, self.position as int) == skip_trivia(
                    old(self).input@,
                    old(self).position as int,
                ),
            ensures
                self.input == old(self).input,
                self.position as int == skip_trivia(old(self).input@, old(self).position as int),
                self.position <= self.input@.len(),
            decreases self.input@.len() - self.position,
        {
            let ghost pos0 = self.position as int;
            self.skip_whitespace();
            let ghost p = self.position as int;
            if self.peek_is('/') && self.peek_next_is('/') {
                self.advance();
                self.advance();
                self.skip_comment();
                proof {
                    lemma_skip_ws_range(self.input@, pos0);
                    lemma_skip_line_range(self.input@, p + 2);
                }
            } else {
                proof {
                    lemma_skip_ws_range(self.input@, pos0);
                    lemma_skip_ws_stops(self.input@, pos0);
                    assert(skip_trivia(self.input@, pos0) == p);
                    assert(skip_ws(self.input@, p) == p);
                    assert(skip_trivia(self.input@, p) == p);
                }
                break ;
            }
        }
        let ghost s = self.input@;
        let ghost tp = self.position as int;
        let c = match self.advance() {
            Some(c) => c,
            None => {
                return Token::EOF;
            },
        };
        if c == '=' {
            if self.peek_is('=') {
                self.advance();
                Token::EQ
            } else if self.peek_is('>') {
                self.advance();
                Token::FatArrow
            } else {
                Token::Equals
            }
        } else if c == '-' {
            if self.peek_is('>') {
                self.advance();
                Token::Arrow
            } else {
                Token::Minus
            }
        } else if c == '!' {
            if self.peek_is('=') {
                self.advance();
                Token::NE
            } else {
                Token::EOF
            }
        } else if c == '>' {
            if self.peek_is('=') {
                self.advance();
                Token::GE
            } else {
                Token::GT
            }
        } else if c == '<' {
            if self.peek_is('=') {
                self.advance();
                Token::LE
            } else {
                Token::LT
            }
        } else if c == '+' {
            Token::Plus
        } else if c == '*' {
            Token::Star
        } else if c == '/' {
            Token::Slash
        } else if c == ':' {
            Token::Colon
        } else if c == '.' {
            if self.peek_is('.') {
                self.advance();
                Token::Range
            } else {
                Token::Dot
            }
        } else if c == ',' {
            Token::Comma
        } else if c == '(' {
            Token::Lparen
        } else if c == ')' {
            Token::Rparen
        } else if c == '{' {
            Token::LBrace
        } else if c == '}' {
            Token::RBrace
        } else if c == '[' {
            Token::Lsquare
        } else if c == ']' {
            Token::Rsquare
        } else if c == '"' {
            let mut buf: Vec<char> = Vec::new();
            loop
                invariant
                    0 <= tp + 1 <= self.position <= self.input@.len(),
                    self.input == old(self).input,
                    self.input@ == s,
                    buf@ == s.subrange(tp + 1, self.position as int),
                    scan_str(s, self.position as int) == scan_str(s, tp + 1),
                ensures
                    self.input == old(self).input,
                    self.input@ == s,
                    self.position as int == scan_str(s, tp + 1),
                    buf@ == s.subrange(tp + 1, self.position as int),
                decreases self.input@.len() - self.position,
            {
                match self.peek() {
                    Some(d) => {
                        if d == '"' {
                            break ;
                        }
                        self.advance();
                        buf.push(d);
                        proof {
                            assert(buf@ =~= s.subrange(tp + 1, self.position as int));
                        }
                    },
                    None => {
                        break ;
                    },
                }
            }
            let ghost q = self.position as int;
            proof {
                lemma_scan_str_stops(s, tp + 1);
                lemma_scan_str_range(s, tp + 1);
            }
            if self.peek_is('"') {
                self.advance();
            }
            Token::Str(chars_to_string(&buf))
        } else if '0' <= c && c <= '9' {
            let mut buf: Vec<char> = Vec::new();
            buf.push(c);
            proof {
                assert(buf@ =~= s.subrange(tp, tp + 1));
            }
            self.scan_digit_run(Ghost(tp), &mut buf);
            let ghost d1 = self.position as int;
            proof {
                lemma_scan_digits_range(s, tp + 1);
                lemma_scan_digits_chars(s, tp + 1);
                assert(scan_digits(s, tp) == d1);
            }
            if self.peek_is('.') && !self.peek_next_is('.') {
                self.advance();
                buf.push('.');
                proof {
                    assert(buf@ =~= s.subrange(tp, self.position as int));
                }
                self.scan_digit_run(Ghost(tp), &mut buf);
                let text = chars_to_string(&buf);
                match parse_float_bits(text.as_str()) {
                    Some(b) => Token::Floating(b),
                    None => Token::EOF,
                }
            } else {
                match dec_val_checked(&buf) {
                    Some(n) => Token::Number(n),
                    None => Token::EOF,
                }
            }
        } else if c == '@' {
            let mut buf: Vec<char> = Vec::new();
            buf.push(c);
            proof {
                assert(buf@ =~= s.subrange(tp, tp + 1));
            }
            self.scan_ident_run(Ghost(tp), &mut buf);
            if chars_eq_str(&buf, "@gpu") {
                Token::GPU
            } else {
                Token::Identifier(chars_to_string(&buf))
            }
        } else if ('a' <= c && c <= 'z') || ('A' <= c && c <= 'Z') || c == '_' {
            let mut buf: Vec<char> = Vec::new();
            buf.push(c);
            proof {
                assert(buf@ =~= s.subrange(tp, tp + 1));
            }
            self.scan_ident_run(Ghost(tp), &mut buf);
            if chars_eq_str(&buf, "let") {
                Token::Let
            } else if chars_eq_str(&buf, "mut") {
                Token::Mut
            } else if chars_eq_str(&buf, "if") {
                Token::If
            } else if chars_eq_str(&buf, "then") {
                Token::Then
            } else if chars_eq_str(&buf, "else") {
                Token::Else
            } else if chars_eq_str(&buf, "for") {
                Token::For
            } else if chars_eq_str(&buf, "in") {
                Token::In
            } else if chars_eq_str(&buf, "range") {
                Token::Range
            } else if chars_eq_str(&buf, "fn") {
                Token::Fn
            } else if chars_eq_str(&buf, "return") {
                Token::Return
            } else if chars_eq_str(&buf, "true") {
                Token::Boolean(true)
            } else if chars_eq_str(&buf, "false") {
                Token::Boolean(false)
            } else if chars_eq_str(&buf, "branch") {
                Token::Branch
            } else if chars_eq_str(&buf, "fallback") {
                Token::Fallback
            } else if chars_eq_str(&buf, "parallel") {
                Token::Parallel
            } else {
                Token::Identifier(chars_to_string(&buf))
            }
        } else {
            Token::EOF
        }
    }

    /// Consumes a run of digits starting under the cursor, appending them to
    /// `buf`; `start` is where the current literal began.
    fn scan_digit_run(&mut self, Ghost(start): Ghost<int>, buf: &mut Vec<char>)
        requires
            0 <= start <= old(self).position <= old(self).input@.len(),
            old(buf)@ == old(self).input@.subrange(start, old(self).position as int),
        ensures
            final(self).input == old(self).input,
            final(self).position as int == scan_digits(old(self).input@, old(self).position as int),
            final(buf)@ == final(self).input@.subrange(start, final(self).position as int),
            final(self).position <= final(self).input@.len(),
    {
        loop
            invariant
                0 <= start <= self.position <= self.input@.len(),
                self.input == old(self).input,
                buf@ == self.input@.subrange(start, self.position as int),
                scan_digits(self.input@, self.position as int) == scan_digits(
                    old(self).input@,
                    old(self).position as int,
                ),
            ensures
                self.input == old(self).input,
                self.position as int == scan_digits(old(self).input@, old(self).position as int),
                buf@ == self.input@.subrange(start, self.position as int),
            decreases self.input@.len() - self.position,
        {
            match self.peek() {
                Some(d) => {
                    if '0' <= d && d <= '9' {
                        self.advance();
                        buf.push(d);
                        proof {
                            assert(buf@ =~= self.input@.subrange(start, self.position as int));
                        }
                    } else {
                        break ;
                    }
                },
                None => {
                    break ;
                },
            }
        }
    }

    /// Consumes a run of identifier characters starting under the cursor,
    /// appending them to `buf`; `start` is where the current run began.
    fn scan_ident_run(&mut self, Ghost(start): Ghost<int>, buf: &mut Vec<char>)
        requires
            0 <= start <= old(self).position <= old(self).input@.len(),
            old(buf)@ == old(self).input@.subrange(start, old(self).position as int),
        ensures
            final(self).input == old(self).input,
            final(self).position as int == scan_ident(old(self).input@, old(self).position as int),
            final(buf)@ == final(self).input@.subrange(start, final(self).position as int),
            final(self).position <= final(self).input@.len(),
    {
        loop
            invariant
                0 <= start <= self.position <= self.input@.len(),
                self.input == old(self).input,
                buf@ == self.input@.subrange(start, self.position as int),
                scan_ident(self.input@, self.position as int) == scan_ident(
                    old(self).input@,
                    old(self).position as int,
                ),
            ensures
                self.input == old(self).input,
                self.position as int == scan_ident(old(self).input@, old(self).position as int),
                buf@ == self.input@.subrange(start, self.position as int),
            decreases self.input@.len() - self.position,
        {
            match self.peek() {
                Some(d) => {
                    if ('a' <= d && d <= 'z') || ('A' <= d && d <= 'Z') || ('0' <= d && d <= '9')
                        || d == '_' {
                        self.advance();
                        buf.push(d);
                        proof {
                            assert(buf@ =~= self.input@.subrange(start, self.position as int));
                        }
                    } else {
                        break ;
                    }
                },
                None => {
                    break ;
                },
            }
        }
    }
}

} // verus!
