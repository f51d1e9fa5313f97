//! Tokenizer for the C subset: turns source text into the tokens that the
//! code generator reads one at a time.

use vstd::prelude::*;

verus! {

/// A token of the C subset.
#[derive(Debug, Clone, Copy, PartialEq, Eq, Structural)]
pub enum Token {
    // constants and identifiers
    Num(i64),
    Str(usize), // index into the string buffer
    Id(usize),  // hash of the identifier's text

    // keywords
    Char,
    Else,
    Enum,
    For,
    If,
    Int,
    Return,
    Sizeof,
    While,
    Void,

    // operators
    Assign,
    AddAssign,
    SubAssign,
    MulAssign,
    DivAssign,
    ModAssign,
    ShlAssign,
    ShrAssign,
    AndAssign,
    XorAssign,
    OrAssign,
    Cond,
    Lor,
    Lan,
    Or,
    Xor,
    And,
    Eq,
    Ne,
    Lt,
    Gt,
    Le,
    Ge,
    Shl,
    Shr,
    Add,
    Sub,
    Mul,
    Div,
    Mod,
    Inc,
    Dec,
    Brak,

    // punctuation
    Semicolon,
    LeftBrace,
    RightBrace,
    LeftParen,
    RightParen,
    LeftBracket,
    RightBracket,
    Comma,
    Colon,
    Tilde,
    Not,

    // end of input
    Eof,
}

// ---------------------------------------------------------------------
// The model of the tokenizer
// ---------------------------------------------------------------------

/// What a tokenizer is, seen as a value: the source characters, the
/// position of the next unread character, the line count, the position
/// just after the last newline, the current token and its value, and the
/// buffer that string literals are collected into.
pub struct LexState {
    pub chars: Seq<char>,
    pub pos: nat,
    pub line: nat,
    pub lp: nat,
    pub tok: Token,
    pub value: i64,
    pub buf: Seq<u8>,
    pub debug: bool,
}

/// `char::is_alphanumeric`, which decides on Unicode properties.
pub uninterp spec fn char_is_alphanumeric(c: char) -> bool;

/// Calls `char::is_alphanumeric`. Claims only that the result is the
/// named property of `c`; what that property is on a given character is
/// left unsaid.
#[verifier::external_body]
fn is_alphanumeric(c: char) -> (r: bool)
    ensures
        r == char_is_alphanumeric(c),
{
    c.is_alphanumeric()
}

/// Whether `c` continues an identifier.
fn is_ident_char_exec(c: char) -> (r: bool)
    ensures
        r == is_ident_char(c),
{
    if (c as u32) < 128 {
        ('a' <= c && c <= 'z') || ('A' <= c && c <= 'Z') || ('0' <= c && c <= '9') || c == '_'
    } else {
        is_alphanumeric(c)
    }
}

pub open spec fn is_ascii_letter(c: char) -> bool {
    ('a' <= c && c <= 'z') || ('A' <= c && c <= 'Z')
}

pub open spec fn is_dec_digit(c: char) -> bool {
    '0' <= c && c <= '9'
}

pub open spec fn is_oct_digit(c: char) -> bool {
    '0' <= c && c <= '7'
}

pub open spec fn is_hex_digit(c: char) -> bool {
    is_dec_digit(c) || ('a' <= c && c <= 'f') || ('A' <= c && c <= 'F')
}

pub open spec fn is_ident_start(c: char) -> bool {
    is_ascii_letter(c) || c == '_'
}

/// Whether a character continues an identifier: an ASCII letter, digit
/// or `_`, or a non-ASCII character that is alphanumeric.
pub open spec fn is_ident_char(c: char) -> bool {
    if (c as u32) < 128 {
        is_ascii_letter(c) || is_dec_digit(c) || c == '_'
    } else {
        char_is_alphanumeric(c)
    }
}

/// The value of a digit character in a number literal of the given base.
pub open spec fn digit_value(c: char, base: i64) -> i64 {
    if base == 16 && !is_dec_digit(c) {
        if 'a' <= c && c <= 'f' {
            (c as u32 - 'a' as u32 + 10) as i64
        } else {
            (c as u32 - 'A' as u32 + 10) as i64
        }
    } else {
        (c as u32 - '0' as u32) as i64
    }
}

pub open spec fn is_base_digit(c: char, base: i64) -> bool {
    if base == 16 {
        is_hex_digit(c)
    } else if base == 8 {
        is_oct_digit(c)
    } else {
        is_dec_digit(c)
    }
}

/// The character at index `i`, if there is one.
pub open spec fn char_at(chars: Seq<char>, i: int) -> Option<char> {
    if 0 <= i < chars.len() {
        Some(chars[i])
    } else {
        None
    }
}

/// The index of the first newline at or after `i`, or the end.
pub open spec fn line_end(chars: Seq<char>, i: nat) -> nat
    decreases chars.len() - i,
{
    if i >= chars.len() || chars[i as int] == '\n' {
        i
    } else {
        line_end(chars, i + 1)
    }
}

/// The end of the identifier whose remaining characters start at `i`.
pub open spec fn ident_end(chars: Seq<char>, i: nat) -> nat
    decreases chars.len() - i,
{
    if i < chars.len() && is_ident_char(chars[i as int]) {
        ident_end(chars, i + 1)
    } else {
        i
    }
}

/// The running hash of an identifier: each further character multiplies
/// the hash by 147 and adds its code point, modulo 2^64.
pub open spec fn ident_hash_from(chars: Seq<char>, i: nat, end: nat, h: u64) -> u64
    decreases end - i,
{
    if i < end && i < chars.len() {
        ident_hash_from(
            chars,
            i + 1,
            end,
            vstd::wrapping::u64_specs::wrapping_add(
                vstd::wrapping::u64_specs::wrapping_mul(h, 147),
                chars[i as int] as u64,
            ),
        )
    } else {
        h
    }
}

/// The token value of an identifier spanning `start..end`: its running
/// hash shifted left by six bits, plus its length, modulo 2^64.
pub open spec fn ident_hash(chars: Seq<char>, start: nat, end: nat) -> u64 {
    let h = ident_hash_from(chars, start + 1, end, chars[start as int] as u64);
    vstd::wrapping::u64_specs::wrapping_add(h << 6u32, (end - start) as u64)
}

/// The keyword spelled by `text`, if it is one.
pub open spec fn keyword(text: Seq<char>) -> Option<Token> {
    if text == "char"@ {
        Some(Token::Char)
    } else if text == "else"@ {
        Some(Token::Else)
    } else if text == "enum"@ {
        Some(Token::Enum)
    } else if text == "for"@ {
        Some(Token::For)
    } else if text == "if"@ {
        Some(Token::If)
    } else if text == "int"@ {
        Some(Token::Int)
    } else if text == "return"@ {
        Some(Token::Return)
    } else if text == "sizeof"@ {
        Some(Token::Sizeof)
    } else if text == "while"@ {
        Some(Token::While)
    } else if text == "void"@ {
        Some(Token::Void)
    } else {
        None
    }
}

/// Reads the digits of a number literal in the given base starting at `i`:
/// the index after the last digit, and the accumulated value (each digit
/// multiplies the value by the base and adds the digit, modulo 2^64).
pub open spec fn scan_digits(chars: Seq<char>, i: nat, acc: i64, base: i64) -> (nat, i64)
    decreases chars.len() - i,
{
    if i < chars.len() && is_base_digit(chars[i as int], base) {
        scan_digits(
            chars,
            i + 1,
            vstd::wrapping::i64_specs::wrapping_add(
                vstd::wrapping::i64_specs::wrapping_mul(acc, base),
                digit_value(chars[i as int], base),
            ),
            base,
        )
    } else {
        (i, acc)
    }
}

/// The byte that an escape sequence `\e` stands for.
pub open spec fn escape_byte(e: char) -> u8 {
    if e == 'n' {
        10
    } else if e == 't' {
        9
    } else if e == 'r' {
        13
    } else if e == '\\' {
        92
    } else if e == '"' {
        34
    } else if e == '\'' {
        39
    } else if e == '0' {
        0
    } else {
        e as u8
    }
}

/// Reads the body of a quoted literal starting at `i` up to and including
/// the closing delimiter `delim` (or the end of input), appending its
/// bytes to `buf`: the index after it and the new buffer.
pub open spec fn scan_quoted(chars: Seq<char>, i: nat, delim: char, buf: Seq<u8>) -> (nat, Seq<u8>)
    decreases chars.len() - i,
{
    if i >= chars.len() {
        (i, buf)
    } else if chars[i as int] == delim {
        (i + 1, buf)
    } else if chars[i as int] == '\\' {
        if i + 1 < chars.len() {
            scan_quoted(chars, i + 2, delim, buf.push(escape_byte(chars[i + 1int])))
        } else {
            (i + 1, buf)
        }
    } else {
        scan_quoted(chars, i + 1, delim, buf.push(chars[i as int] as u8))
    }
}

impl LexState {
    pub open spec fn at_pos(self, pos: nat) -> LexState {
        LexState { pos, ..self }
    }

    pub open spec fn with_tok(self, tok: Token) -> LexState {
        LexState { tok, ..self }
    }

    /// The state after the whitespace, newlines and `#` lines at the
    /// current position.
    pub open spec fn skip_ws(self) -> LexState
        decreases self.chars.len() - self.pos,
    {
        if self.pos < self.chars.len() {
            let c = self.chars[self.pos as int];
            if c == ' ' || c == '\t' || c == '\r' {
                self.at_pos(self.pos + 1).skip_ws()
            } else if c == '\n' {
                LexState {
                    pos: self.pos + 1,
                    line: self.line + 1,
                    lp: self.pos + 1,
                    ..self
                }.skip_ws()
            } else if c == '#' {
                let e = line_end(self.chars, self.pos + 1);
                proof {
                    lemma_line_end(self.chars, self.pos + 1);
                }
                self.at_pos(e).skip_ws()
            } else {
                self
            }
        } else {
            self
        }
    }

    /// Skips the rest of a block comment of nesting `depth`: the state after
    /// its closing `*/`, and whether one was found before the end of input.
    pub open spec fn skip_block(self, depth: nat) -> (LexState, bool)
        decreases self.chars.len() - self.pos,
    {
        if depth == 0 {
            (self, true)
        } else if self.pos >= self.chars.len() {
            (self, false)
        } else {
            let c = self.chars[self.pos as int];
            let next = char_at(self.chars, self.pos + 1int);
            if c == '\n' {
                LexState {
                    pos: self.pos + 1,
                    line: self.line + 1,
                    lp: self.pos + 1,
                    ..self
                }.skip_block(depth)
            } else if c == '/' && next == Some('*') {
                self.at_pos(self.pos + 2).skip_block(depth + 1)
            } else if c == '*' && next == Some('/') {
                self.at_pos(self.pos + 2).skip_block((depth - 1) as nat)
            } else {
                self.at_pos(self.pos + 1).skip_block(depth)
            }
        }
    }

    /// The token of an operator or punctuation character `c` read at
    /// `pos - 1`, and the position after it; `None` for a character that
    /// starts no token.
    pub open spec fn operator(self, c: char) -> Option<(Token, nat)> {
        let p = self.pos;
        let n1 = char_at(self.chars, p as int);
        let n2 = char_at(self.chars, p + 1int);
        if c == '=' {
            if n1 == Some('=') { Some((Token::Eq, p + 1)) } else { Some((Token::Assign, p)) }
        } else if c == '+' {
            if n1 == Some('=') {
                Some((Token::AddAssign, p + 1))
            } else if n1 == Some('+') {
                Some((Token::Inc, p + 1))
            } else {
                Some((Token::Add, p))
            }
        } else if c == '-' {
            if n1 == Some('=') {
                Some((Token::SubAssign, p + 1))
            } else if n1 == Some('-') {
                Some((Token::Dec, p + 1))
            } else {
                Some((Token::Sub, p))
            }
        } else if c == '*' {
            if n1 == Some('=') { Some((Token::MulAssign, p + 1)) } else { Some((Token::Mul, p)) }
        } else if c == '%' {
            if n1 == Some('=') { Some((Token::ModAssign, p + 1)) } else { Some((Token::Mod, p)) }
        } else if c == '!' {
            if n1 == Some('=') { Some((Token::Ne, p + 1)) } else { Some((Token::Not, p)) }
        } else if c == '<' {
            if n1 == Some('=') {
                Some((Token::Le, p + 1))
            } else if n1 == Some('<') {
                if n2 == Some('=') { Some((Token::ShlAssign, p + 2)) } else { Some((Token::Shl, p + 1)) }
            } else {
                Some((Token::Lt, p))
            }
        } else if c == '>' {
            if n1 == Some('=') {
                Some((Token::Ge, p + 1))
            } else if n1 == Some('>') {
                if n2 == Some('=') { Some((Token::ShrAssign, p + 2)) } else { Some((Token::Shr, p + 1)) }
            } else {
                Some((Token::Gt, p))
            }
        } else if c == '&' {
            if n1 == Some('&') {
                Some((Token::Lan, p + 1))
            } else if n1 == Some('=') {
                Some((Token::AndAssign, p + 1))
            } else {
                Some((Token::And, p))
            }
        } else if c == '|' {
            if n1 == Some('|') {
                Some((Token::Lor, p + 1))
            } else if n1 == Some('=') {
                Some((Token::OrAssign, p + 1))
            } else {
                Some((Token::Or, p))
            }
        } else if c == '^' {
            if n1 == Some('=') { Some((Token::XorAssign, p + 1)) } else { Some((Token::Xor, p)) }
        } else if c == '[' {
            Some((Token::LeftBracket, p))
        } else if c == '?' {
            Some((Token::Cond, p))
        } else if c == '~' {
            Some((Token::Tilde, p))
        } else if c == ';' {
            Some((Token::Semicolon, p))
        } else if c == '{' {
            Some((Token::LeftBrace, p))
        } else if c == '}' {
            Some((Token::RightBrace, p))
        } else if c == '(' {
            Some((Token::LeftParen, p))
        } else if c == ')' {
            Some((Token::RightParen, p))
        } else if c == ']' {
            Some((Token::RightBracket, p))
        } else if c == ',' {
            Some((Token::Comma, p))
        } else if c == ':' {
            Some((Token::Colon, p))
        } else {
            None
        }
    }

    /// Reads an identifier or keyword whose first character was at `pos - 1`.
    pub open spec fn identifier(self) -> LexState {
        let start = (self.pos - 1) as nat;
        let end = ident_end(self.chars, self.pos);
        let tok = match keyword(self.chars.subrange(start as int, end as int)) {
            Some(k) => k,
            None => Token::Id(ident_hash(self.chars, start, end) as usize),
        };
        LexState { pos: end, tok, ..self }
    }

    /// Reads a number literal whose first digit `c` was at `pos - 1`.
    pub open spec fn number(self, c: char) -> LexState {
        let d0 = digit_value(c, 10);
        let n1 = char_at(self.chars, self.pos as int);
        let (end, value) = if d0 == 0 && (n1 == Some('x') || n1 == Some('X')) {
            scan_digits(self.chars, self.pos + 1, d0, 16)
        } else if d0 == 0 {
            scan_digits(self.chars, self.pos, d0, 8)
        } else {
            scan_digits(self.chars, self.pos, d0, 10)
        };
        LexState { pos: end, value, tok: Token::Num(value), ..self }
    }

    /// Reads a string literal (delimiter `"`) or a character literal
    /// (delimiter `'`) whose opening delimiter was at `pos - 1`.
    pub open spec fn quoted(self, delim: char) -> LexState {
        let start = self.buf.len();
        let (end, buf) = scan_quoted(self.chars, self.pos, delim, self.buf);
        if delim == '"' {
            LexState {
                pos: end,
                buf: buf.push(0),
                value: start as i64,
                tok: Token::Str(start as usize),
                ..self
            }
        } else if start < buf.len() {
            let v = buf[start as int] as i64;
            LexState {
                pos: end,
                buf: buf.subrange(0, start as int),
                value: v,
                tok: Token::Num(v),
                ..self
            }
        } else {
            LexState { pos: end, buf, value: 0, tok: Token::Num(0), ..self }
        }
    }

    /// The state after reading the next token: the meaning of `Lexer::next`.
    pub open spec fn advance(self) -> LexState
        decreases self.chars.len() - self.pos,
    {
        let s = self.skip_ws();
        proof {
            lemma_skip_ws(self);
        }
        if s.pos >= s.chars.len() {
            s.with_tok(Token::Eof)
        } else {
            let c = s.chars[s.pos as int];
            let s1 = s.at_pos(s.pos + 1);
            let n1 = char_at(s.chars, s1.pos as int);
            if is_ident_start(c) {
                s1.identifier()
            } else if is_dec_digit(c) {
                s1.number(c)
            } else if c == '\'' || c == '"' {
                s1.quoted(c)
            } else if c == '/' {
                if n1 == Some('/') {
                    proof {
                        lemma_line_end(s.chars, s1.pos + 1);
                    }
                    s1.at_pos(line_end(s.chars, s1.pos + 1)).advance()
                } else if n1 == Some('*') {
                    let (s2, closed) = s1.at_pos(s1.pos + 1).skip_block(1);
                    proof {
                        lemma_skip_block(s1.at_pos(s1.pos + 1), 1);
                    }
                    if closed {
                        s2.advance()
                    } else {
                        s2.with_tok(Token::Eof)
                    }
                } else if n1 == Some('=') {
                    LexState { pos: s1.pos + 1, tok: Token::DivAssign, ..s1 }
                } else {
                    s1.with_tok(Token::Div)
                }
            } else {
                match s1.operator(c) {
                    Some((t, p)) => LexState { pos: p, tok: t, ..s1 },
                    None => s1.advance(),
                }
            }
        }
    }

    /// The tokenizer's invariant: the position, line and line start stay
    /// within the source.
    pub open spec fn wf(self) -> bool {
        &&& self.chars.len() < usize::MAX
        &&& self.pos <= self.chars.len()
        &&& self.line <= self.pos + 1
        &&& self.lp <= self.pos
        &&& (self.tok matches Token::Str(p) ==> p < self.buf.len())
    }

    /// What remains to be read, counting a current token that is not the
    /// end of input as one more: it shrinks with every token read.
    pub open spec fn measure(self) -> nat {
        (if self.pos <= self.chars.len() { (self.chars.len() - self.pos) as nat } else { 0 })
            + (if self.tok == Token::Eof { 0nat } else { 1nat })
    }
}

pub proof fn lemma_line_end(chars: Seq<char>, i: nat)
    ensures
        i <= line_end(chars, i),
        i <= chars.len() ==> line_end(chars, i) <= chars.len(),
    decreases chars.len() - i,
{
    if i < chars.len() && chars[i as int] != '\n' {
        lemma_line_end(chars, i + 1);
    }
}

pub proof fn lemma_ident_end(chars: Seq<char>, i: nat)
    ensures
        i <= ident_end(chars, i),
        i <= chars.len() ==> ident_end(chars, i) <= chars.len(),
    decreases chars.len() - i,
{
    if i < chars.len() && is_ident_char(chars[i as int]) {
        lemma_ident_end(chars, i + 1);
    }
}

pub proof fn lemma_scan_digits(chars: Seq<char>, i: nat, acc: i64, base: i64)
    ensures
        i <= scan_digits(chars, i, acc, base).0,
        i <= chars.len() ==> scan_digits(chars, i, acc, base).0 <= chars.len(),
    decreases chars.len() - i,
{
    if i < chars.len() && is_base_digit(chars[i as int], base) {
        lemma_scan_digits(
            chars,
            i + 1,
            vstd::wrapping::i64_specs::wrapping_add(
                vstd::wrapping::i64_specs::wrapping_mul(acc, base),
                digit_value(chars[i as int], base),
            ),
            base,
        );
    }
}

pub proof fn lemma_scan_quoted(chars: Seq<char>, i: nat, delim: char, buf: Seq<u8>)
    ensures
        i <= scan_quoted(chars, i, delim, buf).0,
        i <= chars.len() ==> scan_quoted(chars, i, delim, buf).0 <= chars.len(),
        scan_quoted(chars, i, delim, buf).1.len() >= buf.len(),
        scan_quoted(chars, i, delim, buf).1.subrange(0, buf.len() as int) == buf,
    decreases chars.len() - i,
{
    if i >= chars.len() {
    } else if chars[i as int] == delim {
    } else if chars[i as int] == '\\' {
        if i + 1 < chars.len() {
            lemma_scan_quoted(chars, i + 2, delim, buf.push(escape_byte(chars[i + 1int])));
            let r = scan_quoted(chars, i + 2, delim, buf.push(escape_byte(chars[i + 1int]))).1;
            assert(r.subrange(0, buf.len() as int) =~= r.subrange(0, buf.len() + 1int).subrange(0, buf.len() as int));
        }
    } else {
        lemma_scan_quoted(chars, i + 1, delim, buf.push(chars[i as int] as u8));
        let r = scan_quoted(chars, i + 1, delim, buf.push(chars[i as int] as u8)).1;
        assert(r.subrange(0, buf.len() as int) =~= r.subrange(0, buf.len() + 1int).subrange(0, buf.len() as int));
    }
}

/// The bytes of characters that are each one byte (a byte per character).
pub open spec fn char_bytes(w: Seq<char>) -> Seq<u8> {
    w.map_values(|c: char| c as u8)
}

/// In a quoted literal, a run of characters that holds neither a
/// backslash nor the closing delimiter is copied into the buffer byte for
/// byte, and the closing delimiter ends the literal without adding a byte.
pub proof fn law_quoted_plain_run(chars: Seq<char>, i: nat, delim: char, buf: Seq<u8>, w: Seq<char>)
    requires
        i + w.len() <= chars.len(),
        chars.subrange(i as int, i + w.len() as int) == w,
        forall|k: int| 0 <= k < w.len() ==> w[k] != '\\' && w[k] != delim,
    ensures
        scan_quoted(chars, i, delim, buf) == scan_quoted(chars, i + w.len(), delim, buf + char_bytes(w)),
        i + w.len() < chars.len() && chars[i + w.len() as int] == delim
            ==> scan_quoted(chars, i, delim, buf) == (i + w.len() + 1, buf + char_bytes(w)),
    decreases w.len(),
{
    if w.len() == 0 {
        assert(buf + char_bytes(w) =~= buf);
    } else {
        assert(chars[i as int] == w[0]);
        let w1 = w.drop_first();
        assert(chars.subrange(i + 1int, i + 1 + w1.len() as int) =~= w1);
        law_quoted_plain_run(chars, i + 1, delim, buf.push(chars[i as int] as u8), w1);
        assert(buf.push(chars[i as int] as u8) + char_bytes(w1) =~= buf + char_bytes(w));
    }
}

/// In a quoted literal, a backslash and the character after it stand for
/// one byte: `\n` for a newline (10), `\t` for a tab (9), `\r` for a
/// carriage return (13), `\\` for a backslash (92), `\"` for a double
/// quote (34), `\'` for a single quote (39) and `\0` for a zero byte;
/// scanning goes on after the pair.
pub proof fn law_quoted_escape(chars: Seq<char>, i: nat, delim: char, buf: Seq<u8>)
    requires
        i + 1 < chars.len(),
        chars[i as int] == '\\',
        delim != '\\',
    ensures
        ({
            let rest = |b: u8| scan_quoted(chars, i + 2, delim, buf.push(b));
            let e = chars[i + 1int];
            &&& e == 'n' ==> scan_quoted(chars, i, delim, buf) == rest(10)
            &&& e == 't' ==> scan_quoted(chars, i, delim, buf) == rest(9)
            &&& e == 'r' ==> scan_quoted(chars, i, delim, buf) == rest(13)
            &&& e == '\\' ==> scan_quoted(chars, i, delim, buf) == rest(92)
            &&& e == '"' ==> scan_quoted(chars, i, delim, buf) == rest(34)
            &&& e == '\'' ==> scan_quoted(chars, i, delim, buf) == rest(39)
            &&& e == '0' ==> scan_quoted(chars, i, delim, buf) == rest(0)
        }),
{
}

pub proof fn lemma_skip_ws(st: LexState)
    ensures
        st.pos <= st.skip_ws().pos,
        st.line <= st.skip_ws().line,
        st.skip_ws().chars == st.chars,
        st.skip_ws().tok == st.tok,
        st.skip_ws().value == st.value,
        st.skip_ws().buf == st.buf,
        st.skip_ws().debug == st.debug,
        st.wf() ==> st.skip_ws().wf(),
    decreases st.chars.len() - st.pos,
{
    if st.pos < st.chars.len() {
        let c = st.chars[st.pos as int];
        if c == ' ' || c == '\t' || c == '\r' {
            lemma_skip_ws(st.at_pos(st.pos + 1));
        } else if c == '\n' {
            lemma_skip_ws(LexState {
                pos: st.pos + 1,
                line: st.line + 1,
                lp: st.pos + 1,
                ..st
            });
        } else if c == '#' {
            lemma_line_end(st.chars, st.pos + 1);
            lemma_skip_ws(st.at_pos(line_end(st.chars, st.pos + 1)));
        }
    }
}

pub proof fn lemma_skip_block(st: LexState, depth: nat)
    ensures
        st.pos <= st.skip_block(depth).0.pos,
        st.line <= st.skip_block(depth).0.line,
        st.skip_block(depth).0.chars == st.chars,
        st.skip_block(depth).0.tok == st.tok,
        st.skip_block(depth).0.value == st.value,
        st.skip_block(depth).0.buf == st.buf,
        st.skip_block(depth).0.debug == st.debug,
        !st.skip_block(depth).1 ==> st.skip_block(depth).0.pos >= st.chars.len(),
        depth > 0 && st.pos <= st.chars.len() ==> st.skip_block(depth).0.pos <= st.chars.len(),
        st.wf() && depth > 0 ==> st.skip_block(depth).0.wf(),
    decreases st.chars.len() - st.pos,
{
    if depth == 0 {
    } else if st.pos >= st.chars.len() {
    } else {
        let c = st.chars[st.pos as int];
        let next = char_at(st.chars, st.pos + 1int);
        if c == '\n' {
            lemma_skip_block(LexState {
                pos: st.pos + 1,
                line: st.line + 1,
                lp: st.pos + 1,
                ..st
            }, depth);
        } else if c == '/' && next == Some('*') {
            lemma_skip_block(st.at_pos(st.pos + 2), depth + 1);
        } else if c == '*' && next == Some('/') {
            lemma_skip_block(st.at_pos(st.pos + 2), (depth - 1) as nat);
        } else {
            lemma_skip_block(st.at_pos(st.pos + 1), depth);
        }
    }
}

/// A freshly made tokenizer over `chars`.
pub open spec fn initial_lex(chars: Seq<char>) -> LexState {
    LexState {
        chars,
        pos: 0,
        line: 1,
        lp: 0,
        tok: Token::Eof,
        value: 0,
        buf: Seq::empty(),
        debug: false,
    }
}


pub proof fn lemma_advance(st: LexState)
    requires
        st.wf(),
    ensures
        st.advance().wf(),
        st.advance().chars == st.chars,
        st.advance().debug == st.debug,
        st.pos <= st.advance().pos,
        st.line <= st.advance().line,
        st.pos < st.chars.len() ==> st.pos < st.advance().pos,
        st.advance().tok == Token::Eof ==> st.advance().pos == st.chars.len(),
        st.pos == st.chars.len() ==> st.advance().tok == Token::Eof,
        st.tok != Token::Eof ==> st.advance().measure() < st.measure(),
        st.advance().measure() <= st.measure(),
    decreases st.chars.len() - st.pos,
{
    let s = st.skip_ws();
    lemma_skip_ws(st);
    if s.pos >= s.chars.len() {
    } else {
        let c = s.chars[s.pos as int];
        let s1 = s.at_pos(s.pos + 1);
        let n1 = char_at(s.chars, s1.pos as int);
        if is_ident_start(c) {
            lemma_ident_end(s.chars, s1.pos);
        } else if is_dec_digit(c) {
            let d0 = digit_value(c, 10);
            let n1 = char_at(s1.chars, s1.pos as int);
            lemma_scan_digits(s.chars, s1.pos + 1, d0, 16);
            lemma_scan_digits(s.chars, s1.pos, d0, 8);
            lemma_scan_digits(s.chars, s1.pos, d0, 10);
        } else if c == '\'' || c == '"' {
            lemma_scan_quoted(s.chars, s1.pos, c, s.buf);
        } else if c == '/' {
            if n1 == Some('/') {
                lemma_line_end(s.chars, s1.pos + 1);
                lemma_advance(s1.at_pos(line_end(s.chars, s1.pos + 1)));
            } else if n1 == Some('*') {
                lemma_skip_block(s1.at_pos(s1.pos + 1), 1);
                let (s2, closed) = s1.at_pos(s1.pos + 1).skip_block(1);
                if closed {
                    lemma_advance(s2);
                }
            }
        } else {
            match s1.operator(c) {
                Some((t, p)) => {},
                None => {
                    lemma_advance(s1);
                },
            }
        }
    }
}

/// At the end of the source, reading a token gives the end of input and
/// changes nothing else.
pub proof fn law_advance_at_end(st: LexState)
    requires
        st.wf(),
        st.pos == st.chars.len(),
    ensures
        st.advance() == st.with_tok(Token::Eof),
{
}

/// Once the end of input has been read, reading again changes nothing.
pub proof fn law_eof_is_final(st: LexState)
    requires
        st.wf(),
        st.advance().tok == Token::Eof,
    ensures
        st.advance().advance() == st.advance(),
{
    lemma_advance(st);
    law_advance_at_end(st.advance());
}

/// Reading a token never goes back: neither the position nor the line
/// count decreases, and the source stays the same.
pub proof fn law_advance_monotone(st: LexState)
    requires
        st.wf(),
    ensures
        st.pos <= st.advance().pos,
        st.line <= st.advance().line,
        st.advance().chars == st.chars,
{
    lemma_advance(st);
}

/// Reading a token keeps the bytes of the string literals read before:
/// the buffer only grows at its end.
pub proof fn law_string_buffer_kept(st: LexState)
    requires
        st.wf(),
    ensures
        st.advance().buf.len() >= st.buf.len(),
        st.advance().buf.subrange(0, st.buf.len() as int) == st.buf,
    decreases st.chars.len() - st.pos,
{
    let s = st.skip_ws();
    lemma_skip_ws(st);
    if s.pos >= s.chars.len() {
        assert(st.buf.subrange(0, st.buf.len() as int) =~= st.buf);
    } else {
        let c = s.chars[s.pos as int];
        let s1 = s.at_pos(s.pos + 1);
        let n1 = char_at(s.chars, s1.pos as int);
        if is_ident_start(c) || is_dec_digit(c) {
            assert(st.buf.subrange(0, st.buf.len() as int) =~= st.buf);
        } else if c == '\'' || c == '"' {
            lemma_scan_quoted(s.chars, s1.pos, c, s.buf);
            let (end, buf) = scan_quoted(s.chars, s1.pos, c, s.buf);
            assert(buf.push(0).subrange(0, st.buf.len() as int) =~= buf.subrange(0, st.buf.len() as int));
            assert(buf.subrange(0, st.buf.len() as int).subrange(0, st.buf.len() as int)
                =~= buf.subrange(0, st.buf.len() as int));
        } else if c == '/' {
            if n1 == Some('/') {
                lemma_line_end(s.chars, s1.pos + 1);
                law_string_buffer_kept(s1.at_pos(line_end(s.chars, s1.pos + 1)));
            } else if n1 == Some('*') {
                lemma_skip_block(s1.at_pos(s1.pos + 1), 1);
                let (s2, closed) = s1.at_pos(s1.pos + 1).skip_block(1);
                if closed {
                    law_string_buffer_kept(s2);
                } else {
                    assert(st.buf.subrange(0, st.buf.len() as int) =~= st.buf);
                }
            } else {
                assert(st.buf.subrange(0, st.buf.len() as int) =~= st.buf);
            }
        } else {
            match s1.operator(c) {
                Some((t, p)) => {
                    assert(st.buf.subrange(0, st.buf.len() as int) =~= st.buf);
                },
                None => {
                    law_string_buffer_kept(s1);
                },
            }
        }
    }
}

/// A `<` or `>` token is never followed right away by a second one of
/// the same: the two would have been read as a shift.
pub open spec fn lt_gt_ok(st: LexState) -> bool {
    &&& (st.tok == Token::Lt ==> char_at(st.chars, st.pos as int) != Some('<'))
    &&& (st.tok == Token::Gt ==> char_at(st.chars, st.pos as int) != Some('>'))
}

pub proof fn lemma_advance_lt_gt(st: LexState)
    requires
        st.wf(),
    ensures
        lt_gt_ok(st.advance()),
    decreases st.chars.len() - st.pos,
{
    let s = st.skip_ws();
    lemma_skip_ws(st);
    if s.pos >= s.chars.len() {
    } else {
        let c = s.chars[s.pos as int];
        let s1 = s.at_pos(s.pos + 1);
        let n1 = char_at(s.chars, s1.pos as int);
        if is_ident_start(c) {
            lemma_ident_end(s.chars, s1.pos);
        } else if is_dec_digit(c) {
        } else if c == '\'' || c == '"' {
        } else if c == '/' {
            if n1 == Some('/') {
                lemma_line_end(s.chars, s1.pos + 1);
                lemma_advance_lt_gt(s1.at_pos(line_end(s.chars, s1.pos + 1)));
            } else if n1 == Some('*') {
                lemma_skip_block(s1.at_pos(s1.pos + 1), 1);
                let (s2, closed) = s1.at_pos(s1.pos + 1).skip_block(1);
                if closed {
                    lemma_advance_lt_gt(s2);
                }
            }
        } else {
            match s1.operator(c) {
                Some((t, p)) => {},
                None => {
                    lemma_advance_lt_gt(s1);
                },
            }
        }
    }
}

fn is_base_digit_exec(c: char, base: i64) -> (r: bool)
    ensures
        r == is_base_digit(c, base),
{
    if base == 16 {
        ('0' <= c && c <= '9') || ('a' <= c && c <= 'f') || ('A' <= c && c <= 'F')
    } else if base == 8 {
        '0' <= c && c <= '7'
    } else {
        '0' <= c && c <= '9'
    }
}

fn digit_value_exec(c: char, base: i64) -> (v: i64)
    requires
        is_base_digit(c, base),
    ensures
        v == digit_value(c, base),
{
    if base == 16 && !('0' <= c && c <= '9') {
        if 'a' <= c && c <= 'f' {
            (c as u32 - 'a' as u32 + 10) as i64
        } else {
            (c as u32 - 'A' as u32 + 10) as i64
        }
    } else {
        (c as u32 - '0' as u32) as i64
    }
}

/// The tokenizer.
#[derive(Debug)]
pub struct Lexer<'a> {
    #[allow(dead_code)]
    source: &'a str,
    chars: Vec<char>,
    pos: usize,
    line: usize,
    current_token: Token,
    current_value: i64,
    string_buffer: Vec<u8>,
    lp: usize,
    debug: bool,
}

impl<'a> View for Lexer<'a> {
    type V = LexState;

    closed spec fn view(&self) -> LexState {
        LexState {
            chars: self.chars@,
            pos: self.pos as nat,
            line: self.line as nat,
            lp: self.lp as nat,
            tok: self.current_token,
            value: self.current_value,
            buf: self.string_buffer@,
            debug: self.debug,
        }
    }
}

impl<'a> Lexer<'a> {
    /// The tokenizer's invariant.
    pub open spec fn wf(&self) -> bool {
        self@.wf()
    }

    /// Creates a tokenizer over `source`, positioned before its first token.
    pub fn new(source: &'a str) -> (lx: Self)
        requires
            source@.len() < usize::MAX,
        ensures
            lx@ == initial_lex(source@),
            lx.wf(),
    {
        let mut chars: Vec<char> = Vec::new();
        let mut it = source.chars();
        proof {
            broadcast use vstd::string::group_string_axioms;
        }
        loop
            invariant
                vstd::std_specs::iter::IteratorSpec::remaining(&it) == source@.skip(chars@.len() as int),
                chars@ == source@.take(chars@.len() as int),
                chars@.len() <= source@.len(),
            ensures
                chars@ == source@,
            decreases source@.len() - chars@.len(),
        {
            proof {
                broadcast use vstd::string::group_string_axioms;
            }
            match it.next() {
                Some(c) => {
                    chars.push(c);
                    assert(chars@ =~= source@.take(chars@.len() as int));
                }
                None => {
                    assert(chars@ =~= source@);
                    break;
                }
            }
        }
        Lexer {
            source,
            chars,
            pos: 0,
            line: 1,
            current_token: Token::Eof,
            current_value: 0,
            string_buffer: Vec::new(),
            lp: 0,
            debug: false,
        }
    }

    /// Sets the debug flag.
    pub fn set_debug(&mut self, debug: bool)
        ensures
            final(self)@ == (LexState { debug, ..old(self)@ }),
    {
        self.debug = debug;
    }

    /// The current token.
    pub fn token(&self) -> (t: Token)
        ensures
            t == self@.tok,
    {
        self.current_token
    }

    /// The value of the current number literal (or the buffer index of the
    /// current string literal).
    pub fn value(&self) -> (v: i64)
        ensures
            v == self@.value,
    {
        self.current_value
    }

    /// The current line number.
    pub fn line(&self) -> (l: usize)
        ensures
            l == self@.line,
    {
        self.line
    }

    /// The bytes of the string literals read so far, each ended by a zero.
    pub fn string_buffer(&self) -> (b: &[u8])
        ensures
            b@ == self@.buf,
    {
        self.string_buffer.as_slice()
    }

    /// The position just after the last newline read.
    pub fn get_line_pos(&self) -> (p: usize)
        ensures
            p == self@.lp,
    {
        self.lp
    }

    /// Whether `text` occurs in the source.
    pub fn source_contains(&self, text: &str) -> (r: bool)
        ensures
            r == exists|i: int|
                0 <= i && i + text@.len() <= self@.chars.len()
                    && #[trigger] self@.chars.subrange(i, i + text@.len()) == text@,
    {
        let mut t: Vec<char> = Vec::new();
        crate::text::push_str(&mut t, text);
        assert(t@ =~= text@);
        let n = self.chars.len();
        let m = t.len();
        if m > n {
            assert forall|i: int|
                0 <= i && i + text@.len() <= self@.chars.len() implies
                #[trigger] self@.chars.subrange(i, i + text@.len()) != text@ by {}
            return false;
        }
        let mut i: usize = 0;
        loop
            invariant
                t@ == text@,
                n == self@.chars.len(),
                m == t@.len(),
                m <= n,
                i <= n - m,
                forall|k: int| 0 <= k < i ==> #[trigger] self@.chars.subrange(k, k + m) != t@,
            decreases n - m - i,
        {
            let mut j: usize = 0;
            let mut same = true;
            assert(self@.chars.subrange(i as int, i as int) =~= t@.subrange(0, 0));
            while j < m
                invariant
                    t@ == text@,
                    n == self@.chars.len(),
                    m == t@.len(),
                    m <= n,
                    i <= n - m,
                    j <= m,
                    same == (self@.chars.subrange(i as int, i + j) == t@.subrange(0, j as int)),
                decreases m - j,
            {
                if same && self.chars[i + j] != t[j] {
                    same = false;
                    assert(self@.chars.subrange(i as int, i + j + 1)[j as int] != t@.subrange(0, j + 1)[j as int]);
                } else if same {
                    assert(self@.chars.subrange(i as int, i + j + 1) =~= self@.chars.subrange(i as int, i + j).push(self.chars[i + j]));
                    assert(t@.subrange(0, j + 1) =~= t@.subrange(0, j as int).push(t[j as int]));
                } else {
                    assert(self@.chars.subrange(i as int, i + j + 1).subrange(0, j as int) =~= self@.chars.subrange(i as int, i + j));
                    assert(t@.subrange(0, j + 1).subrange(0, j as int) =~= t@.subrange(0, j as int));
                }
                j += 1;
            }
            assert(t@.subrange(0, m as int) =~= t@);
            if same {
                return true;
            }
            if i == n - m {
                assert forall|k: int|
                    0 <= k && k + text@.len() <= self@.chars.len() implies
                    #[trigger] self@.chars.subrange(k, k + text@.len()) != text@ by {
                    assert(k <= i);
                }
                return false;
            }
            i += 1;
        }
    }

    /// The character after the current token, if any.
    pub fn peek_next(&self) -> (c: Option<char>)
        ensures
            c == char_at(self@.chars, self@.pos as int),
    {
        if self.pos < self.chars.len() {
            Some(self.chars[self.pos])
        } else {
            None
        }
    }

    fn peek(&self) -> (c: Option<char>)
        ensures
            c == char_at(self@.chars, self@.pos as int),
    {
        if self.pos < self.chars.len() {
            Some(self.chars[self.pos])
        } else {
            None
        }
    }

    /// Skips spaces, newlines and `#` lines.
    fn skip_whitespace(&mut self)
        requires
            old(self).wf(),
        ensures
            final(self)@ == old(self)@.skip_ws(),
            final(self).wf(),
    {
        proof {
            lemma_skip_ws(self@);
        }
        while self.pos < self.chars.len()
            invariant
                self.wf(),
                self@.skip_ws() == old(self)@.skip_ws(),
            decreases self.chars@.len() - self.pos,
        {
            let c = self.chars[self.pos];
            if c == ' ' || c == '\t' || c == '\r' {
                self.pos += 1;
            } else if c == '\n' {
                self.pos += 1;
                self.line += 1;
                self.lp = self.pos;
            } else if c == '#' {
                let ghost at_hash = self@;
                self.pos += 1;
                let ghost e = line_end(self@.chars, self@.pos);
                proof {
                    lemma_line_end(self@.chars, self@.pos);
                }
                while self.pos < self.chars.len() && self.chars[self.pos] != '\n'
                    invariant
                        self.wf(),
                        self@ == at_hash.at_pos(self@.pos),
                        at_hash.pos < self@.pos,
                        line_end(self@.chars, self@.pos) == e,
                    decreases self.chars@.len() - self.pos,
                {
                    self.pos += 1;
                }
                assert(self@.pos == e);
                assert(self@ == at_hash.at_pos(e));
            } else {
                return;
            }
        }
    }

    /// Skips the rest of a block comment; whether it was closed.
    fn skip_block_comment(&mut self) -> (closed: bool)
        requires
            old(self).wf(),
        ensures
            (final(self)@, closed) == old(self)@.skip_block(1),
            final(self).wf(),
    {
        let mut depth: usize = 1;
        while depth > 0
            invariant
                self.wf(),
                depth <= self.pos + 1,
                self@.skip_block(depth as nat) == old(self)@.skip_block(1),
            decreases self.chars@.len() - self.pos, depth,
        {
            if self.pos >= self.chars.len() {
                return false;
            }
            let c = self.chars[self.pos];
            self.pos += 1;
            if c == '\n' {
                self.line += 1;
                self.lp = self.pos;
            } else if c == '/' && self.peek() == Some('*') {
                self.pos += 1;
                depth += 1;
            } else if c == '*' && self.peek() == Some('/') {
                self.pos += 1;
                depth -= 1;
            }
        }
        true
    }

    /// Reads the rest of an identifier or keyword whose first character
    /// `c` was just read.
    fn scan_identifier(&mut self, c: char)
        requires
            old(self).wf(),
            old(self)@.pos >= 1,
            old(self)@.chars[old(self)@.pos - 1] == c,
        ensures
            final(self)@ == old(self)@.identifier(),
            final(self).wf(),
    {
        let start = self.pos - 1;
        let mut hash: u64 = c as u64;
        let ghost end = ident_end(self@.chars, self@.pos);
        proof {
            lemma_ident_end(self@.chars, self@.pos);
        }
        while self.pos < self.chars.len() && is_ident_char_exec(self.chars[self.pos])
            invariant
                self.wf(),
                start < self.pos,
                self@.chars == old(self)@.chars,
                self@ == old(self)@.at_pos(self@.pos),
                ident_end(self@.chars, self@.pos) == end,
                ident_hash_from(self@.chars, self@.pos, end, hash)
                    == ident_hash_from(self@.chars, start as nat + 1, end, c as u64),
            decreases self.chars@.len() - self.pos,
        {
            proof {
                lemma_ident_end(self@.chars, self@.pos + 1);
            }
            hash = hash.wrapping_mul(147).wrapping_add(self.chars[self.pos] as u64);
            self.pos += 1;
        }
        let id_length = self.pos - start;
        hash = (hash << 6u32).wrapping_add(id_length as u64);
        let tok = if self.span_is(start, self.pos, "char") {
            Token::Char
        } else if self.span_is(start, self.pos, "else") {
            Token::Else
        } else if self.span_is(start, self.pos, "enum") {
            Token::Enum
        } else if self.span_is(start, self.pos, "for") {
            Token::For
        } else if self.span_is(start, self.pos, "if") {
            Token::If
        } else if self.span_is(start, self.pos, "int") {
            Token::Int
        } else if self.span_is(start, self.pos, "return") {
            Token::Return
        } else if self.span_is(start, self.pos, "sizeof") {
            Token::Sizeof
        } else if self.span_is(start, self.pos, "while") {
            Token::While
        } else if self.span_is(start, self.pos, "void") {
            Token::Void
        } else {
            Token::Id(hash as usize)
        };
        self.current_token = tok;
    }

    /// Whether the source characters `start..end` spell `w`.
    fn span_is(&self, start: usize, end: usize, w: &str) -> (r: bool)
        requires
            start <= end <= self@.chars.len(),
        ensures
            r == (self@.chars.subrange(start as int, end as int) == w@),
    {
        let n = w.unicode_len();
        if n != end - start {
            return false;
        }
        let mut i: usize = 0;
        while i < n
            invariant
                start <= end <= self@.chars.len(),
                n == w@.len(),
                n == end - start,
                i <= n,
                forall|k: int| 0 <= k < i ==> self@.chars[start + k] == w@[k],
            decreases n - i,
        {
            if self.chars[start + i] != w.get_char(i) {
                assert(self@.chars.subrange(start as int, end as int)[i as int] != w@[i as int]);
                return false;
            }
            i += 1;
        }
        assert(self@.chars.subrange(start as int, end as int) =~= w@);
        true
    }

    /// Reads the digits of a number literal in `base`, starting from `acc`.
    fn scan_digits(&mut self, acc: i64, base: i64) -> (v: i64)
        requires
            old(self).wf(),
            base == 8 || base == 10 || base == 16,
        ensures
            final(self)@ == old(self)@.at_pos(scan_digits(old(self)@.chars, old(self)@.pos, acc, base).0),
            v == scan_digits(old(self)@.chars, old(self)@.pos, acc, base).1,
            final(self).wf(),
    {
        let mut value = acc;
        let ghost target = scan_digits(self@.chars, self@.pos, acc, base);
        while self.pos < self.chars.len() && is_base_digit_exec(self.chars[self.pos], base)
            invariant
                old(self).wf(),
                self.wf(),
                self@ == old(self)@.at_pos(self@.pos),
                old(self)@.pos <= self@.pos,
                base == 8 || base == 10 || base == 16,
                scan_digits(self@.chars, self@.pos, value, base) == target,
            decreases self.chars@.len() - self.pos,
        {
            let d = digit_value_exec(self.chars[self.pos], base);
            value = value.wrapping_mul(base).wrapping_add(d);
            self.pos += 1;
        }
        value
    }

    /// Reads a number literal whose first digit `c` was just read.
    fn scan_number(&mut self, c: char)
        requires
            old(self).wf(),
            is_dec_digit(c),
        ensures
            final(self)@ == old(self)@.number(c),
            final(self).wf(),
    {
        let d0 = (c as u32 - '0' as u32) as i64;
        let n1 = self.peek();
        let value = if d0 == 0 && (n1 == Some('x') || n1 == Some('X')) {
            self.pos += 1;
            self.scan_digits(d0, 16)
        } else if d0 == 0 {
            self.scan_digits(d0, 8)
        } else {
            self.scan_digits(d0, 10)
        };
        self.current_value = value;
        self.current_token = Token::Num(value);
    }

    /// Reads a string or character literal whose opening delimiter was just read.
    fn scan_quoted(&mut self, delim: char)
        requires
            old(self).wf(),
            delim == '\'' || delim == '"',
        ensures
            final(self)@ == old(self)@.quoted(delim),
            final(self).wf(),
    {
        let start_pos = self.string_buffer.len();
        let ghost target = scan_quoted(self@.chars, self@.pos, delim, self@.buf);
        while self.pos < self.chars.len()
            invariant_except_break
                self.wf(),
                self@.chars == old(self)@.chars,
                self@.line == old(self)@.line,
                self@.lp == old(self)@.lp,
                self@.tok == old(self)@.tok,
                self@.value == old(self)@.value,
                self@.debug == old(self)@.debug,
                self@.buf.len() >= start_pos,
                scan_quoted(self@.chars, self@.pos, delim, self@.buf) == target,
            ensures
                self@.buf.len() >= start_pos,
                self.wf(),
                self@.chars == old(self)@.chars,
                self@.line == old(self)@.line,
                self@.lp == old(self)@.lp,
                self@.tok == old(self)@.tok,
                self@.value == old(self)@.value,
                self@.debug == old(self)@.debug,
                self@.pos == target.0,
                self@.buf == target.1,
            decreases self.chars@.len() - self.pos,
        {
            let next_c = self.chars[self.pos];
            self.pos += 1;
            if next_c == delim {
                break;
            }
            if next_c == '\\' {
                if self.pos < self.chars.len() {
                    let escaped_char = self.chars[self.pos];
                    self.pos += 1;
                    let b: u8 = if escaped_char == 'n' {
                        10
                    } else if escaped_char == 't' {
                        9
                    } else if escaped_char == 'r' {
                        13
                    } else if escaped_char == '\\' {
                        92
                    } else if escaped_char == '"' {
                        34
                    } else if escaped_char == '\'' {
                        39
                    } else if escaped_char == '0' {
                        0
                    } else {
                        escaped_char as u8
                    };
                    self.string_buffer.push(b);
                } else {
                    break;
                }
            } else {
                self.string_buffer.push(next_c as u8);
            }
        }
        if delim == '"' {
            self.string_buffer.push(0);
            self.current_value = start_pos as i64;
            self.current_token = Token::Str(start_pos);
        } else {
            if start_pos < self.string_buffer.len() {
                let char_byte = self.string_buffer[start_pos];
                self.current_value = char_byte as i64;
                self.string_buffer.truncate(start_pos);
            } else {
                self.current_value = 0;
            }
            self.current_token = Token::Num(self.current_value);
        }
    }

    /// Reads an operator or punctuation token whose first character `c` was
    /// just read; false when `c` starts no token.
    fn scan_operator(&mut self, c: char) -> (found: bool)
        requires
            old(self).wf(),
        ensures
            found == (old(self)@.operator(c) is Some),
            found ==> final(self)@ == (LexState {
                pos: old(self)@.operator(c).unwrap().1,
                tok: old(self)@.operator(c).unwrap().0,
                ..old(self)@
            }),
            !found ==> final(self)@ == old(self)@,
            final(self).wf(),
    {
        let p = self.pos;
        let n1 = self.peek();
        let n2 = if p + 1 < self.chars.len() { Some(self.chars[p + 1]) } else { None };
        let (tok, extra): (Token, usize) = if c == '=' {
            if n1 == Some('=') { (Token::Eq, 1) } else { (Token::Assign, 0) }
        } else if c == '+' {
            if n1 == Some('=') {
                (Token::AddAssign, 1)
            } else if n1 == Some('+') {
                (Token::Inc, 1)
            } else {
                (Token::Add, 0)
            }
        } else if c == '-' {
            if n1 == Some('=') {
                (Token::SubAssign, 1)
            } else if n1 == Some('-') {
                (Token::Dec, 1)
            } else {
                (Token::Sub, 0)
            }
        } else if c == '*' {
            if n1 == Some('=') { (Token::MulAssign, 1) } else { (Token::Mul, 0) }
        } else if c == '%' {
            if n1 == Some('=') { (Token::ModAssign, 1) } else { (Token::Mod, 0) }
        } else if c == '!' {
            if n1 == Some('=') { (Token::Ne, 1) } else { (Token::Not, 0) }
        } else if c == '<' {
            if n1 == Some('=') {
                (Token::Le, 1)
            } else if n1 == Some('<') {
                if n2 == Some('=') { (Token::ShlAssign, 2) } else { (Token::Shl, 1) }
            } else {
                (Token::Lt, 0)
            }
        } else if c == '>' {
            if n1 == Some('=') {
                (Token::Ge, 1)
            } else if n1 == Some('>') {
                if n2 == Some('=') { (Token::ShrAssign, 2) } else { (Token::Shr, 1) }
            } else {
                (Token::Gt, 0)
            }
        } else if c == '&' {
            if n1 == Some('&') {
                (Token::Lan, 1)
            } else if n1 == Some('=') {
                (Token::AndAssign, 1)
            } else {
                (Token::And, 0)
            }
        } else if c == '|' {
            if n1 == Some('|') {
                (Token::Lor, 1)
            } else if n1 == Some('=') {
                (Token::OrAssign, 1)
            } else {
                (Token::Or, 0)
            }
        } else if c == '^' {
            if n1 == Some('=') { (Token::XorAssign, 1) } else { (Token::Xor, 0) }
        } else if c == '[' {
            (Token::LeftBracket, 0)
        } else if c == '?' {
            (Token::Cond, 0)
        } else if c == '~' {
            (Token::Tilde, 0)
        } else if c == ';' {
            (Token::Semicolon, 0)
        } else if c == '{' {
            (Token::LeftBrace, 0)
        } else if c == '}' {
            (Token::RightBrace, 0)
        } else if c == '(' {
            (Token::LeftParen, 0)
        } else if c == ')' {
            (Token::RightParen, 0)
        } else if c == ']' {
            (Token::RightBracket, 0)
        } else if c == ',' {
            (Token::Comma, 0)
        } else if c == ':' {
            (Token::Colon, 0)
        } else {
            return false;
        };
        self.pos = p + extra;
        self.current_token = tok;
        true
    }

    /// Reads the next token, makes it the current one and returns it.
    pub fn next(&mut self) -> (t: Token)
        requires
            old(self).wf(),
        ensures
            final(self)@ == old(self)@.advance(),
            t == final(self)@.tok,
            final(self).wf(),
            old(self)@.tok != Token::Eof ==> final(self)@.measure() < old(self)@.measure(),
            final(self)@.measure() <= old(self)@.measure(),
    {
        proof {
            lemma_advance(self@);
        }
        let ghost goal = self@.advance();
        loop
            invariant
                self.wf(),
                self@.advance() == goal,
                goal == old(self)@.advance(),
                old(self)@.tok != Token::Eof ==> goal.measure() < old(self)@.measure(),
                goal.measure() <= old(self)@.measure(),
            decreases self.chars@.len() - self.pos,
        {
            let ghost head = self@;
            self.skip_whitespace();
            proof {
                lemma_skip_ws(head);
            }
            if self.pos >= self.chars.len() {
                self.current_token = Token::Eof;
                return Token::Eof;
            }
            let c = self.chars[self.pos];
            self.pos += 1;
            if c == '_' || ('a' <= c && c <= 'z') || ('A' <= c && c <= 'Z') {
                self.scan_identifier(c);
                return self.current_token;
            } else if '0' <= c && c <= '9' {
                self.scan_number(c);
                return self.current_token;
            } else if c == '\'' || c == '"' {
                self.scan_quoted(c);
                return self.current_token;
            } else if c == '/' {
                let n1 = self.peek();
                if n1 == Some('/') {
                    self.pos += 1;
                    let ghost e = line_end(self@.chars, self@.pos);
                    let ghost from = self@;
                    proof {
                        lemma_line_end(self@.chars, self@.pos);
                    }
                    while self.pos < self.chars.len() && self.chars[self.pos] != '\n'
                        invariant
                            self.wf(),
                            self@ == from.at_pos(self@.pos),
                            from.pos <= self@.pos,
                            line_end(self@.chars, self@.pos) == e,
                        decreases self.chars@.len() - self.pos,
                    {
                        self.pos += 1;
                    }
                    assert(self@.pos == e);
                } else if n1 == Some('*') {
                    self.pos += 1;
                    proof {
                        lemma_skip_block(self@, 1);
                    }
                    let closed = self.skip_block_comment();
                    if !closed {
                        self.current_token = Token::Eof;
                        return Token::Eof;
                    }
                } else if n1 == Some('=') {
                    self.pos += 1;
                    self.current_token = Token::DivAssign;
                    return Token::DivAssign;
                } else {
                    self.current_token = Token::Div;
                    return Token::Div;
                }
            } else if self.scan_operator(c) {
                return self.current_token;
            }
        }
    }
}
} // verus!
